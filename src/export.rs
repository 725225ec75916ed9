//! The decisions at the load and save boundary: how an input is read under a
//! verification policy, how indices from untrusted bytes are resolved, and the
//! order of steps that makes a save crash-safe.
use crate::indexed_cache::{entry_at, IndexedCache};
use vstd::prelude::*;

verus! {

/// How strictly an incoming byte stream is checked before it is trusted.
#[derive(Clone, Copy, Debug, PartialEq, Eq, Structural)]
pub enum VerifyFlag {
    /// Reject the input on any integrity failure.
    Verify,
    /// Decode best-effort, degrading inconsistencies to absence.
    Skip,
}

impl Default for VerifyFlag {
    /// The stricter policy.
    fn default() -> (r: VerifyFlag)
        ensures
            r == VerifyFlag::Verify,
    {
        VerifyFlag::Verify
    }
}

/// What loading an input amounts to.
#[derive(Clone, Copy, Debug, PartialEq, Eq, Structural)]
pub enum LoadPlan {
    /// The input is empty: the result is the empty document.
    EmptyDocument,
    /// The input is handed to the decoder, with or without integrity checks.
    Decode { verify: bool },
}

/// Decides how `input` is loaded under `policy`: an empty buffer is the empty
/// document under either policy; anything else is decoded, checked when the
/// policy asks for it.
pub fn get_state_automerge(input: &Vec<u8>, policy: VerifyFlag) -> (r: LoadPlan)
    ensures
        input@.len() == 0 ==> r == LoadPlan::EmptyDocument,
        input@.len() > 0 ==> r == (LoadPlan::Decode { verify: policy == VerifyFlag::Verify }),
{
    if input.len() == 0 {
        LoadPlan::EmptyDocument
    } else {
        match policy {
            VerifyFlag::Verify => LoadPlan::Decode { verify: true },
            VerifyFlag::Skip => LoadPlan::Decode { verify: false },
        }
    }
}

/// A failure to decode a byte stream.
#[derive(Clone, Copy, Debug, PartialEq, Eq, Structural)]
pub enum DecodeError {
    /// An index read from the stream lies past the end of its table.
    IndexOutOfRange { index: usize, len: usize },
}

/// What an index read from untrusted bytes resolves to under `policy`: the
/// entry when in range; past the end, an error when verifying and an unknown
/// identity when skipping.
pub open spec fn resolution(table: Seq<u64>, index: int, policy: VerifyFlag) -> Result<
    Option<u64>,
    DecodeError,
> {
    match entry_at(table, index) {
        Some(v) => Ok(Some(v)),
        None => if policy == VerifyFlag::Verify {
            Err(DecodeError::IndexOutOfRange { index: index as usize, len: table.len() as usize })
        } else {
            Ok(None)
        },
    }
}

/// Resolves an index read from untrusted bytes against `table`, without ever
/// failing on an out-of-range index except as an error value.
pub fn resolve_index(table: &IndexedCache, index: usize, policy: VerifyFlag) -> (r: Result<
    Option<u64>,
    DecodeError,
>)
    ensures
        r == resolution(table@, index as int, policy),
{
    match table.safe_get(index) {
        Some(v) => Ok(Some(*v)),
        None => match policy {
            VerifyFlag::Verify => Err(DecodeError::IndexOutOfRange { index, len: table.len() }),
            VerifyFlag::Skip => Ok(None),
        },
    }
}

/// Resolves every index of `indices` in order. Under the skipping policy
/// this always succeeds, out-of-range indices becoming unknown identities;
/// under the verifying policy the first out-of-range index is the error.
pub fn resolve_indices(table: &IndexedCache, indices: &Vec<usize>, policy: VerifyFlag) -> (r: Result<
    Vec<Option<u64>>,
    DecodeError,
>)
    ensures
        match r {
            Ok(vals) => {
                &&& vals@.len() == indices@.len()
                &&& forall|k: int|
                    0 <= k < indices@.len() ==> resolution(table@, indices@[k] as int, policy)
                        == Ok::<Option<u64>, DecodeError>(#[trigger] vals@[k])
            },
            Err(e) => exists|k: int|
                0 <= k < indices@.len() && resolution(table@, indices@[k] as int, policy) == Err::<
                    Option<u64>,
                    DecodeError,
                >(e) && forall|m: int|
                    0 <= m < k ==> #[trigger] resolution(table@, indices@[m] as int, policy) is Ok,
        },
        r is Err <==> exists|k: int|
            0 <= k < indices@.len() && #[trigger] resolution(
                table@,
                indices@[k] as int,
                policy,
            ) is Err,
        policy == VerifyFlag::Skip ==> r is Ok,
{
    let mut out: Vec<Option<u64>> = Vec::new();
    let mut i: usize = 0;
    while i < indices.len()
        invariant
            i <= indices@.len(),
            out@.len() == i,
            forall|k: int|
                0 <= k < i ==> resolution(table@, indices@[k] as int, policy) == Ok::<
                    Option<u64>,
                    DecodeError,
                >(#[trigger] out@[k]),
        decreases indices@.len() - i,
    {
        match resolve_index(table, indices[i], policy) {
            Ok(v) => out.push(v),
            Err(e) => {
                proof {
                    assert forall|m: int| 0 <= m < i implies #[trigger] resolution(
                        table@,
                        indices@[m] as int,
                        policy,
                    ) is Ok by {
                        assert(resolution(table@, indices@[m] as int, policy) == Ok::<
                            Option<u64>,
                            DecodeError,
                        >(out@[m]));
                    }
                }
                return Err(e);
            },
        }
        i = i + 1;
    }
    proof {
        assert forall|k: int| 0 <= k < indices@.len() implies !(#[trigger] resolution(
            table@,
            indices@[k] as int,
            policy,
        ) is Err) by {
            assert(resolution(table@, indices@[k] as int, policy) == Ok::<Option<u64>, DecodeError>(
                out@[k],
            ));
        }
    }
    Ok(out)
}

} // verus!

verus! {

/// How far a crash-safe save has come. The new content is written to a
/// temporary file, synced, and only then moved over the destination.
#[derive(Clone, Copy, Debug, PartialEq, Eq, Structural)]
pub enum SavePhase {
    /// Nothing done yet.
    Start,
    /// The temporary file exists and is empty.
    TempCreated,
    /// The temporary file holds the whole content.
    TempWritten,
    /// The temporary file's content is on stable storage.
    TempSynced,
    /// The destination holds the new content.
    Replaced,
    /// A step failed after the temporary file was created; it is removed next.
    CleaningUp,
    /// The save failed and no temporary file is left.
    Failed,
}

/// The step to perform next.
#[derive(Clone, Copy, Debug, PartialEq, Eq, Structural)]
pub enum SaveAction {
    CreateTemp,
    WriteTemp,
    SyncTemp,
    ReplaceDestination,
    RemoveTemp,
    Done,
    Fail,
}

/// The step that follows `phase`.
pub open spec fn action_for(phase: SavePhase) -> SaveAction {
    match phase {
        SavePhase::Start => SaveAction::CreateTemp,
        SavePhase::TempCreated => SaveAction::WriteTemp,
        SavePhase::TempWritten => SaveAction::SyncTemp,
        SavePhase::TempSynced => SaveAction::ReplaceDestination,
        SavePhase::CleaningUp => SaveAction::RemoveTemp,
        SavePhase::Replaced => SaveAction::Done,
        SavePhase::Failed => SaveAction::Fail,
    }
}

/// The phase reached once the step of `phase` succeeded or failed.
pub open spec fn phase_after(phase: SavePhase, succeeded: bool) -> SavePhase {
    match phase {
        SavePhase::Start => if succeeded {
            SavePhase::TempCreated
        } else {
            SavePhase::Failed
        },
        SavePhase::TempCreated => if succeeded {
            SavePhase::TempWritten
        } else {
            SavePhase::CleaningUp
        },
        SavePhase::TempWritten => if succeeded {
            SavePhase::TempSynced
        } else {
            SavePhase::CleaningUp
        },
        SavePhase::TempSynced => if succeeded {
            SavePhase::Replaced
        } else {
            SavePhase::CleaningUp
        },
        SavePhase::CleaningUp => SavePhase::Failed,
        SavePhase::Replaced => SavePhase::Replaced,
        SavePhase::Failed => SavePhase::Failed,
    }
}

/// The step to perform in `phase`.
pub fn save_action(phase: SavePhase) -> (r: SaveAction)
    ensures
        r == action_for(phase),
{
    match phase {
        SavePhase::Start => SaveAction::CreateTemp,
        SavePhase::TempCreated => SaveAction::WriteTemp,
        SavePhase::TempWritten => SaveAction::SyncTemp,
        SavePhase::TempSynced => SaveAction::ReplaceDestination,
        SavePhase::CleaningUp => SaveAction::RemoveTemp,
        SavePhase::Replaced => SaveAction::Done,
        SavePhase::Failed => SaveAction::Fail,
    }
}

/// The phase after the step of `phase` reported `succeeded`. A failure is
/// not retried: it leads to cleanup, then to `Failed`.
pub fn advance(phase: SavePhase, succeeded: bool) -> (r: SavePhase)
    ensures
        r == phase_after(phase, succeeded),
{
    match phase {
        SavePhase::Start => if succeeded {
            SavePhase::TempCreated
        } else {
            SavePhase::Failed
        },
        SavePhase::TempCreated => if succeeded {
            SavePhase::TempWritten
        } else {
            SavePhase::CleaningUp
        },
        SavePhase::TempWritten => if succeeded {
            SavePhase::TempSynced
        } else {
            SavePhase::CleaningUp
        },
        SavePhase::TempSynced => if succeeded {
            SavePhase::Replaced
        } else {
            SavePhase::CleaningUp
        },
        SavePhase::CleaningUp => SavePhase::Failed,
        SavePhase::Replaced => SavePhase::Replaced,
        SavePhase::Failed => SavePhase::Failed,
    }
}

/// What is on storage during a save: the destination file, the temporary
/// file, and whether the temporary file's content has been synced.
pub struct Storage {
    pub dest: Option<Seq<u8>>,
    pub temp: Option<Seq<u8>>,
    pub synced: bool,
}

/// Storage after `action` ran with `succeeded`, saving `content`. A failed
/// write may leave any `partial` bytes in the temporary file; a failed
/// replace leaves the destination as it was, as the rename it stands for
/// is atomic.
pub open spec fn storage_after(
    s: Storage,
    action: SaveAction,
    succeeded: bool,
    content: Seq<u8>,
    partial: Seq<u8>,
) -> Storage {
    match action {
        SaveAction::CreateTemp => if succeeded {
            Storage { dest: s.dest, temp: Some(Seq::empty()), synced: false }
        } else {
            s
        },
        SaveAction::WriteTemp => if succeeded {
            Storage { dest: s.dest, temp: Some(content), synced: false }
        } else {
            Storage { dest: s.dest, temp: Some(partial), synced: false }
        },
        SaveAction::SyncTemp => if succeeded {
            Storage { dest: s.dest, temp: s.temp, synced: true }
        } else {
            s
        },
        SaveAction::ReplaceDestination => if succeeded {
            Storage { dest: s.temp, temp: None, synced: false }
        } else {
            s
        },
        SaveAction::RemoveTemp => Storage { dest: s.dest, temp: None, synced: false },
        SaveAction::Done => s,
        SaveAction::Fail => s,
    }
}

/// What holds of storage in each phase of a save of `content` over a
/// destination that held `prior`.
pub open spec fn save_consistent(phase: SavePhase, s: Storage, prior: Option<Seq<u8>>, content: Seq<u8>) -> bool {
    &&& phase == SavePhase::Replaced ==> s.dest == Some(content)
    &&& phase != SavePhase::Replaced ==> s.dest == prior
    &&& phase == SavePhase::TempWritten ==> s.temp == Some(content)
    &&& phase == SavePhase::TempSynced ==> s.temp == Some(content) && s.synced
    &&& phase == SavePhase::TempCreated ==> s.temp is Some
    &&& (phase == SavePhase::Start || phase == SavePhase::Failed) ==> s.temp is None
}

/// A save never exposes a partial destination: whatever each step reports,
/// and wherever the process stops, the destination holds either its prior
/// content or the whole new content, and it is replaced only by a temporary
/// file that holds the whole content and has been synced.
pub proof fn lemma_save_crash_safe(
    phase: SavePhase,
    s: Storage,
    prior: Option<Seq<u8>>,
    content: Seq<u8>,
    succeeded: bool,
    partial: Seq<u8>,
)
    requires
        save_consistent(phase, s, prior, content),
    ensures
        ({
            let next = storage_after(s, action_for(phase), succeeded, content, partial);
            &&& save_consistent(phase_after(phase, succeeded), next, prior, content)
            &&& next.dest == prior || next.dest == Some(content)
        }),
        action_for(phase) == SaveAction::ReplaceDestination ==> s.temp == Some(content) && s.synced,
{
}

} // verus!
