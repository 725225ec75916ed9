use indexed_cache::export::{
    advance, get_state_automerge, resolve_index, resolve_indices, save_action, DecodeError,
    LoadPlan, SaveAction, SavePhase, VerifyFlag,
};
use indexed_cache::indexed_cache::IndexedCache;

#[test]
fn default_policy_verifies() {
    assert_eq!(VerifyFlag::default(), VerifyFlag::Verify);
}

#[test]
fn empty_input_is_empty_document() {
    assert_eq!(get_state_automerge(&vec![], VerifyFlag::Verify), LoadPlan::EmptyDocument);
    assert_eq!(get_state_automerge(&vec![], VerifyFlag::Skip), LoadPlan::EmptyDocument);
}

#[test]
fn nonempty_input_is_decoded_under_policy() {
    let bytes = vec![0x85, 0x6f, 0x4a, 0x83];
    assert_eq!(
        get_state_automerge(&bytes, VerifyFlag::Verify),
        LoadPlan::Decode { verify: true }
    );
    assert_eq!(
        get_state_automerge(&bytes, VerifyFlag::Skip),
        LoadPlan::Decode { verify: false }
    );
}

#[test]
fn corrupted_index_is_unknown_when_skipping() {
    let actors = IndexedCache::from_iter(vec![111, 222]);
    assert_eq!(resolve_index(&actors, 1, VerifyFlag::Skip), Ok(Some(222)));
    assert_eq!(resolve_index(&actors, 2, VerifyFlag::Skip), Ok(None));
    let got = resolve_indices(&actors, &vec![0, 5, 1], VerifyFlag::Skip);
    assert_eq!(got, Ok(vec![Some(111), None, Some(222)]));
}

#[test]
fn corrupted_index_is_error_when_verifying() {
    let actors = IndexedCache::from_iter(vec![111, 222]);
    assert_eq!(
        resolve_index(&actors, 2, VerifyFlag::Verify),
        Err(DecodeError::IndexOutOfRange { index: 2, len: 2 })
    );
    assert_eq!(
        resolve_indices(&actors, &vec![0, 1, 7, 9], VerifyFlag::Verify),
        Err(DecodeError::IndexOutOfRange { index: 7, len: 2 })
    );
    assert_eq!(
        resolve_indices(&actors, &vec![1, 0], VerifyFlag::Verify),
        Ok(vec![Some(222), Some(111)])
    );
}

fn run_save(outcomes: &[bool]) -> (Vec<SaveAction>, SavePhase) {
    let mut phase = SavePhase::Start;
    let mut actions = vec![];
    let mut k = 0;
    loop {
        let a = save_action(phase);
        actions.push(a);
        if a == SaveAction::Done || a == SaveAction::Fail {
            return (actions, phase);
        }
        phase = advance(phase, outcomes[k]);
        k += 1;
    }
}

#[test]
fn save_steps_in_order_on_success() {
    let (actions, end) = run_save(&[true, true, true, true]);
    assert_eq!(
        actions,
        vec![
            SaveAction::CreateTemp,
            SaveAction::WriteTemp,
            SaveAction::SyncTemp,
            SaveAction::ReplaceDestination,
            SaveAction::Done
        ]
    );
    assert_eq!(end, SavePhase::Replaced);
}

#[test]
fn failed_sync_never_replaces_destination() {
    let (actions, end) = run_save(&[true, true, false, true]);
    assert_eq!(
        actions,
        vec![
            SaveAction::CreateTemp,
            SaveAction::WriteTemp,
            SaveAction::SyncTemp,
            SaveAction::RemoveTemp,
            SaveAction::Fail
        ]
    );
    assert_eq!(end, SavePhase::Failed);
}

#[test]
fn failed_create_leaves_nothing_to_remove() {
    let (actions, end) = run_save(&[false]);
    assert_eq!(actions, vec![SaveAction::CreateTemp, SaveAction::Fail]);
    assert_eq!(end, SavePhase::Failed);
}

#[test]
fn failed_replace_cleans_up() {
    let (actions, _) = run_save(&[true, true, true, false, true]);
    assert_eq!(actions[3], SaveAction::ReplaceDestination);
    assert_eq!(actions[4], SaveAction::RemoveTemp);
    assert_eq!(actions[5], SaveAction::Fail);
}
