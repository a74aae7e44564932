use rua_install::relocation::relocate;
use rua_install::relocation::relocation_start;
use rua_install::relocation::relocation_step;
use rua_install::relocation::RelocationAction;
use rua_install::relocation::RelocationEvent;
use rua_install::relocation::RelocationState;

const OK: RelocationEvent = RelocationEvent::Succeeded;

fn failed(code: Option<i32>) -> RelocationEvent {
    RelocationEvent::Failed { raw_os_error: code }
}

#[test]
fn a_move_starts_with_a_rename() {
    assert_eq!(relocation_start(), (RelocationState::Renaming, RelocationAction::Rename));
}

#[test]
fn rename_that_succeeds_ends_the_move() {
    assert_eq!(
        relocation_step(RelocationState::Renaming, OK, 18),
        Some((RelocationState::Moved, RelocationAction::Finish))
    );
}

#[test]
fn rename_across_filesystems_falls_back_to_copy_and_remove() {
    let mut state = RelocationState::Renaming;
    let mut actions = Vec::new();
    for event in [failed(Some(18)), OK, OK] {
        let (next, action) = relocation_step(state, event, 18).expect("the move has not ended");
        state = next;
        actions.push(action);
    }
    assert_eq!(state, RelocationState::Moved);
    assert_eq!(
        actions,
        vec![RelocationAction::CopyToDestination, RelocationAction::RemoveSource, RelocationAction::Finish]
    );
}

#[test]
fn any_other_rename_failure_is_fatal() {
    for code in [None, Some(0), Some(1), Some(13), Some(17), Some(19), Some(-18)] {
        assert_eq!(
            relocation_step(RelocationState::Renaming, failed(code), 18),
            Some((RelocationState::Failed, RelocationAction::Abort))
        );
    }
}

#[test]
fn failed_copy_is_fatal() {
    for code in [None, Some(18), Some(28)] {
        assert_eq!(
            relocation_step(RelocationState::Copying, failed(code), 18),
            Some((RelocationState::Failed, RelocationAction::Abort))
        );
    }
}

#[test]
fn failure_to_remove_the_source_is_ignored() {
    for event in [OK, failed(None), failed(Some(13)), failed(Some(18))] {
        assert_eq!(
            relocation_step(RelocationState::Removing, event, 18),
            Some((RelocationState::Moved, RelocationAction::Finish))
        );
    }
}

#[test]
fn an_ended_move_accepts_nothing() {
    for state in [RelocationState::Moved, RelocationState::Failed] {
        for event in [OK, failed(None), failed(Some(18))] {
            assert_eq!(relocation_step(state, event, 18), None);
            assert_eq!(relocate(state, event), None);
        }
    }
}

#[test]
fn this_platform_copies_on_its_cross_device_error() {
    assert_eq!(
        relocate(RelocationState::Renaming, failed(Some(libc::EXDEV))),
        Some((RelocationState::Copying, RelocationAction::CopyToDestination))
    );
    assert_eq!(
        relocate(RelocationState::Renaming, failed(Some(libc::EXDEV + 1))),
        Some((RelocationState::Failed, RelocationAction::Abort))
    );
    assert_eq!(
        relocate(RelocationState::Renaming, failed(Some(libc::ENOENT))),
        Some((RelocationState::Failed, RelocationAction::Abort))
    );
    assert_eq!(
        relocate(RelocationState::Renaming, failed(None)),
        Some((RelocationState::Failed, RelocationAction::Abort))
    );
}

#[test]
fn this_platform_steps_like_every_other_where_no_error_number_decides() {
    assert_eq!(relocate(RelocationState::Renaming, OK), Some((RelocationState::Moved, RelocationAction::Finish)));
    assert_eq!(
        relocate(RelocationState::Copying, OK),
        Some((RelocationState::Removing, RelocationAction::RemoveSource))
    );
    assert_eq!(
        relocate(RelocationState::Copying, failed(Some(libc::EXDEV))),
        Some((RelocationState::Failed, RelocationAction::Abort))
    );
    assert_eq!(
        relocate(RelocationState::Removing, failed(Some(libc::EXDEV))),
        Some((RelocationState::Moved, RelocationAction::Finish))
    );
}
