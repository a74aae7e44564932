//! Moving one verified archive into the staging directory. A rename is
//! tried first. Where it fails because source and destination lie on
//! different filesystems, the archive is copied and the source removed.
//! Any other failure is fatal.

use vstd::prelude::*;

verus! {

/// Where the move of one archive stands.
#[derive(Clone, Copy, Debug, PartialEq, Eq, Structural)]
pub enum RelocationState {
    /// The rename is under way.
    Renaming,
    /// The copy is under way.
    Copying,
    /// The source is being removed after the copy.
    Removing,
    /// The archive is in the staging directory.
    Moved,
    /// The move failed; the run ends.
    Failed,
}

/// How the operation that was asked for ended.
#[derive(Clone, Copy, Debug, PartialEq, Eq, Structural)]
pub enum RelocationEvent {
    Succeeded,
    /// It failed; `raw_os_error` is the error number of the operating
    /// system, where there is one.
    Failed { raw_os_error: Option<i32> },
}

/// What to do next.
#[derive(Clone, Copy, Debug, PartialEq, Eq, Structural)]
pub enum RelocationAction {
    /// Rename the source to the destination.
    Rename,
    /// Copy the source to the destination.
    CopyToDestination,
    /// Remove the source. A failure to do so is not an error.
    RemoveSource,
    /// The archive is moved.
    Finish,
    /// Give up with the error that was reported.
    Abort,
}

/// The state and action that follow `event` in `state`, where
/// `cross_device` is the error number for a rename across filesystems;
/// `None` where the move has ended.
pub open spec fn relocation_transition(
    state: RelocationState,
    event: RelocationEvent,
    cross_device: i32,
) -> Option<(RelocationState, RelocationAction)> {
    match state {
        RelocationState::Renaming => Some(
            match event {
                RelocationEvent::Succeeded => (RelocationState::Moved, RelocationAction::Finish),
                RelocationEvent::Failed { raw_os_error } => if raw_os_error == Some(cross_device) {
                    (RelocationState::Copying, RelocationAction::CopyToDestination)
                } else {
                    (RelocationState::Failed, RelocationAction::Abort)
                },
            },
        ),
        RelocationState::Copying => Some(
            match event {
                RelocationEvent::Succeeded => (
                    RelocationState::Removing,
                    RelocationAction::RemoveSource,
                ),
                RelocationEvent::Failed { .. } => (RelocationState::Failed, RelocationAction::Abort),
            },
        ),
        RelocationState::Removing => Some((RelocationState::Moved, RelocationAction::Finish)),
        RelocationState::Moved => None,
        RelocationState::Failed => None,
    }
}

/// The state a move starts in, and the first action to perform.
pub fn relocation_start() -> (out: (RelocationState, RelocationAction))
    ensures
        out == (RelocationState::Renaming, RelocationAction::Rename),
{
    (RelocationState::Renaming, RelocationAction::Rename)
}

/// One step of a move, given the error number `cross_device` that the
/// operating system reports for a rename across filesystems.
pub fn relocation_step(state: RelocationState, event: RelocationEvent, cross_device: i32) -> (out:
    Option<(RelocationState, RelocationAction)>)
    ensures
        out == relocation_transition(state, event, cross_device),
{
    match state {
        RelocationState::Renaming => match event {
            RelocationEvent::Succeeded => Some((RelocationState::Moved, RelocationAction::Finish)),
            RelocationEvent::Failed { raw_os_error } => match raw_os_error {
                Some(code) => {
                    if code == cross_device {
                        Some((RelocationState::Copying, RelocationAction::CopyToDestination))
                    } else {
                        Some((RelocationState::Failed, RelocationAction::Abort))
                    }
                },
                None => Some((RelocationState::Failed, RelocationAction::Abort)),
            },
        },
        RelocationState::Copying => match event {
            RelocationEvent::Succeeded => Some(
                (RelocationState::Removing, RelocationAction::RemoveSource),
            ),
            RelocationEvent::Failed { .. } => Some((RelocationState::Failed, RelocationAction::Abort)),
        },
        RelocationState::Removing => Some((RelocationState::Moved, RelocationAction::Finish)),
        RelocationState::Moved => None,
        RelocationState::Failed => None,
    }
}

/// `libc::EXDEV`: the error number with which this platform refuses a
/// rename across filesystems. Nothing is claimed of its value, which differs
/// from platform to platform.
#[verifier::external_body]
pub(crate) fn cross_device_code() -> (code: i32) {
    libc::EXDEV
}

/// The event is a failed rename that carries an error number: the one case
/// in which the next step depends on the platform.
pub open spec fn platform_decides(state: RelocationState, event: RelocationEvent) -> bool {
    state == RelocationState::Renaming && event matches RelocationEvent::Failed {
        raw_os_error: Some(_),
    }
}

/// One step of a move on this platform.
///
/// The step is that of [`relocation_step`] for the platform's error number.
/// Except after a failed rename that carries an error number, it is the same
/// on every platform; after one, the archive is either copied or the move is
/// given up.
pub fn relocate(state: RelocationState, event: RelocationEvent) -> (out: Option<
    (RelocationState, RelocationAction),
>)
    ensures
        exists|code: i32| out == relocation_transition(state, event, code),
        !platform_decides(state, event) ==> forall|code: i32|
            out == relocation_transition(state, event, code),
        platform_decides(state, event) ==> out == Some(
            (RelocationState::Copying, RelocationAction::CopyToDestination),
        ) || out == Some((RelocationState::Failed, RelocationAction::Abort)),
{
    let code = cross_device_code();
    relocation_step(state, event, code)
}

/// Whether the archive is at the source, and whether it is at the
/// destination.
pub struct ArchiveAt {
    pub source: bool,
    pub destination: bool,
}

/// Where the archive is after the operation asked for in `state` ended as
/// `event` says.
pub open spec fn relocation_effect(at: ArchiveAt, state: RelocationState, event: RelocationEvent) -> ArchiveAt {
    match (state, event) {
        (RelocationState::Renaming, RelocationEvent::Succeeded) => ArchiveAt {
            source: false,
            destination: true,
        },
        (RelocationState::Copying, RelocationEvent::Succeeded) => ArchiveAt {
            source: at.source,
            destination: true,
        },
        (RelocationState::Removing, RelocationEvent::Succeeded) => ArchiveAt {
            source: false,
            destination: at.destination,
        },
        _ => at,
    }
}

/// The state of a move, and where the archive is, after `events`, one after
/// the other, from the start. Events after the end change nothing.
pub open spec fn relocation_run(cross_device: i32, events: Seq<RelocationEvent>) -> (
    RelocationState,
    ArchiveAt,
)
    decreases events.len(),
{
    if events.len() == 0 {
        (RelocationState::Renaming, ArchiveAt { source: true, destination: false })
    } else {
        let (state, at) = relocation_run(cross_device, events.drop_last());
        match relocation_transition(state, events.last(), cross_device) {
            Some((next, _)) => (next, relocation_effect(at, state, events.last())),
            None => (state, at),
        }
    }
}

/// Whatever is reported, an archive that counts as moved is at its
/// destination, and a failed move has left the source in place.
pub proof fn moved_means_at_destination(cross_device: i32, events: Seq<RelocationEvent>)
    ensures
        ({
            let (state, at) = relocation_run(cross_device, events);
            &&& state == RelocationState::Moved ==> at.destination
            &&& state == RelocationState::Failed ==> at.source && !at.destination
            &&& state == RelocationState::Renaming ==> at.source && !at.destination
            &&& state == RelocationState::Copying ==> at.source && !at.destination
            &&& state == RelocationState::Removing ==> at.source && at.destination
        }),
    decreases events.len(),
{
    if events.len() > 0 {
        moved_means_at_destination(cross_device, events.drop_last());
    }
}

/// Across filesystems the archive still arrives: the rename fails with the
/// cross-device error number, the copy and the removal succeed, and the
/// archive is at the destination and no longer at the source.
pub proof fn cross_device_move_arrives(cross_device: i32)
    ensures
        relocation_run(
            cross_device,
            seq![
                RelocationEvent::Failed { raw_os_error: Some(cross_device) },
                RelocationEvent::Succeeded,
                RelocationEvent::Succeeded,
            ],
        ) == (RelocationState::Moved, ArchiveAt { source: false, destination: true }),
{
    let events = seq![
        RelocationEvent::Failed { raw_os_error: Some(cross_device) },
        RelocationEvent::Succeeded,
        RelocationEvent::Succeeded,
    ];
    let two = events.drop_last();
    let one = two.drop_last();
    assert(one.drop_last() =~= Seq::<RelocationEvent>::empty());
    assert(relocation_run(cross_device, one.drop_last()) == (
        RelocationState::Renaming,
        ArchiveAt { source: true, destination: false },
    ));
    assert(one.last() == RelocationEvent::Failed { raw_os_error: Some(cross_device) });
    assert(relocation_run(cross_device, one) == (
        RelocationState::Copying,
        ArchiveAt { source: true, destination: false },
    ));
    assert(two.last() == RelocationEvent::Succeeded);
    assert(relocation_run(cross_device, two) == (
        RelocationState::Removing,
        ArchiveAt { source: true, destination: true },
    ));
    assert(events.last() == RelocationEvent::Succeeded);
}

/// On one filesystem the rename moves the archive: it is at the destination
/// and no longer at the source.
pub proof fn rename_moves(cross_device: i32)
    ensures
        relocation_run(cross_device, seq![RelocationEvent::Succeeded]) == (
            RelocationState::Moved,
            ArchiveAt { source: false, destination: true },
        ),
{
    let events = seq![RelocationEvent::Succeeded];
    assert(events.drop_last() =~= Seq::<RelocationEvent>::empty());
    assert(events.last() == RelocationEvent::Succeeded);
    assert(relocation_run(cross_device, events.drop_last()) == (
        RelocationState::Renaming,
        ArchiveAt { source: true, destination: false },
    ));
}

/// The copy is tried only after a rename that failed with the cross-device
/// error number; every other failure ends the move.
pub proof fn copy_only_across_devices(state: RelocationState, event: RelocationEvent, cross_device: i32)
    ensures
        relocation_transition(state, event, cross_device) matches Some(
            (RelocationState::Copying, _),
        ) ==> state == RelocationState::Renaming && event == (RelocationEvent::Failed {
            raw_os_error: Some(cross_device),
        }),
{
}

} // verus!
