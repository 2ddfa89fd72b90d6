//! Decisions of the watch that follows a managed record: what to do with an
//! event on the pods its values come from, and with an event on the managed
//! record itself.
//!
//! The caller waits on both event streams at once and hands each event here.
//! On a pod event that asks for it, it collects the values again and hands
//! them to a [`crate::ValueTracker`], whose changes it applies one by one
//! (see [`crate::change_op`]).

use vstd::prelude::*;

verus! {

/// The kind of a watch event.
#[derive(Clone, Copy, Debug, PartialEq, Eq, Structural)]
pub enum WatchEventKind {
    Added,
    Modified,
    Deleted,
    Bookmark,
    Error,
}

/// What to do with an event on the pods.
#[derive(Clone, Copy, Debug, PartialEq, Eq, Structural)]
pub enum PodAction {
    /// Collect the values again and apply the changes.
    Recollect,
    /// Nothing: a modified pod keeps its node.
    Ignore,
    /// End this watch with an error.
    Fail,
}

/// What to do with an event on managed records.
#[derive(Clone, Copy, Debug, PartialEq, Eq, Structural)]
pub enum RecordAction {
    /// Keep watching.
    Continue,
    /// The watched record changed: end the watch and start over with the
    /// event's object.
    Refresh,
    /// The watched record was deleted: end the watch with an error.
    Deleted,
    /// The stream failed: end the watch with an error.
    Fail,
}

/// The identity of a managed-record object: its UID and resource version.
#[derive(Clone, Debug)]
pub struct ObjectIdentity {
    pub uid: Option<String>,
    pub resource_version: Option<String>,
}

pub open spec fn opt_view(o: Option<String>) -> Option<Seq<char>> {
    match o {
        Some(s) => Some(s@),
        None => None,
    }
}

/// The action for a pod event of kind `kind`.
pub open spec fn pod_action_of(kind: WatchEventKind) -> PodAction {
    match kind {
        WatchEventKind::Added | WatchEventKind::Deleted => PodAction::Recollect,
        WatchEventKind::Modified | WatchEventKind::Bookmark => PodAction::Ignore,
        WatchEventKind::Error => PodAction::Fail,
    }
}

/// The action for an event of kind `kind` on object `object`, while the
/// record `watched` is followed: events on other records are passed over; an
/// addition of the watched record with another resource version than the one
/// first seen, or any modification of it, refreshes; its deletion ends the
/// watch.
pub open spec fn record_action_of(
    watched_uid: Option<Seq<char>>,
    watched_version: Option<Seq<char>>,
    kind: WatchEventKind,
    uid: Option<Seq<char>>,
    version: Option<Seq<char>>,
) -> RecordAction {
    match kind {
        WatchEventKind::Error => RecordAction::Fail,
        WatchEventKind::Bookmark => RecordAction::Continue,
        _ => if uid != watched_uid {
            RecordAction::Continue
        } else {
            match kind {
                WatchEventKind::Added => if version != watched_version {
                    RecordAction::Refresh
                } else {
                    RecordAction::Continue
                },
                WatchEventKind::Modified => RecordAction::Refresh,
                _ => RecordAction::Deleted,
            }
        },
    }
}

fn opt_eq(a: &Option<String>, b: &Option<String>) -> (r: bool)
    ensures
        r == (opt_view(*a) == opt_view(*b)),
{
    match (a, b) {
        (Some(x), Some(y)) => *x == *y,
        (None, None) => true,
        _ => false,
    }
}

/// The action for a pod event of kind `kind`.
pub fn pod_event_action(kind: WatchEventKind) -> (r: PodAction)
    ensures
        r == pod_action_of(kind),
{
    match kind {
        WatchEventKind::Added | WatchEventKind::Deleted => PodAction::Recollect,
        WatchEventKind::Modified | WatchEventKind::Bookmark => PodAction::Ignore,
        WatchEventKind::Error => PodAction::Fail,
    }
}

/// The action for an event of kind `kind` on `object` while `watched` is
/// followed.
pub fn record_event_action(
    watched: &ObjectIdentity,
    kind: WatchEventKind,
    object: &ObjectIdentity,
) -> (r: RecordAction)
    ensures
        r == record_action_of(
            opt_view(watched.uid),
            opt_view(watched.resource_version),
            kind,
            opt_view(object.uid),
            opt_view(object.resource_version),
        ),
{
    match kind {
        WatchEventKind::Error => RecordAction::Fail,
        WatchEventKind::Bookmark => RecordAction::Continue,
        _ => {
            if !opt_eq(&object.uid, &watched.uid) {
                return RecordAction::Continue;
            }
            match kind {
                WatchEventKind::Added => {
                    if opt_eq(&object.resource_version, &watched.resource_version) {
                        RecordAction::Continue
                    } else {
                        RecordAction::Refresh
                    }
                },
                WatchEventKind::Modified => RecordAction::Refresh,
                _ => RecordAction::Deleted,
            }
        },
    }
}

} // verus!
