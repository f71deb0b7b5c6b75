//! Classification of presence statuses into online and offline.

use vstd::prelude::*;

verus! {

/// A presence status carried by a notification or by a snapshot entry.
///
/// `Unknown` stands for every status value outside the recognized set:
/// boundary code maps unrecognized or future values to it, and the
/// classifier treats it as offline.
#[derive(Clone, Copy, PartialEq, Eq, Structural, Debug)]
pub enum Status {
    Busy,
    Idle,
    Invisible,
    Active,
    Offline,
    Unknown,
}

/// The fixed partition of statuses: exactly these four count as online;
/// everything else, explicit `Offline` and `Unknown` included, is offline.
pub open spec fn is_online(s: Status) -> bool {
    s == Status::Busy || s == Status::Idle || s == Status::Invisible || s == Status::Active
}

/// Classifies a status as online (`true`) or offline (`false`).
/// Pure and total: no state, no side effects, no failure modes.
pub fn classify(s: Status) -> (r: bool)
    ensures
        r == is_online(s),
{
    match s {
        Status::Busy | Status::Idle | Status::Invisible | Status::Active => true,
        Status::Offline | Status::Unknown => false,
    }
}

/// Classifier totality: every status value maps to exactly one of
/// {online, offline}, and the values outside the recognized online set —
/// explicit `Offline` and any unrecognized value (`Unknown`) — map to
/// offline, never online.
pub proof fn lemma_classifier_total(s: Status)
    ensures
        is_online(s) <==> (s == Status::Busy || s == Status::Idle || s == Status::Invisible
            || s == Status::Active),
        !is_online(Status::Offline),
        !is_online(Status::Unknown),
{
}

} // verus!
