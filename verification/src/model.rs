//! The mathematical model of a poll cycle: what the deletion pass and the
//! discovery pass do to the snapshot, and which events they emit.
//!
//! A snapshot is modelled as a `Map` from a path (a sequence of characters)
//! to its last observed modification timestamp. A scan is the sequence of
//! `(path, timestamp)` entries a traversal of the watched tree produced, in
//! traversal order; entries whose timestamp could not be read never appear
//! in it.

use vstd::prelude::*;

use crate::event::FileStatus;

verus! {

/// One change at the model level: a status and the path it concerns.
pub type Event = (FileStatus, Seq<char>);

/// One scan entry at the model level: a path and its observed modification
/// timestamp.
pub type ScanEntry = (Seq<char>, u64);

/// The snapshot after every entry of `scan` has been inserted in order:
/// each scanned path ends up mapped to its scanned timestamp (the last
/// one, if a path occurs twice), and every other key is untouched.
///
/// Priming and the discovery pass both leave the store in this state.
pub open spec fn primed(snap: Map<Seq<char>, u64>, scan: Seq<ScanEntry>) -> Map<Seq<char>, u64>
    decreases scan.len(),
{
    if scan.len() == 0 {
        snap
    } else {
        primed(snap.insert(scan[0].0, scan[0].1), scan.skip(1))
    }
}

/// The snapshot after the deletion pass has removed every path of
/// `missing`.
pub open spec fn after_deletions(
    snap: Map<Seq<char>, u64>,
    missing: Seq<Seq<char>>,
) -> Map<Seq<char>, u64>
    decreases missing.len(),
{
    if missing.len() == 0 {
        snap
    } else {
        after_deletions(snap.remove(missing[0]), missing.skip(1))
    }
}

/// The events the deletion pass emits: exactly one `Erased` for each path
/// of `missing` that the store knows, in the order of `missing`.
pub open spec fn deletion_events(
    snap: Map<Seq<char>, u64>,
    missing: Seq<Seq<char>>,
) -> Seq<Event>
    decreases missing.len(),
{
    if missing.len() == 0 {
        Seq::empty()
    } else {
        let rest = deletion_events(snap.remove(missing[0]), missing.skip(1));
        if snap.contains_key(missing[0]) {
            seq![(FileStatus::Erased, missing[0])] + rest
        } else {
            rest
        }
    }
}

/// The events the discovery pass emits, in scan order: exactly one
/// `Created` for a path the store does not know, exactly one `Modified`
/// for a known path whose timestamp differs from the stored one, and
/// nothing for a known path with an unchanged timestamp.
pub open spec fn discovery_events(
    snap: Map<Seq<char>, u64>,
    scan: Seq<ScanEntry>,
) -> Seq<Event>
    decreases scan.len(),
{
    if scan.len() == 0 {
        Seq::empty()
    } else {
        let p = scan[0].0;
        let t = scan[0].1;
        let rest = discovery_events(snap.insert(p, t), scan.skip(1));
        if !snap.contains_key(p) {
            seq![(FileStatus::Created, p)] + rest
        } else if snap[p] != t {
            seq![(FileStatus::Modified, p)] + rest
        } else {
            rest
        }
    }
}

/// The snapshot after one full cycle: the deletion pass completes first,
/// then the discovery pass runs over its result.
pub open spec fn cycle_snap(
    snap: Map<Seq<char>, u64>,
    missing: Seq<Seq<char>>,
    scan: Seq<ScanEntry>,
) -> Map<Seq<char>, u64> {
    primed(after_deletions(snap, missing), scan)
}

/// The events one full cycle emits: every deletion event strictly before
/// every discovery event.
pub open spec fn cycle_events(
    snap: Map<Seq<char>, u64>,
    missing: Seq<Seq<char>>,
    scan: Seq<ScanEntry>,
) -> Seq<Event> {
    deletion_events(snap, missing) + discovery_events(after_deletions(snap, missing), scan)
}

/// The scanned paths are pairwise distinct — true of any scan of a real
/// tree, since a traversal visits each path once.
pub open spec fn distinct_paths(scan: Seq<ScanEntry>) -> bool {
    forall|i: int, j: int| 0 <= i < j < scan.len() ==> scan[i].0 != scan[j].0
}

/// The store agrees with the scan: every scanned path is known and carries
/// the scanned timestamp.
pub open spec fn agrees_with(snap: Map<Seq<char>, u64>, scan: Seq<ScanEntry>) -> bool {
    forall|i: int|
        0 <= i < scan.len() ==> snap.contains_key(scan[i].0) && snap[scan[i].0] == scan[i].1
}

/// The snapshot after `n` consecutive cycles in which nothing went missing
/// and every cycle saw the same scan.
pub open spec fn static_cycles_snap(
    snap: Map<Seq<char>, u64>,
    scan: Seq<ScanEntry>,
    n: nat,
) -> Map<Seq<char>, u64>
    decreases n,
{
    if n == 0 {
        snap
    } else {
        static_cycles_snap(cycle_snap(snap, Seq::empty(), scan), scan, (n - 1) as nat)
    }
}

/// All events emitted over `n` consecutive cycles in which nothing went
/// missing and every cycle saw the same scan.
pub open spec fn static_cycles_events(
    snap: Map<Seq<char>, u64>,
    scan: Seq<ScanEntry>,
    n: nat,
) -> Seq<Event>
    decreases n,
{
    if n == 0 {
        Seq::empty()
    } else {
        cycle_events(snap, Seq::empty(), scan)
            + static_cycles_events(cycle_snap(snap, Seq::empty(), scan), scan, (n - 1) as nat)
    }
}

} // verus!
