//! General properties of the cycle model, proved once and for all:
//! priming is idempotent, a static tree yields quiet cycles, and the
//! snapshot round-trips what was inserted.

use vstd::prelude::*;

use crate::model::{
    after_deletions, agrees_with, cycle_events, cycle_snap, deletion_events, discovery_events,
    distinct_paths, primed, static_cycles_events, static_cycles_snap, Event, ScanEntry,
};

verus! {

/// Some entry of `scan` carries the path `p`.
spec fn scan_has(scan: Seq<ScanEntry>, p: Seq<char>) -> bool {
    exists|i: int| 0 <= i < scan.len() && scan[i].0 == p
}

/// A path no scan entry carries keeps exactly the binding it had.
proof fn lemma_primed_untouched(snap: Map<Seq<char>, u64>, scan: Seq<ScanEntry>, p: Seq<char>)
    requires
        !scan_has(scan, p),
    ensures
        primed(snap, scan).contains_key(p) == snap.contains_key(p),
        snap.contains_key(p) ==> primed(snap, scan)[p] == snap[p],
    decreases scan.len(),
{
    if scan.len() > 0 {
        assert(scan[0].0 != p);
        assert(!scan_has(scan.skip(1), p)) by {
            if scan_has(scan.skip(1), p) {
                let i = choose|i: int| 0 <= i < scan.skip(1).len() && scan.skip(1)[i].0 == p;
                assert(scan[i + 1].0 == p);
            }
        }
        lemma_primed_untouched(snap.insert(scan[0].0, scan[0].1), scan.skip(1), p);
    }
}

/// A primed store knows a path exactly when the base store knew it or the
/// scan carries it.
proof fn lemma_primed_contains(snap: Map<Seq<char>, u64>, scan: Seq<ScanEntry>, p: Seq<char>)
    ensures
        primed(snap, scan).contains_key(p) == (snap.contains_key(p) || scan_has(scan, p)),
    decreases scan.len(),
{
    if scan.len() == 0 {
        assert(!scan_has(scan, p));
    } else {
        lemma_primed_contains(snap.insert(scan[0].0, scan[0].1), scan.skip(1), p);
        if scan_has(scan.skip(1), p) {
            let i = choose|i: int| 0 <= i < scan.skip(1).len() && scan.skip(1)[i].0 == p;
            assert(scan[i + 1].0 == p);
        }
        if scan[0].0 == p {
            assert(scan_has(scan, p));
        }
        if scan_has(scan, p) && scan[0].0 != p {
            let i = choose|i: int| 0 <= i < scan.len() && scan[i].0 == p;
            assert(scan.skip(1)[i - 1].0 == p);
            assert(scan_has(scan.skip(1), p));
        }
    }
}

/// At a path the scan carries, priming yields the same value whatever the
/// base store held.
proof fn lemma_primed_scanned(
    snap1: Map<Seq<char>, u64>,
    snap2: Map<Seq<char>, u64>,
    scan: Seq<ScanEntry>,
    p: Seq<char>,
)
    requires
        scan_has(scan, p),
    ensures
        primed(snap1, scan).contains_key(p),
        primed(snap2, scan).contains_key(p),
        primed(snap1, scan)[p] == primed(snap2, scan)[p],
    decreases scan.len(),
{
    lemma_primed_contains(snap1, scan, p);
    lemma_primed_contains(snap2, scan, p);
    let m1 = snap1.insert(scan[0].0, scan[0].1);
    let m2 = snap2.insert(scan[0].0, scan[0].1);
    if scan_has(scan.skip(1), p) {
        lemma_primed_scanned(m1, m2, scan.skip(1), p);
    } else {
        assert(scan[0].0 == p) by {
            let i = choose|i: int| 0 <= i < scan.len() && scan[i].0 == p;
            if i > 0 {
                assert(scan.skip(1)[i - 1].0 == p);
            }
        }
        lemma_primed_untouched(m1, scan.skip(1), p);
        lemma_primed_untouched(m2, scan.skip(1), p);
    }
}

/// Priming is idempotent: priming a store that was already primed with a
/// scan, with that same scan, changes nothing.
pub proof fn lemma_priming_idempotent(snap: Map<Seq<char>, u64>, scan: Seq<ScanEntry>)
    ensures
        primed(primed(snap, scan), scan) == primed(snap, scan),
{
    let m1 = primed(snap, scan);
    let m2 = primed(m1, scan);
    assert forall|p: Seq<char>| #[trigger] m2.contains_key(p) == m1.contains_key(p) by {
        lemma_primed_contains(snap, scan, p);
        lemma_primed_contains(m1, scan, p);
    }
    assert forall|p: Seq<char>| m1.contains_key(p) implies #[trigger] m2[p] == m1[p] by {
        if scan_has(scan, p) {
            lemma_primed_scanned(m1, snap, scan, p);
        } else {
            lemma_primed_untouched(m1, scan, p);
        }
    }
    assert(m2 =~= m1);
}

/// After priming with a scan of a real tree (pairwise distinct paths),
/// the store agrees with that scan.
pub proof fn lemma_primed_agrees(snap: Map<Seq<char>, u64>, scan: Seq<ScanEntry>)
    requires
        distinct_paths(scan),
    ensures
        agrees_with(primed(snap, scan), scan),
{
    assert forall|i: int| 0 <= i < scan.len()
        implies primed(snap, scan).contains_key(scan[i].0)
            && primed(snap, scan)[scan[i].0] == scan[i].1 by {
        lemma_primed_last(snap, scan, scan[i].0, i);
    }
}

/// With distinct paths, priming records each scanned entry's timestamp.
proof fn lemma_primed_last(
    snap: Map<Seq<char>, u64>,
    scan: Seq<ScanEntry>,
    p: Seq<char>,
    i: int,
)
    requires
        distinct_paths(scan),
        0 <= i < scan.len(),
        scan[i].0 == p,
    ensures
        primed(snap, scan).contains_key(p),
        primed(snap, scan)[p] == scan[i].1,
    decreases scan.len(),
{
    let m = snap.insert(scan[0].0, scan[0].1);
    assert(forall|a: int, b: int|
        0 <= a < b < scan.skip(1).len() ==> scan.skip(1)[a].0 != scan.skip(1)[b].0);
    if i == 0 {
        assert(!scan_has(scan.skip(1), p)) by {
            if scan_has(scan.skip(1), p) {
                let j = choose|j: int| 0 <= j < scan.skip(1).len() && scan.skip(1)[j].0 == p;
                assert(scan[j + 1].0 == p);
            }
        }
        lemma_primed_untouched(m, scan.skip(1), p);
    } else {
        assert(scan.skip(1)[i - 1].0 == p);
        lemma_primed_last(m, scan.skip(1), p, i - 1);
    }
}

/// Over a scan the store already agrees with, the discovery pass changes
/// nothing and emits nothing.
proof fn lemma_static_discovery(snap: Map<Seq<char>, u64>, scan: Seq<ScanEntry>)
    requires
        agrees_with(snap, scan),
    ensures
        primed(snap, scan) == snap,
        discovery_events(snap, scan) == Seq::<Event>::empty(),
    decreases scan.len(),
{
    if scan.len() > 0 {
        assert(snap.contains_key(scan[0].0) && snap[scan[0].0] == scan[0].1);
        assert(snap.insert(scan[0].0, scan[0].1) =~= snap);
        assert(agrees_with(snap, scan.skip(1))) by {
            assert(forall|i: int|
                0 <= i < scan.skip(1).len() ==> scan.skip(1)[i] == scan[i + 1]);
        }
        lemma_static_discovery(snap, scan.skip(1));
    }
}

/// No-op stability, one cycle: over a completely static tree — nothing
/// missing, every scanned path known with an unchanged timestamp — a
/// cycle emits no event and leaves the snapshot exactly as it was.
pub proof fn lemma_static_cycle(snap: Map<Seq<char>, u64>, scan: Seq<ScanEntry>)
    requires
        agrees_with(snap, scan),
    ensures
        cycle_snap(snap, Seq::<Seq<char>>::empty(), scan) == snap,
        cycle_events(snap, Seq::<Seq<char>>::empty(), scan) == Seq::<Event>::empty(),
{
    assert(after_deletions(snap, Seq::<Seq<char>>::empty()) == snap);
    assert(deletion_events(snap, Seq::<Seq<char>>::empty()) == Seq::<Event>::empty());
    lemma_static_discovery(snap, scan);
    assert(cycle_events(snap, Seq::<Seq<char>>::empty(), scan) =~= Seq::<Event>::empty());
}

/// No-op stability: over a completely static tree, any number of
/// consecutive cycles emits zero events and leaves the snapshot as it was.
pub proof fn lemma_noop_stability(snap: Map<Seq<char>, u64>, scan: Seq<ScanEntry>, n: nat)
    requires
        agrees_with(snap, scan),
    ensures
        static_cycles_snap(snap, scan, n) == snap,
        static_cycles_events(snap, scan, n) == Seq::<Event>::empty(),
    decreases n,
{
    if n > 0 {
        lemma_static_cycle(snap, scan);
        lemma_noop_stability(snap, scan, (n - 1) as nat);
        assert(Seq::<Event>::empty() + Seq::<Event>::empty() =~= Seq::<Event>::empty());
    }
}

/// Priming idempotence, cycle half: a cycle over the unchanged tree right
/// after priming emits zero events and leaves the primed snapshot intact.
pub proof fn lemma_primed_then_quiet(snap: Map<Seq<char>, u64>, scan: Seq<ScanEntry>)
    requires
        distinct_paths(scan),
    ensures
        cycle_snap(primed(snap, scan), Seq::<Seq<char>>::empty(), scan) == primed(snap, scan),
        cycle_events(primed(snap, scan), Seq::<Seq<char>>::empty(), scan)
            == Seq::<Event>::empty(),
{
    lemma_primed_agrees(snap, scan);
    lemma_static_cycle(primed(snap, scan), scan);
}

/// Round trip: once `p` is bound to `t`, the store answers `t` for `p` —
/// and keeps doing so across insertions and removals of other paths —
/// until `p` itself is removed or rebound.
pub proof fn lemma_round_trip(snap: Map<Seq<char>, u64>, p: Seq<char>, t: u64)
    ensures
        snap.insert(p, t).contains_key(p),
        snap.insert(p, t)[p] == t,
        forall|q: Seq<char>, u: u64|
            #![trigger snap.insert(p, t).insert(q, u)]
            q != p ==> snap.insert(p, t).insert(q, u).contains_key(p)
                && snap.insert(p, t).insert(q, u)[p] == t,
        forall|q: Seq<char>|
            #![trigger snap.insert(p, t).remove(q)]
            q != p ==> snap.insert(p, t).remove(q).contains_key(p)
                && snap.insert(p, t).remove(q)[p] == t,
{
}

} // verus!
