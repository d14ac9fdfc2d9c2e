//! The watcher: the poll loop's state and the per-cycle reconciliation of
//! the snapshot store against what a scan of the watched tree observed.
//!
//! Filesystem traversal, existence checks, sleeping and reporting are the
//! caller's concern: each cycle the caller hands in which known paths have
//! gone missing and which `(path, timestamp)` entries a fresh traversal
//! produced, and takes back the classified events.

use vstd::prelude::*;

use crate::event::{FileEvent, FileStatus};
use crate::model;
use crate::snapshot::SnapshotStore;

verus! {

/// The paths a vector of strings denotes.
pub open spec fn paths_view(ps: Seq<String>) -> Seq<Seq<char>> {
    ps.map_values(|p: String| p@)
}

/// The scan a vector of `(path, timestamp)` entries denotes.
pub open spec fn scan_view(es: Seq<(String, u64)>) -> Seq<model::ScanEntry> {
    es.map_values(|e: (String, u64)| (e.0@, e.1))
}

/// The model-level events a vector of events denotes.
pub open spec fn events_view(evs: Seq<FileEvent>) -> Seq<model::Event> {
    evs.map_values(|e: FileEvent| e@)
}

/// The watcher: the root being watched, the poll interval in whole
/// seconds, the liveness flag, and the snapshot of known paths.
pub struct FileWatcher {
    pub path: String,
    pub duration: u64,
    pub running: bool,
    pub paths: SnapshotStore,
}

impl FileWatcher {
    /// The watcher is well formed when its snapshot store is.
    pub open spec fn wf(&self) -> bool {
        self.paths.wf()
    }

    /// A fresh watcher over `path`, polling every `duration` seconds:
    /// running, with an empty snapshot.
    pub fn new(path: &String, duration: u64) -> (w: FileWatcher)
        ensures
            w.wf(),
            w.path@ == path@,
            w.duration == duration,
            w.running,
            w.paths@ == Map::<Seq<char>, u64>::empty(),
    {
        FileWatcher {
            path: path.clone(),
            duration,
            running: true,
            paths: SnapshotStore::new(),
        }
    }

    /// Establish the baseline: record every scanned entry, emitting no
    /// events.
    pub fn prime(&mut self, scan: &Vec<(String, u64)>)
        requires
            old(self).wf(),
        ensures
            final(self).wf(),
            final(self).paths@ == model::primed(old(self).paths@, scan_view(scan@)),
            final(self).path == old(self).path,
            final(self).duration == old(self).duration,
            final(self).running == old(self).running,
    {
        let ghost sv = scan_view(scan@);
        proof {
            assert(sv.len() == scan@.len());
            assert(sv.skip(0) =~= sv);
        }
        let n = scan.len();
        let mut i: usize = 0;
        while i < n
            invariant
                n == scan@.len(),
                sv == scan_view(scan@),
                sv.len() == n,
                i <= n,
                self.wf(),
                self.path == old(self).path,
                self.duration == old(self).duration,
                self.running == old(self).running,
                model::primed(self.paths@, sv.skip(i as int))
                    == model::primed(old(self).paths@, sv),
            decreases n - i,
        {
            proof {
                assert(sv.skip(i as int)[0] == sv[i as int]);
                assert(sv[i as int] == (scan@[i as int].0@, scan@[i as int].1));
                assert(sv.skip(i as int).skip(1) =~= sv.skip(i + 1));
            }
            let p = scan[i].0.clone();
            let t = scan[i].1;
            self.paths.insert_or_update(p, t);
            i += 1;
        }
        proof {
            assert(sv.skip(n as int) =~= Seq::<model::ScanEntry>::empty());
        }
    }

    /// The deletion pass: forget every path of `missing`, emitting exactly
    /// one `Erased` per path that was known, in the order given.
    pub fn deletion_pass(&mut self, missing: &Vec<String>) -> (events: Vec<FileEvent>)
        requires
            old(self).wf(),
        ensures
            final(self).wf(),
            final(self).paths@
                == model::after_deletions(old(self).paths@, paths_view(missing@)),
            events_view(events@)
                == model::deletion_events(old(self).paths@, paths_view(missing@)),
            final(self).path == old(self).path,
            final(self).duration == old(self).duration,
            final(self).running == old(self).running,
    {
        let ghost mv = paths_view(missing@);
        let mut events: Vec<FileEvent> = Vec::new();
        proof {
            assert(mv.len() == missing@.len());
            assert(mv.skip(0) =~= mv);
            assert(events_view(events@) =~= Seq::<model::Event>::empty());
            assert(Seq::<model::Event>::empty() + model::deletion_events(self.paths@, mv)
                =~= model::deletion_events(self.paths@, mv));
        }
        let n = missing.len();
        let mut i: usize = 0;
        while i < n
            invariant
                n == missing@.len(),
                mv == paths_view(missing@),
                mv.len() == n,
                i <= n,
                self.wf(),
                self.path == old(self).path,
                self.duration == old(self).duration,
                self.running == old(self).running,
                model::after_deletions(self.paths@, mv.skip(i as int))
                    == model::after_deletions(old(self).paths@, mv),
                events_view(events@)
                    + model::deletion_events(self.paths@, mv.skip(i as int))
                    == model::deletion_events(old(self).paths@, mv),
            decreases n - i,
        {
            proof {
                assert(mv.skip(i as int)[0] == mv[i as int]);
                assert(mv[i as int] == missing@[i as int]@);
                assert(mv.skip(i as int).skip(1) =~= mv.skip(i + 1));
            }
            let ghost pre = self.paths@;
            let ghost evs_pre = events@;
            let p = &missing[i];
            if self.paths.contains(p) {
                events.push(
                    FileEvent { status: FileStatus::Erased, path: p.clone() },
                );
                proof {
                    assert(events_view(events@)
                        =~= events_view(evs_pre)
                            + seq![(FileStatus::Erased, mv[i as int])]);
                }
            }
            self.paths.remove(p);
            proof {
                assert(events_view(events@)
                    + model::deletion_events(self.paths@, mv.skip(i + 1))
                    =~= model::deletion_events(old(self).paths@, mv));
            }
            i += 1;
        }
        proof {
            assert(mv.skip(n as int) =~= Seq::<Seq<char>>::empty());
            assert(events_view(events@)
                =~= model::deletion_events(old(self).paths@, mv));
        }
        events
    }

    /// The discovery pass: walk the scan in order, emitting exactly one
    /// `Created` for each unknown path and exactly one `Modified` for each
    /// known path whose timestamp changed; record the scanned timestamp in
    /// every case.
    pub fn discovery_pass(&mut self, scan: &Vec<(String, u64)>) -> (events: Vec<FileEvent>)
        requires
            old(self).wf(),
        ensures
            final(self).wf(),
            final(self).paths@ == model::primed(old(self).paths@, scan_view(scan@)),
            events_view(events@)
                == model::discovery_events(old(self).paths@, scan_view(scan@)),
            final(self).path == old(self).path,
            final(self).duration == old(self).duration,
            final(self).running == old(self).running,
    {
        let ghost sv = scan_view(scan@);
        let mut events: Vec<FileEvent> = Vec::new();
        proof {
            assert(sv.len() == scan@.len());
            assert(sv.skip(0) =~= sv);
            assert(events_view(events@) =~= Seq::<model::Event>::empty());
            assert(Seq::<model::Event>::empty() + model::discovery_events(self.paths@, sv)
                =~= model::discovery_events(self.paths@, sv));
        }
        let n = scan.len();
        let mut i: usize = 0;
        while i < n
            invariant
                n == scan@.len(),
                sv == scan_view(scan@),
                sv.len() == n,
                i <= n,
                self.wf(),
                self.path == old(self).path,
                self.duration == old(self).duration,
                self.running == old(self).running,
                model::primed(self.paths@, sv.skip(i as int))
                    == model::primed(old(self).paths@, sv),
                events_view(events@)
                    + model::discovery_events(self.paths@, sv.skip(i as int))
                    == model::discovery_events(old(self).paths@, sv),
            decreases n - i,
        {
            proof {
                assert(sv.skip(i as int)[0] == sv[i as int]);
                assert(sv[i as int] == (scan@[i as int].0@, scan@[i as int].1));
                assert(sv.skip(i as int).skip(1) =~= sv.skip(i + 1));
            }
            let ghost pre = self.paths@;
            let ghost evs_pre = events@;
            let p = &scan[i].0;
            let t = scan[i].1;
            match self.paths.get(p) {
                None => {
                    self.paths.insert_or_update(p.clone(), t);
                    events.push(
                        FileEvent { status: FileStatus::Created, path: p.clone() },
                    );
                    proof {
                        assert(events_view(events@)
                            =~= events_view(evs_pre)
                                + seq![(FileStatus::Created, sv[i as int].0)]);
                    }
                },
                Some(stored) => {
                    if stored != t {
                        self.paths.insert_or_update(p.clone(), t);
                        events.push(
                            FileEvent { status: FileStatus::Modified, path: p.clone() },
                        );
                        proof {
                            assert(events_view(events@)
                                =~= events_view(evs_pre)
                                    + seq![(FileStatus::Modified, sv[i as int].0)]);
                        }
                    } else {
                        proof {
                            assert(pre.insert(sv[i as int].0, t) =~= pre);
                        }
                    }
                },
            }
            proof {
                assert(events_view(events@)
                    + model::discovery_events(self.paths@, sv.skip(i + 1))
                    =~= model::discovery_events(old(self).paths@, sv));
            }
            i += 1;
        }
        proof {
            assert(sv.skip(n as int) =~= Seq::<model::ScanEntry>::empty());
            assert(events_view(events@)
                =~= model::discovery_events(old(self).paths@, sv));
        }
        events
    }

    /// One full cycle: the deletion pass completes first, then the
    /// discovery pass runs over its result; every deletion event precedes
    /// every discovery event.
    pub fn run_cycle(
        &mut self,
        missing: &Vec<String>,
        scan: &Vec<(String, u64)>,
    ) -> (events: Vec<FileEvent>)
        requires
            old(self).wf(),
        ensures
            final(self).wf(),
            final(self).paths@
                == model::cycle_snap(old(self).paths@, paths_view(missing@), scan_view(scan@)),
            events_view(events@)
                == model::cycle_events(old(self).paths@, paths_view(missing@), scan_view(scan@)),
            final(self).path == old(self).path,
            final(self).duration == old(self).duration,
            final(self).running == old(self).running,
    {
        let mut events = self.deletion_pass(missing);
        let mut more = self.discovery_pass(scan);
        let ghost evs1 = events@;
        let ghost evs2 = more@;
        events.append(&mut more);
        proof {
            assert(events_view(evs1 + evs2) =~= events_view(evs1) + events_view(evs2));
        }
        events
    }

    /// A stable copy of the currently known paths.
    pub fn known_paths(&self) -> (r: Vec<String>)
        requires
            self.wf(),
        ensures
            forall|p: Seq<char>|
                #[trigger] self.paths@.contains_key(p)
                    <==> exists|i: int| 0 <= i < r@.len() && #[trigger] r@[i]@ == p,
            forall|i: int, j: int| 0 <= i < j < r@.len() ==> r@[i]@ != r@[j]@,
    {
        self.paths.known_paths()
    }

    /// Whether the watcher is still live; checked once per cycle boundary.
    pub fn is_running(&self) -> (r: bool)
        ensures
            r == self.running,
    {
        self.running
    }

    /// Clear the liveness flag: the loop exits at the next cycle boundary,
    /// leaving the snapshot as it is.
    pub fn stop(&mut self)
        ensures
            !final(self).running,
            final(self).path == old(self).path,
            final(self).duration == old(self).duration,
            final(self).paths == old(self).paths,
    {
        self.running = false;
    }
}

} // verus!
