//! Pulling: which files on the device come to the local directory, and the
//! steps of the download itself.

use crate::commands::{progress_message, progress_message_text, progress_tag, progress_tag_text, Progress};
use crate::config::ConfigFile;
use crate::paths::{
    has_root, join, lemma_entry_differs_from_dir, parent, path_join, path_parent, path_parts,
    path_strip_prefix, paths_equal, same_path, strip_prefix,
};
use crate::queue::{Queue, ScanError};
use crate::text::{contains_dot_component, has_dot_component, opt_view, views};
use vstd::prelude::*;

verus! {

/// Whether a file on the device takes part in a pull by the hidden-entry
/// rule: a path through a hidden file or directory does only when the
/// configuration allows it.
pub open spec fn pull_shown(allow_hidden: bool, remote_file: Seq<char>) -> bool {
    allow_hidden || !has_dot_component(remote_file)
}

/// Whether a pull fetches a file: it takes part, and the local copy is
/// missing (time 0) or, unless changes are ignored, older than the device's.
pub open spec fn pull_selected(
    allow_hidden: bool,
    ignore_changes: bool,
    remote_file: Seq<char>,
    local_mod_time: nat,
    remote_mod_time: nat,
) -> bool {
    pull_shown(allow_hidden, remote_file) && (local_mod_time == 0 || (!ignore_changes
        && local_mod_time < remote_mod_time))
}

/// The directory list once `dir` is appended, unless the last entry is
/// already that directory.
pub open spec fn with_dir(dirs: Seq<Seq<char>>, dir: Seq<char>) -> Seq<Seq<char>> {
    if dirs.len() > 0 && paths_equal(dirs.last(), dir) {
        dirs
    } else {
        dirs.push(dir)
    }
}

/// The sum of a sequence of size changes.
pub open spec fn sum_of(deltas: Seq<int>) -> int
    decreases deltas.len(),
{
    if deltas.len() == 0 {
        0
    } else {
        sum_of(deltas.drop_last()) + deltas.last()
    }
}

/// `x / d` rounded toward zero, as Rust's integer division does.
pub open spec fn div_toward_zero(x: int, d: int) -> int {
    if x >= 0 {
        x / d
    } else {
        -((-x) / d)
    }
}

/// What a pull scan learned of one file on the device: its path, what is
/// left of it under the pulled directory, the parent of its local copy,
/// and the modification times of the local copy (0 where missing) and of
/// the device file.
pub struct PullFact {
    pub path: Seq<char>,
    pub rel: Option<Seq<char>>,
    pub parent: Option<Seq<char>>,
    pub local: nat,
    pub remote: nat,
}

/// Whether a pull scan queues the file a fact describes.
pub open spec fn pull_fact_selected(allow_hidden: bool, ignore_changes: bool, f: PullFact) -> bool {
    pull_selected(allow_hidden, ignore_changes, f.path, f.local, f.remote)
}

/// The facts of the files that a pull queues, in the order they were seen.
pub open spec fn pulled_facts(allow_hidden: bool, ignore_changes: bool, seen: Seq<PullFact>) -> Seq<
    PullFact,
>
    decreases seen.len(),
{
    if seen.len() == 0 {
        seq![]
    } else {
        let rest = pulled_facts(allow_hidden, ignore_changes, seen.drop_last());
        if pull_fact_selected(allow_hidden, ignore_changes, seen.last()) {
            rest.push(seen.last())
        } else {
            rest
        }
    }
}

/// The paths of a sequence of facts.
pub open spec fn pulled_paths(facts: Seq<PullFact>) -> Seq<Seq<char>> {
    facts.map_values(|f: PullFact| f.path)
}

/// How many facts describe a file missing locally.
pub open spec fn missing_count(facts: Seq<PullFact>) -> nat
    decreases facts.len(),
{
    if facts.len() == 0 {
        0
    } else {
        missing_count(facts.drop_last()) + if facts.last().local == 0 {
            1nat
        } else {
            0nat
        }
    }
}

/// Whether `dirs` holds `dir`, or a directory equal to it as a path.
pub open spec fn dir_listed(dirs: Seq<Seq<char>>, dir: Seq<char>) -> bool {
    exists|j: int| 0 <= j < dirs.len() && (#[trigger] dirs[j] == dir || paths_equal(dirs[j], dir))
}

/// Whether a fact holds what the path operations give for its path: the
/// part under `source`, and the parent of the local copy under `root`.
pub open spec fn pull_fact_true(root: Seq<char>, source: Seq<char>, f: PullFact) -> bool {
    &&& f.rel == path_strip_prefix(f.path, source)
    &&& f.rel matches Some(rel) ==> f.parent == path_parent(path_join(root, rel))
}

/// What a pull does with a file after looking at both copies.
#[derive(Clone, Copy, Debug, PartialEq, Eq, Structural)]
pub enum PullStep {
    /// The file stays out of the pull.
    Skipped,
    /// The file joins the pull: read its size on the device and call
    /// `record_size`.
    NeedSize,
}

/// A pull scan in progress: the local directories to create, what was
/// learned of each device file taken in, the files queued with the size
/// change each brings, and a file waiting for its size.
pub struct PullScan {
    allow_hidden: bool,
    ignore_changes: bool,
    local_root: String,
    remote_dir: String,
    dir_queue: Vec<String>,
    file_queue: Vec<String>,
    seen: Ghost<Seq<PullFact>>,
    deltas: Ghost<Seq<int>>,
    add: u64,
    change: u64,
    total: i64,
    pending: Option<(String, bool, i64)>,
    pending_fact: Ghost<PullFact>,
}

impl PullScan {
    /// Whether hidden entries take part.
    pub closed spec fn hidden_allowed(&self) -> bool {
        self.allow_hidden
    }

    /// Whether files that exist locally are left alone.
    pub closed spec fn changes_ignored(&self) -> bool {
        self.ignore_changes
    }

    /// The local directory that receives the pull.
    pub closed spec fn root(&self) -> Seq<char> {
        self.local_root@
    }

    /// The directory on the device that is pulled.
    pub closed spec fn source_dir(&self) -> Seq<char> {
        self.remote_dir@
    }

    /// The local directories to create.
    pub closed spec fn dirs(&self) -> Seq<Seq<char>> {
        views(self.dir_queue@)
    }

    /// What was learned of each device file taken in so far, in order.
    pub closed spec fn seen(&self) -> Seq<PullFact> {
        self.seen@
    }

    /// The device files queued so far, in the order they were seen.
    pub closed spec fn queued(&self) -> Seq<Seq<char>> {
        views(self.file_queue@)
    }

    /// The change in local size, in bytes, that each queued file brings.
    pub closed spec fn queued_deltas(&self) -> Seq<int> {
        self.deltas@
    }

    /// How many queued files are missing locally.
    pub closed spec fn added(&self) -> nat {
        self.add as nat
    }

    /// How many queued files exist locally in an older state.
    pub closed spec fn changed(&self) -> nat {
        self.change as nat
    }

    /// The change in local size, in bytes, queued so far.
    pub closed spec fn bytes(&self) -> int {
        self.total as int
    }

    /// The file waiting for its size: its path on the device, whether it is
    /// missing locally, and its local size.
    pub closed spec fn pending(&self) -> Option<(Seq<char>, bool, int)> {
        match self.pending {
            Some(p) => Some((p.0@, p.1, p.2 as int)),
            None => None,
        }
    }

    /// What was learned of the file waiting for its size.
    pub closed spec fn pending_fact(&self) -> PullFact {
        self.pending_fact@
    }

    /// The facts of the queued files.
    pub open spec fn queued_facts(&self) -> Seq<PullFact> {
        pulled_facts(self.hidden_allowed(), self.changes_ignored(), self.seen())
    }

    /// What every pull scan keeps: the queue is, in order, the files seen
    /// that the pull selects, and the new ones are those missing locally;
    /// none is changed where changes are ignored; every file seen lies under
    /// the pulled directory; the parent of every queued or pending file is
    /// among the directories to create, of which none follows an equal one;
    /// and the size is the sum of the queued changes.
    pub open spec fn wf(&self) -> bool {
        &&& self.queued() == pulled_paths(self.queued_facts())
        &&& self.added() == missing_count(self.queued_facts())
        &&& self.added() + self.changed() == self.queued().len()
        &&& self.queued_deltas().len() == self.queued().len()
        &&& self.bytes() == sum_of(self.queued_deltas())
        &&& self.changes_ignored() ==> self.changed() == 0
        &&& forall|i: int| 0 <= i < self.seen().len() ==> (#[trigger] self.seen()[i]).rel is Some
        &&& forall|i: int|
            0 <= i < self.queued_facts().len() ==> ((#[trigger] self.queued_facts()[i]).parent
                matches Some(d) && dir_listed(self.dirs(), d))
        &&& self.pending() matches Some(p) ==> {
            let f = self.pending_fact();
            &&& f.path == p.0
            &&& pull_fact_selected(self.hidden_allowed(), self.changes_ignored(), f)
            &&& p.1 == (f.local == 0)
            &&& f.rel is Some
            &&& (f.parent matches Some(d) && dir_listed(self.dirs(), d))
        }
        &&& forall|i: int|
            0 <= i < self.dirs().len() - 1 ==> !paths_equal(
                #[trigger] self.dirs()[i],
                self.dirs()[i + 1],
            )
    }

    /// Whether every fact taken in, the pending one too, holds what the
    /// path operations give.
    pub open spec fn facts_true(&self) -> bool {
        &&& forall|i: int|
            0 <= i < self.seen().len() ==> pull_fact_true(
                self.root(),
                self.source_dir(),
                #[trigger] self.seen()[i],
            )
        &&& self.pending() is Some ==> pull_fact_true(
            self.root(),
            self.source_dir(),
            self.pending_fact(),
        )
    }

    /// The settings of `b` are those of `a`.
    pub open spec fn same_setup(a: &PullScan, b: &PullScan) -> bool {
        &&& b.hidden_allowed() == a.hidden_allowed()
        &&& b.changes_ignored() == a.changes_ignored()
        &&& b.root() == a.root()
        &&& b.source_dir() == a.source_dir()
    }

    /// Starts a pull of the configured directory on the device into
    /// `local_root` (the local directory as text).
    pub fn new(config: &ConfigFile, local_root: &str, ignore_changes: bool) -> (s: PullScan)
        ensures
            s.wf(),
            s.facts_true(),
            s.hidden_allowed() == config.allow_hidden,
            s.changes_ignored() == ignore_changes,
            s.root() == local_root@,
            s.source_dir() == config.remote_dir@,
            s.dirs().len() == 0,
            s.seen().len() == 0,
            s.queued().len() == 0,
            s.added() == 0,
            s.changed() == 0,
            s.bytes() == 0,
            s.pending() is None,
    {
        let s = PullScan {
            allow_hidden: config.allow_hidden,
            ignore_changes,
            local_root: local_root.to_owned(),
            remote_dir: config.remote_dir.clone(),
            dir_queue: Vec::new(),
            file_queue: Vec::new(),
            seen: Ghost(Seq::empty()),
            deltas: Ghost(Seq::empty()),
            add: 0,
            change: 0,
            total: 0,
            pending: None,
            pending_fact: Ghost(PullFact { path: seq![], rel: None, parent: None, local: 0, remote: 0 }),
        };
        assert(s.queued() == pulled_paths(s.queued_facts()));
        s
    }

    /// The local path that mirrors the device file `remote_file`.
    pub fn local_path(&self, remote_file: &str) -> (r: Result<String, ScanError>)
        ensures
            match path_strip_prefix(remote_file@, self.source_dir()) {
                None => r matches Err(ScanError::OutsideRoot(p)) && p@ == remote_file@,
                Some(rel) => r matches Ok(lp) && lp@ == path_join(self.root(), rel),
            },
    {
        match strip_prefix(remote_file, self.remote_dir.as_str()) {
            None => Err(ScanError::OutsideRoot(remote_file.to_owned())),
            Some(rel) => Ok(join(self.local_root.as_str(), rel.as_str())),
        }
    }

    /// Takes in what was learned of `remote_file`: the part of its path
    /// under the pulled directory (`None` where it does not lie there), the
    /// parent of its local copy, the local modification time (0 where the
    /// copy is missing), the local size, and the modification time on the
    /// device.
    pub fn observe_named(
        &mut self,
        remote_file: &str,
        rel: Option<String>,
        local_parent: Option<String>,
        local_mod_time: u64,
        local_len: i64,
        remote_mod_time: u64,
    ) -> (r: Result<PullStep, ScanError>)
        requires
            old(self).wf(),
            old(self).pending() is None,
        ensures
            final(self).wf(),
            PullScan::same_setup(old(self), final(self)),
            final(self).queued() == old(self).queued(),
            final(self).queued_deltas() == old(self).queued_deltas(),
            final(self).added() == old(self).added(),
            final(self).changed() == old(self).changed(),
            final(self).bytes() == old(self).bytes(),
            ({
                let fact = PullFact {
                    path: remote_file@,
                    rel: opt_view(rel),
                    parent: opt_view(local_parent),
                    local: local_mod_time as nat,
                    remote: remote_mod_time as nat,
                };
                if rel is None {
                    r matches Err(ScanError::OutsideRoot(p)) && p@ == remote_file@ && *final(self)
                        == *old(self)
                } else if !pull_fact_selected(
                    old(self).hidden_allowed(),
                    old(self).changes_ignored(),
                    fact,
                ) {
                    &&& r == Ok::<PullStep, ScanError>(PullStep::Skipped)
                    &&& final(self).seen() == old(self).seen().push(fact)
                    &&& final(self).dirs() == old(self).dirs()
                    &&& final(self).pending() is None
                } else if local_parent is None {
                    r matches Err(ScanError::NoParent(p)) && p@ == path_join(
                        old(self).root(),
                        fact.rel->0,
                    ) && *final(self) == *old(self)
                } else {
                    &&& r == Ok::<PullStep, ScanError>(PullStep::NeedSize)
                    &&& final(self).seen() == old(self).seen()
                    &&& final(self).dirs() == with_dir(old(self).dirs(), fact.parent->0)
                    &&& final(self).pending() == Some(
                        (remote_file@, local_mod_time == 0, local_len as int),
                    )
                    &&& final(self).pending_fact() == fact
                }
            }),
    {
        let ghost fact = PullFact {
            path: remote_file@,
            rel: opt_view(rel),
            parent: opt_view(local_parent),
            local: local_mod_time as nat,
            remote: remote_mod_time as nat,
        };
        let rel = match rel {
            None => {
                return Err(ScanError::OutsideRoot(remote_file.to_owned()));
            },
            Some(x) => x,
        };
        let hidden = contains_dot_component(remote_file);
        let selected = (self.allow_hidden || !hidden) && (local_mod_time == 0 || (
        !self.ignore_changes && local_mod_time < remote_mod_time));
        assert(selected == pull_fact_selected(self.allow_hidden, self.ignore_changes, fact));
        if !selected {
            let ghost seen = self.seen@.push(fact);
            assert(seen.drop_last() =~= self.seen@);
            self.seen = Ghost(seen);
            assert(self.queued_facts() == old(self).queued_facts());
            assert(forall|i: int|
                0 <= i < self.seen().len() ==> (#[trigger] self.seen()[i]).rel is Some);
            return Ok(PullStep::Skipped);
        }
        let dir = match local_parent {
            None => {
                return Err(ScanError::NoParent(join(self.local_root.as_str(), rel.as_str())));
            },
            Some(d) => d,
        };
        let n = self.dir_queue.len();
        let repeated = n > 0 && same_path(self.dir_queue[n - 1].as_str(), dir.as_str());
        let ghost before = self.dirs();
        let ghost q = self.queued_facts();
        if !repeated {
            self.dir_queue.push(dir);
            proof {
                assert forall|i: int|
                    0 <= i < self.dirs().len() - 1 implies !paths_equal(
                        #[trigger] self.dirs()[i],
                        self.dirs()[i + 1],
                    ) by {
                    if i + 1 < before.len() {
                        assert(self.dirs()[i] == before[i]);
                        assert(self.dirs()[i + 1] == before[i + 1]);
                    } else {
                        assert(self.dirs()[i] == before.last());
                    }
                }
                assert(self.dirs()[before.len() as int] == fact.parent->0);
            }
        } else {
            assert(before[before.len() - 1] == before.last());
        }
        proof {
            assert(self.dirs() == with_dir(before, fact.parent->0));
            assert forall|i: int| 0 <= i < q.len() implies ((#[trigger] q[i]).parent matches Some(
                d,
            ) && dir_listed(self.dirs(), d)) by {
                let d = q[i].parent->0;
                let j = choose|j: int|
                    0 <= j < before.len() && (#[trigger] before[j] == d || paths_equal(
                        before[j],
                        d,
                    ));
                assert(self.dirs()[j] == before[j]);
            }
            assert(dir_listed(self.dirs(), fact.parent->0));
        }
        self.pending = Some((remote_file.to_owned(), local_mod_time == 0, local_len));
        self.pending_fact = Ghost(fact);
        assert(self.queued() == old(self).queued());
        Ok(PullStep::NeedSize)
    }

    /// Takes in the look at `remote_file` and its local copy: the local
    /// modification time (0 where the copy is missing), the local size, and
    /// the modification time on the device.
    pub fn observe(
        &mut self,
        remote_file: &str,
        local_mod_time: u64,
        local_len: i64,
        remote_mod_time: u64,
    ) -> (r: Result<PullStep, ScanError>)
        requires
            old(self).wf(),
            old(self).pending() is None,
        ensures
            final(self).wf(),
            PullScan::same_setup(old(self), final(self)),
            old(self).facts_true() ==> final(self).facts_true(),
            final(self).queued() == old(self).queued(),
            final(self).queued_deltas() == old(self).queued_deltas(),
            final(self).added() == old(self).added(),
            final(self).changed() == old(self).changed(),
            final(self).bytes() == old(self).bytes(),
            match path_strip_prefix(remote_file@, old(self).source_dir()) {
                None => r matches Err(ScanError::OutsideRoot(p)) && p@ == remote_file@
                    && *final(self) == *old(self),
                Some(rel) => {
                    let local = path_join(old(self).root(), rel);
                    let fact = PullFact {
                        path: remote_file@,
                        rel: Some(rel),
                        parent: path_parent(local),
                        local: local_mod_time as nat,
                        remote: remote_mod_time as nat,
                    };
                    if !pull_fact_selected(
                        old(self).hidden_allowed(),
                        old(self).changes_ignored(),
                        fact,
                    ) {
                        &&& r == Ok::<PullStep, ScanError>(PullStep::Skipped)
                        &&& final(self).seen() == old(self).seen().push(fact)
                        &&& final(self).dirs() == old(self).dirs()
                        &&& final(self).pending() is None
                    } else {
                        match path_parent(local) {
                            None => r matches Err(ScanError::NoParent(p)) && p@ == local
                                && *final(self) == *old(self),
                            Some(dir) => {
                                &&& r == Ok::<PullStep, ScanError>(PullStep::NeedSize)
                                &&& final(self).seen() == old(self).seen()
                                &&& final(self).dirs() == with_dir(old(self).dirs(), dir)
                                &&& final(self).pending() == Some(
                                    (remote_file@, local_mod_time == 0, local_len as int),
                                )
                                &&& final(self).pending_fact() == fact
                            },
                        }
                    }
                },
            },
    {
        let rel = strip_prefix(remote_file, self.remote_dir.as_str());
        let local_parent = match &rel {
            None => None,
            Some(x) => parent(join(self.local_root.as_str(), x.as_str()).as_str()),
        };
        let r = self.observe_named(
            remote_file,
            rel,
            local_parent,
            local_mod_time,
            local_len,
            remote_mod_time,
        );
        proof {
            if old(self).facts_true() {
                assert forall|i: int| 0 <= i < self.seen().len() implies pull_fact_true(
                    self.root(),
                    self.source_dir(),
                    #[trigger] self.seen()[i],
                ) by {
                    if i < old(self).seen().len() {
                        assert(self.seen()[i] == old(self).seen()[i]);
                    }
                }
            }
        }
        r
    }

    /// Takes in the size on the device of the pending file: it joins the
    /// pull, as new or changed, and brings its size, less the local size for
    /// a changed file.
    pub fn record_size(&mut self, remote_size: u32) -> (r: Result<(), ScanError>)
        requires
            old(self).wf(),
            old(self).pending() is Some,
        ensures
            final(self).wf(),
            PullScan::same_setup(old(self), final(self)),
            old(self).facts_true() ==> final(self).facts_true(),
            final(self).dirs() == old(self).dirs(),
            final(self).pending() is None,
            ({
                let (file, is_new, local_len) = old(self).pending()->0;
                let delta = if is_new {
                    remote_size as int
                } else {
                    remote_size - local_len
                };
                if delta > i64::MAX || old(self).bytes() + delta < i64::MIN || old(self).bytes()
                    + delta > i64::MAX {
                    &&& r == Err::<(), ScanError>(ScanError::Overflow)
                    &&& final(self).seen() == old(self).seen()
                    &&& final(self).queued() == old(self).queued()
                    &&& final(self).queued_deltas() == old(self).queued_deltas()
                    &&& final(self).added() == old(self).added()
                    &&& final(self).changed() == old(self).changed()
                    &&& final(self).bytes() == old(self).bytes()
                } else {
                    &&& r == Ok::<(), ScanError>(())
                    &&& final(self).seen() == old(self).seen().push(old(self).pending_fact())
                    &&& final(self).queued() == old(self).queued().push(file)
                    &&& final(self).queued_deltas() == old(self).queued_deltas().push(delta)
                    &&& final(self).added() == old(self).added() + if is_new {
                        1int
                    } else {
                        0int
                    }
                    &&& final(self).changed() == old(self).changed() + if is_new {
                        0int
                    } else {
                        1int
                    }
                    &&& final(self).bytes() == old(self).bytes() + delta
                }
            }),
    {
        let (file, is_new, local_len) = self.pending.take().unwrap();
        let size = remote_size as i128;
        let delta: i128 = if is_new {
            size
        } else {
            size - local_len as i128
        };
        let sum = self.total as i128 + delta;
        if delta > i64::MAX as i128 || sum < i64::MIN as i128 || sum > i64::MAX as i128 {
            assert(self.dirs() == old(self).dirs());
            assert(self.queued() == old(self).queued());
            return Err(ScanError::Overflow);
        }
        let ghost fact = self.pending_fact@;
        self.file_queue.push(file);
        assert(self.file_queue@.len() == self.file_queue.len());
        if is_new {
            self.add = self.add + 1;
        } else {
            self.change = self.change + 1;
        }
        self.total = sum as i64;
        let ghost grown = self.deltas@.push(delta as int);
        assert(grown.drop_last() =~= self.deltas@);
        assert(sum_of(grown) == sum_of(self.deltas@) + delta);
        self.deltas = Ghost(grown);
        let ghost seen = self.seen@.push(fact);
        assert(seen.drop_last() =~= self.seen@);
        self.seen = Ghost(seen);
        proof {
            let q = self.queued_facts();
            let oq = old(self).queued_facts();
            assert(q == oq.push(fact));
            assert(q.drop_last() =~= oq);
            assert(pulled_paths(q) =~= pulled_paths(oq).push(fact.path));
            assert(self.queued() =~= old(self).queued().push(fact.path));
            assert(missing_count(q) == missing_count(oq) + if fact.local == 0 {
                1nat
            } else {
                0nat
            });
            assert forall|i: int| 0 <= i < q.len() implies ((#[trigger] q[i]).parent matches Some(
                d,
            ) && dir_listed(self.dirs(), d)) by {
                if i < oq.len() {
                    assert(q[i] == oq[i]);
                }
            }
            assert forall|i: int| 0 <= i < self.seen().len() implies (
            #[trigger] self.seen()[i]).rel is Some by {
                if i < old(self).seen().len() {
                    assert(self.seen()[i] == old(self).seen()[i]);
                }
            }
            if old(self).facts_true() {
                assert forall|i: int| 0 <= i < self.seen().len() implies pull_fact_true(
                    self.root(),
                    self.source_dir(),
                    #[trigger] self.seen()[i],
                ) by {
                    if i < old(self).seen().len() {
                        assert(self.seen()[i] == old(self).seen()[i]);
                    }
                }
            }
        }
        assert(self.dirs() == old(self).dirs());
        Ok(())
    }

    /// The outcome of the scan. The size is reported in whole KiB, rounded
    /// toward zero; nothing is marked for deletion.
    pub fn finish(self) -> (q: Queue)
        requires
            self.wf(),
        ensures
            views(q.dir_queue@) == self.dirs(),
            views(q.file_queue@) == self.queued(),
            q.add == self.added(),
            q.change == self.changed(),
            q.del == 0,
            q.total_size == div_toward_zero(self.bytes(), 1024),
            self.bytes() >= 0 ==> 0 <= self.bytes() - 1024 * q.total_size < 1024,
            self.bytes() < 0 ==> -1024 < self.bytes() - 1024 * q.total_size <= 0,
    {
        proof {
            lemma_div_toward_zero(self.bytes(), 1024);
        }
        let total = self.total as i128;
        let kib: i128 = if total >= 0 {
            total / 1024
        } else {
            0 - ((0 - total) / 1024)
        };
        Queue {
            dir_queue: self.dir_queue,
            file_queue: self.file_queue,
            add: self.add,
            change: self.change,
            del: 0,
            total_size: kib as i64,
        }
    }
}

/// A pull appends a file's local parent to the directories to create unless
/// it equals, as a path, the last one; so an entry of the last directory,
/// a name without slashes that is not a lone dot, is always appended.
pub proof fn lemma_entry_dir_appended(dirs: Seq<Seq<char>>, name: Seq<char>)
    requires
        dirs.len() > 0,
        name.len() > 0,
        name != seq!['.'],
        forall|i: int| 0 <= i < name.len() ==> name[i] != '/',
    ensures
        with_dir(dirs, path_join(dirs.last(), name)) == dirs.push(path_join(dirs.last(), name)),
        with_dir(dirs, path_join(dirs.last(), name)).len() == dirs.len() + 1,
{
    lemma_entry_differs_from_dir(dirs.last(), name);
}

/// Equality of paths is reflexive and symmetric, and a path that differs
/// in its parts from another is not equal to it.
pub proof fn lemma_paths_equal_laws(a: Seq<char>, b: Seq<char>)
    ensures
        paths_equal(a, a),
        paths_equal(a, b) == paths_equal(b, a),
        path_parts(a) != path_parts(b) ==> !paths_equal(a, b),
        has_root(a) != has_root(b) ==> !paths_equal(a, b),
{
}

/// Division rounded toward zero by a positive `d`: the quotient has the
/// sign of `x` (or is 0) and falls short of `x / d` by less than one, so
/// the remainder `x - d * q` has the sign of `x` and is smaller than `d`.
pub proof fn lemma_div_toward_zero(x: int, d: int)
    requires
        d > 0,
    ensures
        x >= 0 ==> 0 <= x - d * div_toward_zero(x, d) < d,
        x < 0 ==> -d < x - d * div_toward_zero(x, d) <= 0,
        x >= 0 ==> div_toward_zero(x, d) >= 0,
        x <= 0 ==> div_toward_zero(x, d) <= 0,
{
    if x >= 0 {
        vstd::arithmetic::div_mod::lemma_fundamental_div_mod(x, d);
        vstd::arithmetic::div_mod::lemma_mod_bound(x, d);
        vstd::arithmetic::div_mod::lemma_div_pos_is_pos(x, d);
    } else {
        vstd::arithmetic::div_mod::lemma_fundamental_div_mod(-x, d);
        vstd::arithmetic::div_mod::lemma_mod_bound(-x, d);
        vstd::arithmetic::div_mod::lemma_div_pos_is_pos(-x, d);
        assert(d * (-((-x) / d)) == -(d * ((-x) / d))) by (nonlinear_arith);
    }
}

/// Every queued fact was seen and is selected; where every fact seen holds
/// what the path operations give, so does every queued one.
pub proof fn lemma_pulled_facts_from_seen(
    allow_hidden: bool,
    ignore_changes: bool,
    seen: Seq<PullFact>,
    root: Seq<char>,
    source: Seq<char>,
)
    ensures
        forall|i: int|
            0 <= i < pulled_facts(allow_hidden, ignore_changes, seen).len() ==> {
                let f = #[trigger] pulled_facts(allow_hidden, ignore_changes, seen)[i];
                &&& pull_fact_selected(allow_hidden, ignore_changes, f)
                &&& ((forall|j: int|
                    0 <= j < seen.len() ==> pull_fact_true(root, source, #[trigger] seen[j]))
                    ==> pull_fact_true(root, source, f))
                &&& ((forall|j: int| 0 <= j < seen.len() ==> (#[trigger] seen[j]).rel is Some)
                    ==> f.rel is Some)
            },
    decreases seen.len(),
{
    if seen.len() > 0 {
        lemma_pulled_facts_from_seen(allow_hidden, ignore_changes, seen.drop_last(), root, source);
        let rest = pulled_facts(allow_hidden, ignore_changes, seen.drop_last());
        let all = pulled_facts(allow_hidden, ignore_changes, seen);
        assert forall|i: int| 0 <= i < all.len() implies {
            let f = #[trigger] all[i];
            &&& pull_fact_selected(allow_hidden, ignore_changes, f)
            &&& ((forall|j: int|
                0 <= j < seen.len() ==> pull_fact_true(root, source, #[trigger] seen[j]))
                ==> pull_fact_true(root, source, f))
            &&& ((forall|j: int| 0 <= j < seen.len() ==> (#[trigger] seen[j]).rel is Some)
                ==> f.rel is Some)
        } by {
            if i < rest.len() {
                assert(all[i] == rest[i]);
                if forall|j: int|
                    0 <= j < seen.len() ==> pull_fact_true(root, source, #[trigger] seen[j]) {
                    assert forall|j: int| 0 <= j < seen.drop_last().len() implies pull_fact_true(
                        root,
                        source,
                        #[trigger] seen.drop_last()[j],
                    ) by {
                        assert(seen.drop_last()[j] == seen[j]);
                    }
                }
                if forall|j: int| 0 <= j < seen.len() ==> (#[trigger] seen[j]).rel is Some {
                    assert forall|j: int| 0 <= j < seen.drop_last().len() implies (
                    #[trigger] seen.drop_last()[j]).rel is Some by {
                        assert(seen.drop_last()[j] == seen[j]);
                    }
                }
            } else {
                assert(all[i] == seen.last());
                assert(seen.last() == seen[seen.len() - 1]);
            }
        }
    }
}

/// What a pull scan keeps of the files it took in by looking their paths
/// up: every queued file lies under the pulled directory, takes part by the
/// hidden-entry rule, and the parent of its local copy is among the
/// directories to create.
pub proof fn lemma_pull_queue_laws(scan: PullScan, i: int)
    requires
        scan.wf(),
        scan.facts_true(),
        0 <= i < scan.queued().len(),
    ensures
        (path_strip_prefix(scan.queued()[i], scan.source_dir()) matches Some(rel) && (path_parent(
            path_join(scan.root(), rel),
        ) matches Some(d) && dir_listed(scan.dirs(), d))),
        pull_shown(scan.hidden_allowed(), scan.queued()[i]),
{
    lemma_pulled_facts_from_seen(
        scan.hidden_allowed(),
        scan.changes_ignored(),
        scan.seen(),
        scan.root(),
        scan.source_dir(),
    );
    let f = scan.queued_facts()[i];
    assert(scan.queued()[i] == f.path);
    assert(f.rel is Some);
    assert(pull_fact_true(scan.root(), scan.source_dir(), f));
    assert(f.parent matches Some(d) && dir_listed(scan.dirs(), d));
}

/// A pull round trip: every file that a pull scan queued is downloaded by a
/// writer, as long as the times are still those the scan saw, the local
/// time fits in 32 bits and the device time is not 0. The writer announces
/// it as new exactly when the scan found it missing.
pub proof fn lemma_pull_round_trip(scan: PullScan, i: int)
    requires
        scan.wf(),
        0 <= i < scan.queued().len(),
        scan.queued_facts()[i].local <= u32::MAX,
        1 <= scan.queued_facts()[i].remote <= u32::MAX,
    ensures
        low_time(scan.queued_facts()[i].local) < scan.queued_facts()[i].remote,
        (low_time(scan.queued_facts()[i].local) == 0) == (scan.queued_facts()[i].local == 0),
{
    lemma_pulled_facts_from_seen(
        scan.hidden_allowed(),
        scan.changes_ignored(),
        scan.seen(),
        scan.root(),
        scan.source_dir(),
    );
}

/// Where a download goes: the local path, and the path relative to the
/// pulled directory that the progress line shows.
pub struct DownloadTarget {
    pub local_path: String,
    pub relative: String,
}

/// The local modification time as the download compares it: seconds cut
/// to their low 32 bits, as a cast to `u32` does.
pub open spec fn low_time(t: nat) -> nat {
    t % 0x1_0000_0000
}

/// Cutting a time to 32 bits leaves a time that fits unchanged, gives a
/// value below 2^32, and ignores whole multiples of 2^32.
pub proof fn lemma_low_time(t: nat)
    ensures
        t <= u32::MAX ==> low_time(t) == t,
        low_time(t) <= u32::MAX,
        low_time(t + 0x1_0000_0000) == low_time(t),
{
    vstd::arithmetic::div_mod::lemma_mod_add_multiples_vanish(t as int, 0x1_0000_0000);
}

/// The download of a pull queue in progress: where files go, and the
/// number of the next download out of the total announced.
pub struct PullWriter {
    local_root: String,
    remote_dir: String,
    total: u64,
    next_index: u64,
}

impl PullWriter {
    /// The local directory that receives the pull.
    pub closed spec fn root(&self) -> Seq<char> {
        self.local_root@
    }

    /// The directory on the device that is pulled.
    pub closed spec fn source_dir(&self) -> Seq<char> {
        self.remote_dir@
    }

    /// The number of downloads announced in the progress lines.
    pub closed spec fn total(&self) -> nat {
        self.total as nat
    }

    /// The number that the next download is shown with.
    pub closed spec fn next_index(&self) -> nat {
        self.next_index as nat
    }

    /// Starts the download of `queue` into `local_root`; the total shown is
    /// the number of new and changed files.
    pub fn new(config: &ConfigFile, local_root: &str, queue: &Queue) -> (w: PullWriter)
        requires
            queue.add + queue.change <= u64::MAX,
        ensures
            w.root() == local_root@,
            w.source_dir() == config.remote_dir@,
            w.total() == queue.add + queue.change,
            w.next_index() == 1,
    {
        PullWriter {
            local_root: local_root.to_owned(),
            remote_dir: config.remote_dir.clone(),
            total: queue.add + queue.change,
            next_index: 1,
        }
    }

    /// Where the device file `remote_file` is downloaded to.
    pub fn target(&self, remote_file: &str) -> (r: Result<DownloadTarget, ScanError>)
        ensures
            match path_strip_prefix(remote_file@, self.source_dir()) {
                None => r matches Err(ScanError::OutsideRoot(p)) && p@ == remote_file@,
                Some(rel) => r matches Ok(t) && t.relative@ == rel && t.local_path@ == path_join(
                    self.root(),
                    rel,
                ),
            },
    {
        match strip_prefix(remote_file, self.remote_dir.as_str()) {
            None => Err(ScanError::OutsideRoot(remote_file.to_owned())),
            Some(rel) => {
                let local = join(self.local_root.as_str(), rel.as_str());
                Ok(DownloadTarget { local_path: local, relative: rel })
            },
        }
    }

    /// Announces the download of the file shown as `relative`, given the
    /// local modification time (0 where the copy is missing) and the one on
    /// the device: the progress line to show where the local copy is older,
    /// `None` where it is not.
    pub fn announce(&mut self, relative: &str, local_mod_time: u64, remote_mod_time: u32) -> (r:
        Result<Option<Progress>, ScanError>)
        ensures
            final(self).root() == old(self).root(),
            final(self).source_dir() == old(self).source_dir(),
            final(self).total() == old(self).total(),
            if !(low_time(local_mod_time as nat) < remote_mod_time) {
                r matches Ok(None) && final(self).next_index() == old(self).next_index()
            } else if old(self).next_index() == u64::MAX {
                r matches Err(ScanError::Overflow) && final(self).next_index()
                    == old(self).next_index()
            } else {
                &&& r matches Ok(Some(p))
                &&& p.tag@ == progress_tag_text(old(self).next_index(), old(self).total())
                &&& p.message@ == progress_message_text(
                    low_time(local_mod_time as nat) == 0,
                    relative@,
                )
                &&& final(self).next_index() == old(self).next_index() + 1
            },
    {
        let local = (local_mod_time % 0x1_0000_0000) as u32;
        if !(local < remote_mod_time) {
            return Ok(None);
        }
        if self.next_index == u64::MAX {
            return Err(ScanError::Overflow);
        }
        let tag = progress_tag(self.next_index, self.total);
        let message = progress_message(local == 0, relative);
        self.next_index = self.next_index + 1;
        Ok(Some(Progress { tag, message }))
    }
}

} // verus!
