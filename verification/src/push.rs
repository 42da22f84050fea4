//! Pushing: which local directories and files go to the device, and the
//! steps of the upload itself.

use crate::commands::{
    mkdir_command, mkdir_text, progress_message, progress_message_text, progress_tag,
    progress_tag_text, Progress,
};
use crate::config::ConfigFile;
use crate::paths::{file_name, join, path_file_name, path_join, path_strip_prefix, strip_prefix};
use crate::queue::{Queue, ScanError};
use crate::text::{chars_of, lines_of, opt_view, split_lines, views};
use vstd::prelude::*;

verus! {

/// Whether a file name marks a hidden entry: it begins with a dot.
pub open spec fn name_hidden(name: Seq<char>) -> bool {
    name.len() > 0 && name[0] == '.'
}

/// Whether an entry with file name `name` takes part in a push: hidden
/// entries do only when the configuration allows them, and an entry needs
/// a name to be judged.
pub open spec fn shown_named(allow_hidden: bool, name: Option<Seq<char>>) -> bool {
    allow_hidden || (name matches Some(n) && !name_hidden(n))
}

/// Whether the local entry at `path` takes part in a push.
pub open spec fn shown(allow_hidden: bool, path: Seq<char>) -> bool {
    shown_named(allow_hidden, path_file_name(path))
}

/// Whether judging an entry with file name `name` fails: hidden entries are
/// filtered and the entry has no name.
pub open spec fn nameless(allow_hidden: bool, name: Option<Seq<char>>) -> bool {
    !allow_hidden && name is None
}

/// Whether judging the directory at `path` fails.
pub open spec fn dir_nameless(allow_hidden: bool, path: Seq<char>) -> bool {
    nameless(allow_hidden, path_file_name(path))
}

/// The texts of optional strings.
pub open spec fn opt_views(v: Seq<Option<String>>) -> Seq<Option<Seq<char>>> {
    v.map_values(
        |o: Option<String>|
            match o {
                Some(s) => Some(s@),
                None => None,
            },
    )
}

/// The file name of each path.
pub open spec fn names_of(paths: Seq<Seq<char>>) -> Seq<Option<Seq<char>>> {
    paths.map_values(|p: Seq<char>| path_file_name(p))
}

/// The directories of a listing that a push creates on the device, in the
/// order of the listing, judged by the file names given beside them.
pub open spec fn kept_named(
    allow_hidden: bool,
    dirs: Seq<Seq<char>>,
    names: Seq<Option<Seq<char>>>,
) -> Seq<Seq<char>>
    decreases dirs.len(),
{
    if dirs.len() == 0 {
        seq![]
    } else {
        let rest = kept_named(allow_hidden, dirs.drop_last(), names.take(dirs.len() - 1));
        if shown_named(allow_hidden, names[dirs.len() - 1]) {
            rest.push(dirs.last())
        } else {
            rest
        }
    }
}

/// The directories of a listing that a push creates on the device.
pub open spec fn kept_dirs(allow_hidden: bool, dirs: Seq<Seq<char>>) -> Seq<Seq<char>> {
    kept_named(allow_hidden, dirs, names_of(dirs))
}

/// Whether `k` is the first index whose name makes judging fail.
pub open spec fn first_nameless(allow_hidden: bool, names: Seq<Option<Seq<char>>>, k: int) -> bool {
    &&& 0 <= k < names.len()
    &&& nameless(allow_hidden, names[k])
    &&& forall|j: int| 0 <= j < k ==> !nameless(allow_hidden, #[trigger] names[j])
}

/// Whether `name` begins with a dot.
pub fn starts_with_dot(name: &str) -> (r: bool)
    ensures
        r == name_hidden(name@),
{
    let v = chars_of(name);
    v.len() > 0 && v[0] == '.'
}

/// The directories that a push creates out of `dirs`, given the file name
/// of each; an error names the first directory without a name where one is
/// needed.
pub fn keep_directories(dirs: &Vec<String>, names: &Vec<Option<String>>, allow_hidden: bool) -> (r:
    Result<Vec<String>, ScanError>)
    requires
        names@.len() == dirs@.len(),
    ensures
        r is Ok <==> (forall|i: int|
            0 <= i < names@.len() ==> !nameless(allow_hidden, #[trigger] opt_views(names@)[i])),
        r matches Ok(kept) ==> views(kept@) == kept_named(
            allow_hidden,
            views(dirs@),
            opt_views(names@),
        ),
        r matches Err(e) ==> (e matches ScanError::NoFileName(p) && exists|k: int|
            #[trigger] first_nameless(allow_hidden, opt_views(names@), k) && p@ == dirs@[k]@),
{
    let ghost all = views(dirs@);
    let ghost all_names = opt_views(names@);
    let mut kept: Vec<String> = Vec::new();
    let mut i: usize = 0;
    while i < dirs.len()
        invariant
            all == views(dirs@),
            all_names == opt_views(names@),
            names@.len() == dirs@.len(),
            i <= dirs@.len(),
            views(kept@) == kept_named(allow_hidden, all.take(i as int), all_names.take(i as int)),
            forall|j: int| 0 <= j < i ==> !nameless(allow_hidden, #[trigger] all_names[j]),
        decreases dirs.len() - i,
    {
        assert(all.take(i + 1).drop_last() == all.take(i as int));
        assert(all_names.take(i + 1).take(i as int) == all_names.take(i as int));
        assert(all_names[i as int] == opt_views(names@)[i as int]);
        match &names[i] {
            None => {
                if !allow_hidden {
                    assert(first_nameless(allow_hidden, all_names, i as int));
                    return Err(ScanError::NoFileName(dirs[i].clone()));
                }
                kept.push(dirs[i].clone());
            },
            Some(name) => {
                if allow_hidden || !starts_with_dot(name.as_str()) {
                    kept.push(dirs[i].clone());
                }
            },
        }
        assert(views(kept@) == kept_named(
            allow_hidden,
            all.take(i + 1),
            all_names.take(i + 1),
        ));
        i += 1;
    }
    assert(all.take(dirs@.len() as int) == all);
    assert(all_names.take(dirs@.len() as int) == all_names);
    Ok(kept)
}

/// The directories that a push creates, read from the listing of all local
/// directories (one per line); an error names the first directory that has
/// no name where one is needed.
pub fn push_directories(listing: &str, allow_hidden: bool) -> (r: Result<Vec<String>, ScanError>)
    ensures
        r is Ok <==> (forall|i: int|
            0 <= i < lines_of(listing@).len() ==> !dir_nameless(
                allow_hidden,
                #[trigger] lines_of(listing@)[i],
            )),
        r matches Ok(dirs) ==> views(dirs@) == kept_dirs(allow_hidden, lines_of(listing@)),
        r matches Ok(dirs) ==> views(dirs@) == lines_of(listing@).filter(
            |d: Seq<char>| shown(allow_hidden, d),
        ),
        r matches Err(e) ==> (e matches ScanError::NoFileName(p) && exists|k: int|
            #[trigger] first_nameless(allow_hidden, names_of(lines_of(listing@)), k) && p@
                == lines_of(listing@)[k]),
{
    proof {
        lemma_kept_dirs_is_filter(allow_hidden, lines_of(listing@));
    }
    let lines = split_lines(listing);
    let mut names: Vec<Option<String>> = Vec::new();
    let mut i: usize = 0;
    while i < lines.len()
        invariant
            views(lines@) == lines_of(listing@),
            i <= lines@.len(),
            names@.len() == i,
            opt_views(names@) == names_of(views(lines@)).take(i as int),
        decreases lines.len() - i,
    {
        let name = file_name(lines[i].as_str());
        let ghost before = names@;
        assert(lines@[i as int]@ == views(lines@)[i as int]);
        assert(match name {
            Some(n) => Some(n@),
            None => None,
        } == path_file_name(views(lines@)[i as int]));
        names.push(name);
        assert(opt_views(names@)[i as int] == path_file_name(views(lines@)[i as int]));
        assert(opt_views(names@).drop_last() =~= opt_views(before));
        assert(opt_views(names@) =~= names_of(views(lines@)).take(i + 1));
        i += 1;
    }
    assert(names_of(views(lines@)).take(lines@.len() as int) == names_of(views(lines@)));
    let r = keep_directories(&lines, &names, allow_hidden);
    proof {
        let all = lines_of(listing@);
        assert(opt_views(names@) =~= names_of(all));
        assert forall|i: int| 0 <= i < all.len() implies #[trigger] dir_nameless(allow_hidden, all[i])
            == nameless(allow_hidden, opt_views(names@)[i]) by {
            assert(names_of(all)[i] == path_file_name(all[i]));
        }
        if r is Err {
            let k = choose|k: int| #[trigger] first_nameless(allow_hidden, opt_views(names@), k);
            assert(dir_nameless(allow_hidden, all[k]));
        }
    }
    r
}

/// What a push scan learned of one local file: its path, what is left of
/// it under the pushed directory, its file name, the modification times of
/// its copy on the device (0 where missing) and of itself, and its size.
pub struct PushFact {
    pub path: Seq<char>,
    pub rel: Option<Seq<char>>,
    pub name: Option<Seq<char>>,
    pub remote: nat,
    pub local: nat,
    pub len: nat,
}

/// Whether a push scan queues the file a fact describes: it takes part by
/// the hidden-entry rule, and its copy on the device is missing (time 0)
/// or, unless changes are ignored, older than the local file.
pub open spec fn push_fact_selected(allow_hidden: bool, ignore_changes: bool, f: PushFact) -> bool {
    shown_named(allow_hidden, f.name) && (f.remote == 0 || (!ignore_changes && f.remote < f.local))
}

/// The facts of the files that a push queues, in the order they were seen.
pub open spec fn selected_facts(allow_hidden: bool, ignore_changes: bool, seen: Seq<PushFact>) -> Seq<
    PushFact,
>
    decreases seen.len(),
{
    if seen.len() == 0 {
        seq![]
    } else {
        let rest = selected_facts(allow_hidden, ignore_changes, seen.drop_last());
        if push_fact_selected(allow_hidden, ignore_changes, seen.last()) {
            rest.push(seen.last())
        } else {
            rest
        }
    }
}

/// The paths of a sequence of facts.
pub open spec fn fact_paths(facts: Seq<PushFact>) -> Seq<Seq<char>> {
    facts.map_values(|f: PushFact| f.path)
}

/// How many facts describe a file that the device lacks.
pub open spec fn new_count(facts: Seq<PushFact>) -> nat
    decreases facts.len(),
{
    if facts.len() == 0 {
        0
    } else {
        new_count(facts.drop_last()) + if facts.last().remote == 0 {
            1nat
        } else {
            0nat
        }
    }
}

/// The total size of the files that facts describe.
pub open spec fn size_total(facts: Seq<PushFact>) -> nat
    decreases facts.len(),
{
    if facts.len() == 0 {
        0
    } else {
        size_total(facts.drop_last()) + facts.last().len
    }
}

/// Whether a fact holds what the path operations give for its path: the
/// part under `root`, and the file name.
pub open spec fn push_fact_true(root: Seq<char>, f: PushFact) -> bool {
    f.rel == path_strip_prefix(f.path, root) && f.name == path_file_name(f.path)
}

/// Whether a push scan queues a local file seen with these times.
pub open spec fn push_selected(
    allow_hidden: bool,
    ignore_changes: bool,
    file: Seq<char>,
    remote_mod_time: nat,
    local_mod_time: nat,
) -> bool {
    shown(allow_hidden, file) && (remote_mod_time == 0 || (!ignore_changes && remote_mod_time
        < local_mod_time))
}

/// Whether the upload step sends a local file: its copy on the device is
/// older than the local file, and it takes part by the hidden-entry rule.
pub open spec fn push_uploads(
    allow_hidden: bool,
    file: Seq<char>,
    remote_mod_time: nat,
    local_mod_time: nat,
) -> bool {
    remote_mod_time < local_mod_time && shown(allow_hidden, file)
}

/// What a push scan did with a file.
#[derive(Clone, Copy, Debug, PartialEq, Eq, Structural)]
pub enum PushStep {
    /// The file stays out of the push.
    Skipped,
    /// The device lacks the file: it joins the push as new.
    Added,
    /// The device holds an older copy: it joins the push as changed.
    Changed,
}

/// A push scan in progress: the directories to create, what was learned of
/// each file seen so far, and the files queued.
pub struct PushScan {
    allow_hidden: bool,
    ignore_changes: bool,
    local_root: String,
    remote_dir: String,
    dir_queue: Vec<String>,
    file_queue: Vec<String>,
    seen: Ghost<Seq<PushFact>>,
    add: u64,
    change: u64,
    total_bytes: u64,
}

impl PushScan {
    /// Whether hidden entries take part.
    pub closed spec fn hidden_allowed(&self) -> bool {
        self.allow_hidden
    }

    /// Whether files that the device already has are left alone.
    pub closed spec fn changes_ignored(&self) -> bool {
        self.ignore_changes
    }

    /// The local directory that is pushed.
    pub closed spec fn root(&self) -> Seq<char> {
        self.local_root@
    }

    /// The directory on the device that receives the push.
    pub closed spec fn target_dir(&self) -> Seq<char> {
        self.remote_dir@
    }

    /// The directories to create on the device.
    pub closed spec fn dirs(&self) -> Seq<Seq<char>> {
        views(self.dir_queue@)
    }

    /// What was learned of each file taken in so far, in order.
    pub closed spec fn seen(&self) -> Seq<PushFact> {
        self.seen@
    }

    /// The files queued so far, in the order they were seen.
    pub closed spec fn queued(&self) -> Seq<Seq<char>> {
        views(self.file_queue@)
    }

    /// How many queued files the device lacks.
    pub closed spec fn added(&self) -> nat {
        self.add as nat
    }

    /// How many queued files the device has in an older state.
    pub closed spec fn changed(&self) -> nat {
        self.change as nat
    }

    /// The bytes queued so far.
    pub closed spec fn bytes(&self) -> nat {
        self.total_bytes as nat
    }

    /// The facts of the queued files.
    pub open spec fn queued_facts(&self) -> Seq<PushFact> {
        selected_facts(self.hidden_allowed(), self.changes_ignored(), self.seen())
    }

    /// What every push scan keeps: the queue is, in order, the files seen
    /// that the push selects; the counts of new and changed files and the
    /// bytes are those of the queued files; none is changed where changes
    /// are ignored; every file seen lies under the pushed directory and has
    /// a name; and every directory takes part by the hidden-entry rule.
    pub open spec fn wf(&self) -> bool {
        &&& self.queued() == fact_paths(self.queued_facts())
        &&& self.added() == new_count(self.queued_facts())
        &&& self.added() + self.changed() == self.queued().len()
        &&& self.bytes() == size_total(self.queued_facts())
        &&& self.changes_ignored() ==> self.changed() == 0
        &&& forall|i: int|
            0 <= i < self.seen().len() ==> (#[trigger] self.seen()[i]).rel is Some
                && self.seen()[i].name is Some
        &&& forall|i: int|
            0 <= i < self.dirs().len() ==> shown(self.hidden_allowed(), #[trigger] self.dirs()[i])
    }

    /// Whether every fact taken in holds what the path operations give.
    pub open spec fn facts_true(&self) -> bool {
        forall|i: int|
            0 <= i < self.seen().len() ==> push_fact_true(self.root(), #[trigger] self.seen()[i])
    }

    /// The settings and directories of `b` are those of `a`.
    pub open spec fn same_setup(a: &PushScan, b: &PushScan) -> bool {
        &&& b.hidden_allowed() == a.hidden_allowed()
        &&& b.changes_ignored() == a.changes_ignored()
        &&& b.root() == a.root()
        &&& b.target_dir() == a.target_dir()
        &&& b.dirs() == a.dirs()
    }

    /// Starts a push of `local_root` (the local directory as text) to the
    /// configured directory on the device, taking the directories to create
    /// from `dir_listing`, the listing of all local directories.
    pub fn new(config: &ConfigFile, local_root: &str, ignore_changes: bool, dir_listing: &str) -> (r:
        Result<PushScan, ScanError>)
        ensures
            r is Ok <==> (forall|i: int|
                0 <= i < lines_of(dir_listing@).len() ==> !dir_nameless(
                    config.allow_hidden,
                    #[trigger] lines_of(dir_listing@)[i],
                )),
            r matches Err(e) ==> (e matches ScanError::NoFileName(p) && exists|k: int|
                #[trigger] first_nameless(
                    config.allow_hidden,
                    names_of(lines_of(dir_listing@)),
                    k,
                ) && p@ == lines_of(dir_listing@)[k]),
            r matches Ok(s) ==> {
                &&& s.wf()
                &&& s.facts_true()
                &&& s.hidden_allowed() == config.allow_hidden
                &&& s.changes_ignored() == ignore_changes
                &&& s.root() == local_root@
                &&& s.target_dir() == config.remote_dir@
                &&& s.dirs() == kept_dirs(config.allow_hidden, lines_of(dir_listing@))
                &&& s.seen().len() == 0
                &&& s.queued().len() == 0
                &&& s.added() == 0
                &&& s.changed() == 0
                &&& s.bytes() == 0
            },
    {
        let dirs = push_directories(dir_listing, config.allow_hidden)?;
        proof {
            lemma_kept_dirs_shown(config.allow_hidden, lines_of(dir_listing@));
        }
        let scan = PushScan {
            allow_hidden: config.allow_hidden,
            ignore_changes,
            local_root: local_root.to_owned(),
            remote_dir: config.remote_dir.clone(),
            dir_queue: dirs,
            file_queue: Vec::new(),
            seen: Ghost(Seq::empty()),
            add: 0,
            change: 0,
            total_bytes: 0,
        };
        assert(scan.queued() == fact_paths(scan.queued_facts()));
        Ok(scan)
    }

    /// The path on the device that mirrors the local file `local_file`.
    pub fn remote_path(&self, local_file: &str) -> (r: Result<String, ScanError>)
        ensures
            match path_strip_prefix(local_file@, self.root()) {
                None => r matches Err(ScanError::OutsideRoot(p)) && p@ == local_file@,
                Some(rel) => r matches Ok(rp) && rp@ == path_join(self.target_dir(), rel),
            },
    {
        match strip_prefix(local_file, self.local_root.as_str()) {
            None => Err(ScanError::OutsideRoot(local_file.to_owned())),
            Some(rel) => Ok(join(self.remote_dir.as_str(), rel.as_str())),
        }
    }

    /// Takes in what was learned of `local_file`: the part of its path under
    /// the pushed directory (`None` where it does not lie there), its file
    /// name, the modification time of its copy on the device (0 where the
    /// device lacks it), its own modification time, and its size in bytes.
    pub fn observe_named(
        &mut self,
        local_file: &str,
        rel: Option<String>,
        name: Option<String>,
        remote_mod_time: u64,
        local_mod_time: u64,
        local_len: u64,
    ) -> (r: Result<PushStep, ScanError>)
        requires
            old(self).wf(),
        ensures
            final(self).wf(),
            PushScan::same_setup(old(self), final(self)),
            (rel is Some && name is Some && (old(self).hidden_allowed() || !(name->0@.len() > 0
                && name->0@[0] == '.')) && (remote_mod_time == 0 || (!old(self).changes_ignored()
                && remote_mod_time < local_mod_time)) && old(self).bytes() + local_len <= u64::MAX)
                ==> r == Ok::<PushStep, ScanError>(
                if remote_mod_time == 0 {
                    PushStep::Added
                } else {
                    PushStep::Changed
                },
            ),
            (rel is Some && name is Some && !((old(self).hidden_allowed() || !(name->0@.len() > 0
                && name->0@[0] == '.')) && (remote_mod_time == 0 || (!old(self).changes_ignored()
                && remote_mod_time < local_mod_time)))) ==> r == Ok::<PushStep, ScanError>(
                PushStep::Skipped,
            ),
            ({
                let fact = PushFact {
                    path: local_file@,
                    rel: opt_view(rel),
                    name: opt_view(name),
                    remote: remote_mod_time as nat,
                    local: local_mod_time as nat,
                    len: local_len as nat,
                };
                if rel is None {
                    r matches Err(ScanError::OutsideRoot(p)) && p@ == local_file@ && *final(self)
                        == *old(self)
                } else if name is None {
                    r matches Err(ScanError::NoFileName(p)) && p@ == local_file@ && *final(self)
                        == *old(self)
                } else if !push_fact_selected(
                    old(self).hidden_allowed(),
                    old(self).changes_ignored(),
                    fact,
                ) {
                    &&& r == Ok::<PushStep, ScanError>(PushStep::Skipped)
                    &&& final(self).seen() == old(self).seen().push(fact)
                    &&& final(self).queued() == old(self).queued()
                    &&& final(self).added() == old(self).added()
                    &&& final(self).changed() == old(self).changed()
                    &&& final(self).bytes() == old(self).bytes()
                } else if old(self).bytes() + local_len > u64::MAX {
                    r == Err::<PushStep, ScanError>(ScanError::Overflow) && *final(self) == *old(
                        self,
                    )
                } else {
                    &&& r == Ok::<PushStep, ScanError>(
                        if remote_mod_time == 0 {
                            PushStep::Added
                        } else {
                            PushStep::Changed
                        },
                    )
                    &&& final(self).seen() == old(self).seen().push(fact)
                    &&& final(self).queued() == old(self).queued().push(local_file@)
                    &&& final(self).added() == old(self).added() + if remote_mod_time == 0 {
                        1int
                    } else {
                        0int
                    }
                    &&& final(self).changed() == old(self).changed() + if remote_mod_time == 0 {
                        0int
                    } else {
                        1int
                    }
                    &&& final(self).bytes() == old(self).bytes() + local_len
                }
            }),
    {
        let ghost fact = PushFact {
            path: local_file@,
            rel: opt_view(rel),
            name: opt_view(name),
            remote: remote_mod_time as nat,
            local: local_mod_time as nat,
            len: local_len as nat,
        };
        if rel.is_none() {
            return Err(ScanError::OutsideRoot(local_file.to_owned()));
        }
        let hidden = match &name {
            None => {
                return Err(ScanError::NoFileName(local_file.to_owned()));
            },
            Some(n) => starts_with_dot(n.as_str()),
        };
        let selected = (self.allow_hidden || !hidden) && (remote_mod_time == 0 || (
        !self.ignore_changes && remote_mod_time < local_mod_time));
        assert(selected == push_fact_selected(self.allow_hidden, self.ignore_changes, fact));
        let ghost seen = self.seen@.push(fact);
        assert(seen.drop_last() =~= self.seen@);
        if !selected {
            self.seen = Ghost(seen);
            assert(self.queued_facts() == old(self).queued_facts());
            assert(self.queued() == fact_paths(self.queued_facts()));
            assert(self.added() == new_count(self.queued_facts()));
            assert(self.bytes() == size_total(self.queued_facts()));
            assert(forall|i: int|
                0 <= i < self.seen().len() ==> (#[trigger] self.seen()[i]).rel is Some
                    && self.seen()[i].name is Some);
            assert(self.dirs() == old(self).dirs());
            return Ok(PushStep::Skipped);
        }
        if self.total_bytes > u64::MAX - local_len {
            return Err(ScanError::Overflow);
        }
        self.file_queue.push(local_file.to_owned());
        assert(self.file_queue@.len() == self.file_queue.len());
        let step = if remote_mod_time == 0 {
            self.add = self.add + 1;
            PushStep::Added
        } else {
            self.change = self.change + 1;
            PushStep::Changed
        };
        self.total_bytes = self.total_bytes + local_len;
        self.seen = Ghost(seen);
        let ghost q = self.queued_facts();
        assert(q == old(self).queued_facts().push(fact));
        assert(q.drop_last() == old(self).queued_facts());
        assert(fact_paths(q) =~= fact_paths(old(self).queued_facts()).push(local_file@));
        assert(self.queued() =~= old(self).queued().push(local_file@));
        assert(new_count(q) == new_count(old(self).queued_facts()) + if remote_mod_time == 0 {
            1nat
        } else {
            0nat
        });
        assert(size_total(q) == size_total(old(self).queued_facts()) + local_len);
        assert(forall|i: int|
            0 <= i < self.seen().len() ==> (#[trigger] self.seen()[i]).rel is Some
                && self.seen()[i].name is Some) by {
            assert(forall|i: int|
                0 <= i < old(self).seen().len() ==> #[trigger] self.seen()[i] == old(
                    self,
                ).seen()[i]);
        }
        assert(self.dirs() == old(self).dirs());
        Ok(step)
    }

    /// Takes in the look at `local_file`: the modification time of its copy
    /// on the device (0 where the device lacks it), its own modification
    /// time, and its size in bytes.
    pub fn observe(
        &mut self,
        local_file: &str,
        remote_mod_time: u64,
        local_mod_time: u64,
        local_len: u64,
    ) -> (r: Result<PushStep, ScanError>)
        requires
            old(self).wf(),
        ensures
            final(self).wf(),
            PushScan::same_setup(old(self), final(self)),
            old(self).facts_true() ==> final(self).facts_true(),
            ({
                let fact = PushFact {
                    path: local_file@,
                    rel: path_strip_prefix(local_file@, old(self).root()),
                    name: path_file_name(local_file@),
                    remote: remote_mod_time as nat,
                    local: local_mod_time as nat,
                    len: local_len as nat,
                };
                if fact.rel is None {
                    r matches Err(ScanError::OutsideRoot(p)) && p@ == local_file@ && *final(self)
                        == *old(self)
                } else if fact.name is None {
                    r matches Err(ScanError::NoFileName(p)) && p@ == local_file@ && *final(self)
                        == *old(self)
                } else if !push_fact_selected(
                    old(self).hidden_allowed(),
                    old(self).changes_ignored(),
                    fact,
                ) {
                    &&& r == Ok::<PushStep, ScanError>(PushStep::Skipped)
                    &&& final(self).seen() == old(self).seen().push(fact)
                    &&& final(self).queued() == old(self).queued()
                    &&& final(self).added() == old(self).added()
                    &&& final(self).changed() == old(self).changed()
                    &&& final(self).bytes() == old(self).bytes()
                } else if old(self).bytes() + local_len > u64::MAX {
                    r == Err::<PushStep, ScanError>(ScanError::Overflow) && *final(self) == *old(
                        self,
                    )
                } else {
                    &&& r == Ok::<PushStep, ScanError>(
                        if remote_mod_time == 0 {
                            PushStep::Added
                        } else {
                            PushStep::Changed
                        },
                    )
                    &&& final(self).seen() == old(self).seen().push(fact)
                    &&& final(self).queued() == old(self).queued().push(local_file@)
                    &&& final(self).added() == old(self).added() + if remote_mod_time == 0 {
                        1int
                    } else {
                        0int
                    }
                    &&& final(self).changed() == old(self).changed() + if remote_mod_time == 0 {
                        0int
                    } else {
                        1int
                    }
                    &&& final(self).bytes() == old(self).bytes() + local_len
                }
            }),
    {
        let rel = strip_prefix(local_file, self.local_root.as_str());
        let name = file_name(local_file);
        assert(opt_view(rel) == path_strip_prefix(local_file@, self.root()));
        assert(opt_view(name) == path_file_name(local_file@));
        let r = self.observe_named(local_file, rel, name, remote_mod_time, local_mod_time, local_len);
        proof {
            if old(self).facts_true() {
                assert forall|i: int| 0 <= i < self.seen().len() implies push_fact_true(
                    self.root(),
                    #[trigger] self.seen()[i],
                ) by {
                    if i < old(self).seen().len() {
                        assert(self.seen()[i] == old(self).seen()[i]);
                    }
                }
            }
        }
        r
    }

    /// The outcome of the scan. Sizes are reported in whole KiB, rounded
    /// down; nothing is marked for deletion.
    pub fn finish(self) -> (q: Queue)
        requires
            self.wf(),
        ensures
            views(q.dir_queue@) == self.dirs(),
            views(q.file_queue@) == self.queued(),
            q.add == self.added(),
            q.change == self.changed(),
            q.del == 0,
            q.total_size == self.bytes() / 1024,
            0 <= self.bytes() - 1024 * q.total_size < 1024,
    {
        Queue {
            dir_queue: self.dir_queue,
            file_queue: self.file_queue,
            add: self.add,
            change: self.change,
            del: 0,
            total_size: (self.total_bytes / 1024) as i64,
        }
    }
}

/// Where an upload goes: the path on the device, and the path relative to
/// the pushed directory that the progress line shows.
pub struct UploadTarget {
    pub remote_path: String,
    pub relative: String,
}

/// Whether a file is uploaded: its copy on the device is older than the
/// local file (a time of 0 stands for a missing copy).
pub fn needs_upload(remote_mod_time: u64, local_mod_time: u64) -> (r: bool)
    ensures
        r == (remote_mod_time < local_mod_time),
{
    remote_mod_time < local_mod_time
}

/// The upload of a push queue in progress: where files go, and the number
/// of the next upload out of the total announced.
pub struct PushWriter {
    allow_hidden: bool,
    local_root: String,
    remote_dir: String,
    total: u64,
    next_index: u64,
}

impl PushWriter {
    /// Whether hidden files are uploaded.
    pub closed spec fn hidden_allowed(&self) -> bool {
        self.allow_hidden
    }

    /// The local directory that is pushed.
    pub closed spec fn root(&self) -> Seq<char> {
        self.local_root@
    }

    /// The directory on the device that receives the push.
    pub closed spec fn target_dir(&self) -> Seq<char> {
        self.remote_dir@
    }

    /// The number of uploads announced in the progress lines.
    pub closed spec fn total(&self) -> nat {
        self.total as nat
    }

    /// The number that the next upload is shown with.
    pub closed spec fn next_index(&self) -> nat {
        self.next_index as nat
    }

    /// Starts the upload of `queue`, scanned from `local_root`; the total
    /// shown is the number of new and changed files.
    pub fn new(config: &ConfigFile, local_root: &str, queue: &Queue) -> (w: PushWriter)
        requires
            queue.add + queue.change <= u64::MAX,
        ensures
            w.hidden_allowed() == config.allow_hidden,
            w.root() == local_root@,
            w.target_dir() == config.remote_dir@,
            w.total() == queue.add + queue.change,
            w.next_index() == 1,
    {
        PushWriter {
            allow_hidden: config.allow_hidden,
            local_root: local_root.to_owned(),
            remote_dir: config.remote_dir.clone(),
            total: queue.add + queue.change,
            next_index: 1,
        }
    }

    /// The command that creates, on the device, the directory that mirrors
    /// the local directory `dir`.
    pub fn dir_command(&self, dir: &str) -> (r: Result<String, ScanError>)
        ensures
            match path_strip_prefix(dir@, self.root()) {
                None => r matches Err(ScanError::OutsideRoot(p)) && p@ == dir@,
                Some(rel) => r matches Ok(cmd) && cmd@ == mkdir_text(
                    path_join(self.target_dir(), rel),
                ),
            },
    {
        match strip_prefix(dir, self.local_root.as_str()) {
            None => Err(ScanError::OutsideRoot(dir.to_owned())),
            Some(rel) => {
                let remote = join(self.remote_dir.as_str(), rel.as_str());
                Ok(mkdir_command(remote.as_str()))
            },
        }
    }

    /// Where the local file `file` is uploaded to.
    pub fn target(&self, file: &str) -> (r: Result<UploadTarget, ScanError>)
        ensures
            match path_strip_prefix(file@, self.root()) {
                None => r matches Err(ScanError::OutsideRoot(p)) && p@ == file@,
                Some(rel) => r matches Ok(t) && t.relative@ == rel && t.remote_path@ == path_join(
                    self.target_dir(),
                    rel,
                ),
            },
    {
        match strip_prefix(file, self.local_root.as_str()) {
            None => Err(ScanError::OutsideRoot(file.to_owned())),
            Some(rel) => {
                let remote = join(self.remote_dir.as_str(), rel.as_str());
                Ok(UploadTarget { remote_path: remote, relative: rel })
            },
        }
    }

    /// Announces the upload of `file` (shown as `relative`), given its file
    /// name, which counts only where hidden files stay, and the modification
    /// time of its copy on the device: the progress line to show, or `None`
    /// where the file is hidden and hidden files stay.
    pub fn announce_named(
        &mut self,
        file: &str,
        name: Option<String>,
        relative: &str,
        remote_mod_time: u64,
    ) -> (r: Result<Option<Progress>, ScanError>)
        ensures
            final(self).hidden_allowed() == old(self).hidden_allowed(),
            final(self).root() == old(self).root(),
            final(self).target_dir() == old(self).target_dir(),
            final(self).total() == old(self).total(),
            if nameless(old(self).hidden_allowed(), opt_view(name)) {
                r matches Err(ScanError::NoFileName(p)) && p@ == file@ && final(self).next_index()
                    == old(self).next_index()
            } else if !shown_named(old(self).hidden_allowed(), opt_view(name)) {
                r matches Ok(None) && final(self).next_index() == old(self).next_index()
            } else if old(self).next_index() == u64::MAX {
                r matches Err(ScanError::Overflow) && final(self).next_index()
                    == old(self).next_index()
            } else {
                &&& r matches Ok(Some(p))
                &&& p.tag@ == progress_tag_text(old(self).next_index(), old(self).total())
                &&& p.message@ == progress_message_text(remote_mod_time == 0, relative@)
                &&& final(self).next_index() == old(self).next_index() + 1
            },
    {
        if !self.allow_hidden {
            match &name {
                None => {
                    return Err(ScanError::NoFileName(file.to_owned()));
                },
                Some(n) => {
                    if starts_with_dot(n.as_str()) {
                        return Ok(None);
                    }
                },
            }
        }
        if self.next_index == u64::MAX {
            return Err(ScanError::Overflow);
        }
        let tag = progress_tag(self.next_index, self.total);
        let message = progress_message(remote_mod_time == 0, relative);
        self.next_index = self.next_index + 1;
        Ok(Some(Progress { tag, message }))
    }

    /// Announces the upload of `file` (shown as `relative`), whose copy on
    /// the device has modification time `remote_mod_time`: the progress line
    /// to show, or `None` where the file is hidden and hidden files stay. The
    /// file's name is looked at only where hidden files stay.
    pub fn announce(&mut self, file: &str, relative: &str, remote_mod_time: u64) -> (r: Result<
        Option<Progress>,
        ScanError,
    >)
        ensures
            final(self).hidden_allowed() == old(self).hidden_allowed(),
            final(self).root() == old(self).root(),
            final(self).target_dir() == old(self).target_dir(),
            final(self).total() == old(self).total(),
            if dir_nameless(old(self).hidden_allowed(), file@) {
                r matches Err(ScanError::NoFileName(p)) && p@ == file@ && final(self).next_index()
                    == old(self).next_index()
            } else if !shown(old(self).hidden_allowed(), file@) {
                r matches Ok(None) && final(self).next_index() == old(self).next_index()
            } else if old(self).next_index() == u64::MAX {
                r matches Err(ScanError::Overflow) && final(self).next_index()
                    == old(self).next_index()
            } else {
                &&& r matches Ok(Some(p))
                &&& p.tag@ == progress_tag_text(old(self).next_index(), old(self).total())
                &&& p.message@ == progress_message_text(remote_mod_time == 0, relative@)
                &&& final(self).next_index() == old(self).next_index() + 1
            },
    {
        let name = if self.allow_hidden {
            None
        } else {
            file_name(file)
        };
        proof {
            if !self.allow_hidden {
                assert(opt_view(name) == path_file_name(file@));
            }
        }
        self.announce_named(file, name, relative, remote_mod_time)
    }
}

/// What a push scan keeps of the files it took in by looking their paths
/// up: every queued file lies under the pushed directory and takes part by
/// the hidden-entry rule.
pub proof fn lemma_push_queue_laws(scan: PushScan, i: int)
    requires
        scan.wf(),
        scan.facts_true(),
        0 <= i < scan.queued().len(),
    ensures
        path_strip_prefix(scan.queued()[i], scan.root()) is Some,
        shown(scan.hidden_allowed(), scan.queued()[i]),
        push_selected(
            scan.hidden_allowed(),
            scan.changes_ignored(),
            scan.queued()[i],
            scan.queued_facts()[i].remote,
            scan.queued_facts()[i].local,
        ),
{
    lemma_selected_facts_from_seen(
        scan.hidden_allowed(),
        scan.changes_ignored(),
        scan.seen(),
        scan.root(),
    );
    let f = scan.queued_facts()[i];
    assert(scan.queued()[i] == f.path);
}

/// Every selected fact is a fact that was seen, and is selected.
pub proof fn lemma_selected_facts_from_seen(
    allow_hidden: bool,
    ignore_changes: bool,
    seen: Seq<PushFact>,
    root: Seq<char>,
)
    ensures
        forall|i: int|
            0 <= i < selected_facts(allow_hidden, ignore_changes, seen).len() ==> {
                let f = #[trigger] selected_facts(allow_hidden, ignore_changes, seen)[i];
                &&& push_fact_selected(allow_hidden, ignore_changes, f)
                &&& ((forall|j: int| 0 <= j < seen.len() ==> push_fact_true(root, #[trigger] seen[j]))
                    ==> push_fact_true(root, f))
                &&& ((forall|j: int| 0 <= j < seen.len() ==> (#[trigger] seen[j]).rel is Some)
                    ==> f.rel is Some)
            },
    decreases seen.len(),
{
    if seen.len() > 0 {
        lemma_selected_facts_from_seen(allow_hidden, ignore_changes, seen.drop_last(), root);
        let rest = selected_facts(allow_hidden, ignore_changes, seen.drop_last());
        let all = selected_facts(allow_hidden, ignore_changes, seen);
        assert forall|i: int| 0 <= i < all.len() implies {
            let f = #[trigger] all[i];
            &&& push_fact_selected(allow_hidden, ignore_changes, f)
            &&& ((forall|j: int| 0 <= j < seen.len() ==> push_fact_true(root, #[trigger] seen[j]))
                ==> push_fact_true(root, f))
            &&& ((forall|j: int| 0 <= j < seen.len() ==> (#[trigger] seen[j]).rel is Some)
                ==> f.rel is Some)
        } by {
            if i < rest.len() {
                assert(all[i] == rest[i]);
                if forall|j: int| 0 <= j < seen.len() ==> push_fact_true(root, #[trigger] seen[j]) {
                    assert forall|j: int| 0 <= j < seen.drop_last().len() implies push_fact_true(
                        root,
                        #[trigger] seen.drop_last()[j],
                    ) by {
                        assert(seen.drop_last()[j] == seen[j]);
                    }
                }
                if forall|j: int| 0 <= j < seen.len() ==> (#[trigger] seen[j]).rel is Some {
                    assert forall|j: int| 0 <= j < seen.drop_last().len() implies (
                    #[trigger] seen.drop_last()[j]).rel is Some by {
                        assert(seen.drop_last()[j] == seen[j]);
                    }
                }
            } else {
                assert(all[i] == seen.last());
                assert(seen.last() == seen[seen.len() - 1]);
            }
        }
    }
}

/// A push round trip: every file that a push scan queued by looking its
/// path up is uploaded by a writer set up from the same configuration, as
/// long as the times are still those the scan saw and the local time is not
/// 0: its device copy is older than it, and it takes part by the
/// hidden-entry rule the writer applies.
pub proof fn lemma_push_round_trip(scan: PushScan, writer: PushWriter, i: int)
    requires
        scan.wf(),
        scan.facts_true(),
        writer.hidden_allowed() == scan.hidden_allowed(),
        0 <= i < scan.queued().len(),
        scan.queued_facts()[i].local > 0,
    ensures
        push_uploads(
            writer.hidden_allowed(),
            scan.queued()[i],
            scan.queued_facts()[i].remote,
            scan.queued_facts()[i].local,
        ),
{
    lemma_push_queue_laws(scan, i);
}

/// Every directory that a push keeps takes part by the hidden-entry rule.
pub proof fn lemma_kept_dirs_shown(allow_hidden: bool, dirs: Seq<Seq<char>>)
    ensures
        forall|i: int|
            0 <= i < kept_dirs(allow_hidden, dirs).len() ==> shown(
                allow_hidden,
                #[trigger] kept_dirs(allow_hidden, dirs)[i],
            ),
    decreases dirs.len(),
{
    if dirs.len() > 0 {
        let d = dirs.drop_last();
        lemma_kept_dirs_shown(allow_hidden, d);
        assert(names_of(dirs).take(dirs.len() - 1) == names_of(d));
        let rest = kept_dirs(allow_hidden, d);
        assert forall|i: int|
            0 <= i < kept_dirs(allow_hidden, dirs).len() implies shown(
                allow_hidden,
                #[trigger] kept_dirs(allow_hidden, dirs)[i],
            ) by {
            if i < rest.len() {
                assert(kept_dirs(allow_hidden, dirs)[i] == rest[i]);
            }
        }
    }
}

/// The hidden-entry rule: with hidden entries allowed every entry takes
/// part; otherwise exactly the entries whose name does not begin with a dot
/// do, and an entry without a name does not.
pub proof fn lemma_hidden_entry_rule(name: Option<Seq<char>>)
    ensures
        shown_named(true, name),
        name is None ==> !shown_named(false, name),
        name matches Some(n) ==> (shown_named(false, name) <==> (n.len() == 0 || n[0] != '.')),
{
}

/// Which files a push queues: one that takes part by the hidden-entry rule
/// is queued when its device copy is missing (time 0), or, unless changes
/// are ignored, older than the local file; no other is. Its size plays no
/// part.
pub proof fn lemma_push_selection_rule(allow_hidden: bool, ignore_changes: bool, f: PushFact)
    ensures
        push_fact_selected(allow_hidden, ignore_changes, f) <==> (shown_named(allow_hidden, f.name)
            && (f.remote == 0 || (!ignore_changes && f.remote < f.local))),
        shown_named(allow_hidden, f.name) && f.remote == 0 ==> push_fact_selected(
            allow_hidden,
            ignore_changes,
            f,
        ),
        shown_named(allow_hidden, f.name) && !ignore_changes && f.remote < f.local
            ==> push_fact_selected(allow_hidden, ignore_changes, f),
        f.remote != 0 && f.local <= f.remote ==> !push_fact_selected(
            allow_hidden,
            ignore_changes,
            f,
        ),
        forall|len: nat|
            push_fact_selected(allow_hidden, ignore_changes, PushFact { len, ..f })
                == push_fact_selected(allow_hidden, ignore_changes, f),
{
}

/// The directories judged by the names beside them, paired up.
pub open spec fn dirs_with_names(dirs: Seq<Seq<char>>, names: Seq<Option<Seq<char>>>) -> Seq<
    (Seq<char>, Option<Seq<char>>),
> {
    Seq::new(dirs.len(), |i: int| (dirs[i], names[i]))
}

/// The directories a push keeps are exactly those of the listing whose
/// names take part by the hidden-entry rule, in listing order: the listing,
/// paired with the names, filtered by the rule.
pub proof fn lemma_kept_named_is_filter(
    allow_hidden: bool,
    dirs: Seq<Seq<char>>,
    names: Seq<Option<Seq<char>>>,
)
    requires
        names.len() == dirs.len(),
    ensures
        kept_named(allow_hidden, dirs, names) == dirs_with_names(dirs, names).filter(
            |p: (Seq<char>, Option<Seq<char>>)| shown_named(allow_hidden, p.1),
        ).map_values(|p: (Seq<char>, Option<Seq<char>>)| p.0),
    decreases dirs.len(),
{
    reveal(Seq::filter);
    let pred = |p: (Seq<char>, Option<Seq<char>>)| shown_named(allow_hidden, p.1);
    let first = |p: (Seq<char>, Option<Seq<char>>)| p.0;
    if dirs.len() > 0 {
        let d = dirs.drop_last();
        let n = names.take(dirs.len() - 1);
        lemma_kept_named_is_filter(allow_hidden, d, n);
        let z = dirs_with_names(dirs, names);
        assert(z.drop_last() =~= dirs_with_names(d, n));
        let rest = dirs_with_names(d, n).filter(pred);
        assert(z.last() == (dirs.last(), names[dirs.len() - 1]));
        assert(z.filter(pred) == if pred(z.last()) {
            z.drop_last().filter(pred).push(z.last())
        } else {
            z.drop_last().filter(pred)
        });
        if shown_named(allow_hidden, names[dirs.len() - 1]) {
            assert(z.filter(pred) == rest.push(z.last()));
            assert(rest.push(z.last()).map_values(first) =~= rest.map_values(first).push(
                dirs.last(),
            ));
        } else {
            assert(z.filter(pred) == rest);
        }
    } else {
        assert(dirs_with_names(dirs, names).filter(pred) =~= Seq::<
            (Seq<char>, Option<Seq<char>>),
        >::empty());
    }
}

/// The directories a push keeps of a listing are exactly those that take
/// part by the hidden-entry rule, in listing order.
pub proof fn lemma_kept_dirs_is_filter(allow_hidden: bool, dirs: Seq<Seq<char>>)
    ensures
        kept_dirs(allow_hidden, dirs) == dirs.filter(|d: Seq<char>| shown(allow_hidden, d)),
    decreases dirs.len(),
{
    reveal(Seq::filter);
    let pred = |d: Seq<char>| shown(allow_hidden, d);
    if dirs.len() > 0 {
        let d = dirs.drop_last();
        lemma_kept_dirs_is_filter(allow_hidden, d);
        assert(names_of(dirs).take(dirs.len() - 1) == names_of(d));
        assert(names_of(dirs)[dirs.len() - 1] == path_file_name(dirs.last()));
        assert(dirs.filter(pred) == if pred(dirs.last()) {
            d.filter(pred).push(dirs.last())
        } else {
            d.filter(pred)
        });
    } else {
        assert(dirs.filter(pred) =~= dirs);
    }
}

} // verus!
