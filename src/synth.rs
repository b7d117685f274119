use vstd::prelude::*;
use vstd::string::*;
use crate::drip::{Arrow, ArrowSrc, Drip};
use crate::error::Error;
use crate::ignore::{IgnoreSet, glob_set_match};
use crate::path::{ends_with_sep, has_sep_prefix, join, join_path, starts_with_sep, trim, trim_fails, trim_seps};

verus! {

/// The direction of a transfer.
#[derive(Debug, Clone, Copy, PartialEq, Eq, Structural)]
pub enum TaskArrow {
    /// read from the site, write to the repo
    SiteToRepo,
    /// read from the repo, write to the site
    RepoToSite,
}

/// How one task moves content.
#[derive(Debug, Clone, Copy, PartialEq, Eq, Structural)]
pub enum AtomMode {
    FileCopy,
    Link,
}

impl AtomMode {
    /// The arrow that shows the mode in listings.
    pub fn display_arrow(&self) -> (r: &'static str)
        ensures
            *self is FileCopy ==> r@ == "==>"@,
            *self is Link ==> r@ == "~~>"@,
    {
        match self {
            AtomMode::FileCopy => "==>",
            AtomMode::Link => "~~>",
        }
    }
}

/// One concrete filesystem operation: absolute source and destination.
#[derive(Debug, Clone, PartialEq, Eq)]
pub struct AtomTask {
    pub src: String,
    pub dst: String,
    pub mode: AtomMode,
}

/// What one arrow asks for, on paths not yet checked against the filesystem.
#[derive(Debug, Clone, PartialEq, Eq)]
pub enum LeafPlan {
    /// clone `remote` into `dst`
    Clone { remote: String, dst: String },
    /// symlink `dst` to `src`
    Link { src: String, dst: String },
    /// copy the tree at `src` to `dst`, file by file
    Copy { src: String, dst: String },
    /// nothing to do on the filesystem
    Nothing,
}

/// The repo-side path of a leaf: repo root, then the drip's root, then `rel`.
pub open spec fn repo_leaf(repo: Seq<char>, drip: Drip, rel: Seq<char>) -> Seq<char> {
    join_path(join_path(repo, drip.rel_repo@), rel)
}

/// The site-side path of a leaf.
pub open spec fn site_leaf(drip: Drip, arrow: Arrow) -> Seq<char> {
    join_path(drip.site@, arrow.rel_site@)
}

/// Whether `p` is what `arrow` asks for when transferring in direction `dir`.
/// Links always run from the repo to the site; copies read from the side
/// that `dir` names.
pub open spec fn is_leaf_plan(repo: Seq<char>, drip: Drip, arrow: Arrow, dir: TaskArrow, p: LeafPlan) -> bool {
    let site = site_leaf(drip, arrow);
    match arrow.src {
        ArrowSrc::Git(remote) => p matches LeafPlan::Clone { remote: r, dst } && r@ == remote@ && dst@ == site,
        ArrowSrc::Link(rel) => p matches LeafPlan::Link { src, dst } && src@ == repo_leaf(repo, drip, rel@) && dst@ == site,
        ArrowSrc::Copy(rel) => p matches LeafPlan::Copy { src, dst } && (match dir {
            TaskArrow::SiteToRepo => src@ == site && dst@ == repo_leaf(repo, drip, rel@),
            TaskArrow::RepoToSite => src@ == repo_leaf(repo, drip, rel@) && dst@ == site,
        }),
        ArrowSrc::Collector => p is Nothing,
    }
}

/// A link arrow gives the same plan in both directions: from the repo path
/// to the site path.
pub proof fn lemma_link_ignores_direction(repo: Seq<char>, drip: Drip, arrow: Arrow, dir: TaskArrow, p: LeafPlan)
    requires
        arrow.src is Link,
        is_leaf_plan(repo, drip, arrow, dir, p),
    ensures
        is_leaf_plan(repo, drip, arrow, TaskArrow::SiteToRepo, p),
        is_leaf_plan(repo, drip, arrow, TaskArrow::RepoToSite, p),
        p matches LeafPlan::Link { src, dst } && src@ == repo_leaf(repo, drip, arrow.src->Link_0@)
            && dst@ == site_leaf(drip, arrow),
{
}

/// What `arrow` of `drip` asks for, with the repo rooted at `repo`.
pub fn plan_arrow(repo: &str, drip: &Drip, arrow: &Arrow, dir: TaskArrow) -> (r: LeafPlan)
    ensures
        is_leaf_plan(repo@, *drip, *arrow, dir, r),
{
    let site = join(drip.site.as_str(), arrow.rel_site.as_str());
    match &arrow.src {
        ArrowSrc::Git(remote) => LeafPlan::Clone { remote: remote.clone(), dst: site },
        ArrowSrc::Link(rel) => {
            let root = join(repo, drip.rel_repo.as_str());
            LeafPlan::Link { src: join(root.as_str(), rel.as_str()), dst: site }
        },
        ArrowSrc::Copy(rel) => {
            let root = join(repo, drip.rel_repo.as_str());
            let leaf = join(root.as_str(), rel.as_str());
            match dir {
                TaskArrow::SiteToRepo => LeafPlan::Copy { src: site, dst: leaf },
                TaskArrow::RepoToSite => LeafPlan::Copy { src: leaf, dst: site },
            }
        },
        ArrowSrc::Collector => LeafPlan::Nothing,
    }
}

/// What every arrow of `drip` asks for, one plan per arrow in order.
pub fn plan_drip(repo: &str, drip: &Drip, dir: TaskArrow) -> (r: Vec<LeafPlan>)
    ensures
        r@.len() == drip.arrows@.len(),
        forall|i: int| 0 <= i < r@.len() ==> is_leaf_plan(repo@, *drip, #[trigger] drip.arrows@[i], dir, r@[i]),
{
    let mut plans: Vec<LeafPlan> = Vec::new();
    for i in 0..drip.arrows.len()
        invariant
            plans@.len() == i,
            forall|j: int| 0 <= j < i ==> is_leaf_plan(repo@, *drip, #[trigger] drip.arrows@[j], dir, plans@[j]),
    {
        plans.push(plan_arrow(repo, drip, &drip.arrows[i], dir));
    }
    plans
}

/// A path as a task stores it: the canonical form found on disk when the
/// path exists, else the path without its trailing separators.
pub fn peek(path: &str, canonical: Option<String>) -> (r: Result<String, Error>)
    ensures
        match canonical {
            Some(c) => r == Ok::<String, Error>(c),
            None => match r {
                Ok(t) => t@ == trim_seps(path@) && !trim_fails(path@),
                Err(e) => trim_fails(path@) && (e matches Error::ConfigParse(s) && s@ == path@),
            },
        },
{
    match canonical {
        Some(c) => Ok(c),
        None => trim(path),
    }
}

/// The task of a link plan, given the canonical form of its repo side (`None`
/// when that path does not exist). Fails with `MissingSource` when it does
/// not exist.
pub fn link_task(src: &str, canonical_src: Option<String>, dst: &str) -> (r: Result<AtomTask, Error>)
    ensures
        match canonical_src {
            None => r matches Err(Error::MissingSource(s)) && s@ == src@,
            Some(c) => match r {
                Ok(t) => t.src == c && t.dst@ == trim_seps(dst@) && !trim_fails(dst@) && t.mode == AtomMode::Link,
                Err(e) => trim_fails(dst@) && (e matches Error::ConfigParse(s) && s@ == dst@),
            },
        },
{
    match canonical_src {
        None => Err(Error::MissingSource(String::from_str(src))),
        Some(c) => {
            let d = trim(dst)?;
            Ok(AtomTask { src: c, dst: d, mode: AtomMode::Link })
        },
    }
}

/// What the filesystem holds at a path.
#[derive(Debug, Clone, PartialEq, Eq)]
pub enum EntryKind {
    File,
    /// a directory, with the names of its entries
    Dir(Vec<String>),
    /// anything else (a socket, a device), which a walk skips
    Other,
}

/// The form that a task stores of `path`, given its canonical form when it
/// exists: `None` when the path names no file.
pub open spec fn peeked(path: Seq<char>, canonical: Option<String>) -> Option<Seq<char>> {
    match canonical {
        Some(c) => Some(c@),
        None => if trim_fails(path) {
            None
        } else {
            Some(trim_seps(path))
        },
    }
}

/// The entry names that a walk follows: those that cannot leave the
/// directory by starting with a separator.
pub open spec fn entry_names(names: Seq<String>) -> Seq<String> {
    names.filter(|n: String| !starts_with_sep(n@))
}

/// The pairs that a directory's entries add to a walk, in order.
pub open spec fn child_pairs(src: Seq<char>, dst: Seq<char>, names: Seq<String>) -> Seq<(Seq<char>, Seq<char>)> {
    names.map_values(|n: String| (join_path(src, n@), join_path(dst, n@)))
}

/// The views of pending pairs.
pub open spec fn pairs_view(ps: Seq<(String, String)>) -> Seq<(Seq<char>, Seq<char>)> {
    ps.map_values(|p: (String, String)| (p.0@, p.1@))
}

/// Whether `p` is an entry of one of the directories `opened`, which are
/// recorded as (source as queued, source as peeked).
pub open spec fn from_opened(opened: Set<(Seq<char>, Seq<char>)>, p: Seq<char>) -> bool {
    exists|o: (Seq<char>, Seq<char>), n: Seq<char>|
        #[trigger] opened.contains(o) && !starts_with_sep(n) && p == #[trigger] join_path(o.0, n)
}

/// Whether `p` is the walk's start `root` or an entry of an opened directory.
pub open spec fn descends(root: Seq<char>, opened: Set<(Seq<char>, Seq<char>)>, p: Seq<char>) -> bool {
    p == root || from_opened(opened, p)
}

/// Whether a (source, destination) pair lies under the walk's two roots and
/// descends from the start through opened directories.
pub open spec fn placed(root: (Seq<char>, Seq<char>), opened: Set<(Seq<char>, Seq<char>)>, pair: (Seq<char>, Seq<char>)) -> bool {
    &&& descends(root.0, opened, pair.0)
    &&& root.0.is_prefix_of(pair.0)
    &&& root.1.is_prefix_of(pair.1)
}

proof fn lemma_descends_mono(root: Seq<char>, o1: Set<(Seq<char>, Seq<char>)>, o2: Set<(Seq<char>, Seq<char>)>, p: Seq<char>)
    requires
        o1.subset_of(o2),
        descends(root, o1, p),
    ensures
        descends(root, o2, p),
{
    if p != root {
        let (o, n) = choose|o: (Seq<char>, Seq<char>), n: Seq<char>|
            #[trigger] o1.contains(o) && !starts_with_sep(n) && p == #[trigger] join_path(o.0, n);
        assert(o2.contains(o));
    }
}

/// A name that does not start with a separator extends the path it joins.
pub proof fn lemma_join_extends(base: Seq<char>, n: Seq<char>)
    requires
        !starts_with_sep(n),
    ensures
        base.is_prefix_of(join_path(base, n)),
{
    let j = join_path(base, n);
    if base.len() == 0 || ends_with_sep(base) {
        assert(j.subrange(0, base.len() as int) =~= base);
    } else {
        assert(j.subrange(0, base.len() as int) =~= base);
    }
}

proof fn lemma_prefix_trans(a: Seq<char>, b: Seq<char>, c: Seq<char>)
    requires
        a.is_prefix_of(b),
        b.is_prefix_of(c),
    ensures
        a.is_prefix_of(c),
{
    assert(c.subrange(0, a.len() as int) =~= b.subrange(0, a.len() as int));
}

/// A walk of a source tree that expands copy leaves into one task per
/// regular file, skipping ignored subtrees. The caller takes the next
/// pending pair, looks at the filesystem there, and hands what it found to
/// `step`, which peeks both paths itself.
pub struct CopyWalk {
    /// (source, destination) pairs still to visit; the last is next
    pub pending: Vec<(String, String)>,
    /// the copy tasks found so far, in the order found
    pub tasks: Vec<AtomTask>,
    /// the pair the walk started at
    pub root: Ghost<(Seq<char>, Seq<char>)>,
    /// the directories whose entries were queued: (source as queued, source
    /// as peeked)
    pub opened: Ghost<Set<(Seq<char>, Seq<char>)>>,
    /// for each task, the pending pair it came from
    pub origins: Ghost<Seq<(Seq<char>, Seq<char>)>>,
}

impl CopyWalk {
    /// The source of the pair to visit next.
    pub open spec fn top(&self) -> (Seq<char>, Seq<char>) {
        pairs_view(self.pending@).last()
    }

    /// Whether nothing of the walk lies outside its roots or under a path
    /// that `patterns` match: every task and every queued pair descends from
    /// the start through opened directories and lies under both roots; no
    /// task's source and no opened directory (as peeked) is matched.
    pub open spec fn keeps_out(&self, patterns: Seq<Seq<char>>) -> bool {
        &&& self.origins@.len() == self.tasks@.len()
        &&& forall|k: int| 0 <= k < self.tasks@.len() ==> !glob_set_match(patterns, #[trigger] self.tasks@[k].src@)
            && placed(self.root@, self.opened@, self.origins@[k])
        &&& forall|o: (Seq<char>, Seq<char>)| #[trigger] self.opened@.contains(o) ==> !glob_set_match(patterns, o.1)
            && descends(self.root@.0, self.opened@, o.0) && self.root@.0.is_prefix_of(o.0)
        &&& forall|k: int| 0 <= k < self.pending@.len() ==> placed(self.root@, self.opened@, #[trigger] pairs_view(self.pending@)[k])
    }

    /// A walk that starts at the pair (`src`, `dst`).
    pub fn new(src: String, dst: String) -> (r: Self)
        ensures
            pairs_view(r.pending@) == seq![(src@, dst@)],
            r.tasks@ == Seq::<AtomTask>::empty(),
            r.root@ == (src@, dst@),
            forall|patterns: Seq<Seq<char>>| r.keeps_out(patterns),
    {
        let ghost root = (src@, dst@);
        let mut pending: Vec<(String, String)> = Vec::new();
        pending.push((src, dst));
        let r = CopyWalk {
            pending,
            tasks: Vec::new(),
            root: Ghost(root),
            opened: Ghost(Set::empty()),
            origins: Ghost(Seq::empty()),
        };
        assert(pairs_view(r.pending@) =~= seq![root]);
        assert(root.0.is_prefix_of(root.0) && root.1.is_prefix_of(root.1)) by {
            assert(root.0.subrange(0, root.0.len() as int) =~= root.0);
            assert(root.1.subrange(0, root.1.len() as int) =~= root.1);
        }
        r
    }

    /// Whether the walk is over.
    pub fn is_done(&self) -> (r: bool)
        ensures
            r == (self.pending@.len() == 0),
    {
        self.pending.len() == 0
    }

    /// The pair to visit next.
    pub fn next_pair(&self) -> (r: Option<(String, String)>)
        ensures
            self.pending@.len() == 0 ==> r is None,
            self.pending@.len() > 0 ==> (r matches Some(p) && p.0@ == self.top().0 && p.1@ == self.top().1),
    {
        let n = self.pending.len();
        if n == 0 {
            None
        } else {
            let (s, d) = &self.pending[n - 1];
            Some((s.clone(), d.clone()))
        }
    }

    /// Whether `step` will drop the next pair unvisited, given the canonical
    /// form of its source: its peeked source matches the ignore set. The
    /// caller need not look inside such a path.
    pub fn skips(&self, ignore: &IgnoreSet, src_canonical: Option<String>) -> (r: bool)
        requires
            self.pending@.len() > 0,
        ensures
            r == (peeked(self.top().0, src_canonical) matches Some(p) && glob_set_match(ignore.patterns(), p)),
    {
        let n = self.pending.len();
        match peek(self.pending[n - 1].0.as_str(), src_canonical) {
            Ok(p) => ignore.is_ignored(p.as_str()),
            Err(_) => false,
        }
    }

    /// Consumes the next pending pair, given the canonical forms of its two
    /// paths (`None` where a path does not exist) and what the filesystem
    /// holds at its source. Both paths are peeked; a source that matches the
    /// ignore set yields nothing and is not entered; a file yields one copy
    /// task; a directory queues a pair for each of its entries; anything else
    /// is skipped. Fails with `ConfigParse` when a path names no file.
    pub fn step(
        &mut self,
        ignore: &IgnoreSet,
        src_canonical: Option<String>,
        dst_canonical: Option<String>,
        kind: EntryKind,
    ) -> (r: Result<(), Error>)
        requires
            old(self).pending@.len() > 0,
        ensures
            final(self).root@ == old(self).root@,
            old(self).keeps_out(ignore.patterns()) ==> final(self).keeps_out(ignore.patterns()),
            match (peeked(old(self).top().0, src_canonical), peeked(old(self).top().1, dst_canonical)) {
                (Some(ps), Some(pd)) => {
                    &&& r is Ok
                    &&& glob_set_match(ignore.patterns(), ps) ==> {
                        &&& final(self).tasks@ == old(self).tasks@
                        &&& final(self).pending@ == old(self).pending@.drop_last()
                    }
                    &&& !glob_set_match(ignore.patterns(), ps) ==> match kind {
                        EntryKind::File => {
                            &&& final(self).tasks@.len() == old(self).tasks@.len() + 1
                            &&& final(self).tasks@.drop_last() == old(self).tasks@
                            &&& final(self).tasks@.last().src@ == ps
                            &&& final(self).tasks@.last().dst@ == pd
                            &&& final(self).tasks@.last().mode == AtomMode::FileCopy
                            &&& final(self).pending@ == old(self).pending@.drop_last()
                        },
                        EntryKind::Dir(names) => {
                            &&& final(self).tasks@ == old(self).tasks@
                            &&& pairs_view(final(self).pending@) == pairs_view(old(self).pending@.drop_last())
                                + child_pairs(old(self).top().0, old(self).top().1, entry_names(names@))
                        },
                        EntryKind::Other => {
                            &&& final(self).tasks@ == old(self).tasks@
                            &&& final(self).pending@ == old(self).pending@.drop_last()
                        },
                    }
                },
                _ => {
                    &&& r matches Err(Error::ConfigParse(_))
                    &&& final(self).tasks@ == old(self).tasks@
                    &&& final(self).pending@ == old(self).pending@.drop_last()
                },
            },
    {
        let ghost pats = ignore.patterns();
        let ghost ok = old(self).keeps_out(pats);
        let ghost top = old(self).top();
        let ghost root = self.root@;
        let (s, d) = match self.pending.pop() {
            Some(p) => p,
            None => {
                return Ok(());
            },
        };
        proof {
            assert(self.tasks@ == old(self).tasks@ && self.opened@ == old(self).opened@);
            assert(self.origins@ == old(self).origins@ && self.root@ == old(self).root@);
            assert((s@, d@) == top);
            if ok {
                assert(placed(root, self.opened@, pairs_view(old(self).pending@)[old(self).pending@.len() - 1]));
                assert forall|k: int| 0 <= k < self.pending@.len() implies placed(root, self.opened@, #[trigger] pairs_view(self.pending@)[k]) by {
                    assert(pairs_view(self.pending@)[k] == pairs_view(old(self).pending@)[k]);
                }
            }
        }
        let ps = match peek(s.as_str(), src_canonical) {
            Ok(p) => p,
            Err(e) => {
                return Err(e);
            },
        };
        let pd = match peek(d.as_str(), dst_canonical) {
            Ok(p) => p,
            Err(e) => {
                return Err(e);
            },
        };
        if ignore.is_ignored(ps.as_str()) {
            return Ok(());
        }
        match kind {
            EntryKind::File => {
                let ghost tasks0 = self.tasks@;
                self.tasks.push(AtomTask { src: ps, dst: pd, mode: AtomMode::FileCopy });
                self.origins = Ghost(self.origins@.push(top));
                proof {
                    assert(self.tasks@.drop_last() =~= tasks0);
                    if ok {
                        assert forall|k: int| 0 <= k < self.tasks@.len() implies !glob_set_match(pats, #[trigger] self.tasks@[k].src@)
                            && placed(root, self.opened@, self.origins@[k]) by {
                            if k < tasks0.len() {
                                assert(self.tasks@[k] == tasks0[k]);
                                assert(!glob_set_match(pats, old(self).tasks@[k].src@));
                                assert(self.origins@[k] == old(self).origins@[k]);
                            } else {
                                assert(self.origins@[k] == top);
                                assert(self.tasks@[k].src@ == ps@);
                            }
                        }
                    }
                }
            },
            EntryKind::Dir(names) => {
                let ghost opened0 = self.opened@;
                self.opened = Ghost(self.opened@.insert((s@, ps@)));
                proof {
                    if ok {
                        assert(opened0.subset_of(self.opened@));
                        assert forall|k: int| 0 <= k < self.tasks@.len() implies !glob_set_match(pats, #[trigger] self.tasks@[k].src@)
                            && placed(root, self.opened@, self.origins@[k]) by {
                            assert(self.tasks@[k] == old(self).tasks@[k]);
                            assert(!glob_set_match(pats, old(self).tasks@[k].src@));
                            assert(placed(root, opened0, self.origins@[k]));
                            lemma_descends_mono(root.0, opened0, self.opened@, self.origins@[k].0);
                        }
                        assert forall|o: (Seq<char>, Seq<char>)| #[trigger] self.opened@.contains(o) implies !glob_set_match(pats, o.1)
                            && descends(root.0, self.opened@, o.0) && root.0.is_prefix_of(o.0) by {
                            if o == (s@, ps@) {
                                lemma_descends_mono(root.0, opened0, self.opened@, s@);
                            } else {
                                lemma_descends_mono(root.0, opened0, self.opened@, o.0);
                            }
                        }
                        assert forall|k: int| 0 <= k < self.pending@.len() implies placed(root, self.opened@, #[trigger] pairs_view(self.pending@)[k]) by {
                            lemma_descends_mono(root.0, opened0, self.opened@, pairs_view(self.pending@)[k].0);
                        }
                    }
                }
                let ghost start = self.pending@;
                let ghost tasks0 = self.tasks@;
                let ghost opened1 = self.opened@;
                assert(names@.take(0) =~= Seq::<String>::empty());
                proof {
                    reveal(Seq::filter);
                }
                assert(pairs_view(self.pending@) =~= pairs_view(start) + child_pairs(s@, d@, entry_names(names@.take(0))));
                for i in 0..names.len()
                    invariant
                        self.tasks@ == tasks0,
                        self.root@ == root,
                        self.opened@ == opened1,
                        self.origins@ == old(self).origins@,
                        opened1.contains((s@, ps@)),
                        ok ==> root.0.is_prefix_of(s@) && root.1.is_prefix_of(d@),
                        ok ==> forall|k: int| 0 <= k < self.pending@.len() ==> placed(root, opened1, #[trigger] pairs_view(self.pending@)[k]),
                        pairs_view(self.pending@) == pairs_view(start) + child_pairs(s@, d@, entry_names(names@.take(i as int))),
                {
                    let ghost before = self.pending@;
                    proof {
                        reveal(Seq::filter);
                        assert(names@.take(i + 1).drop_last() =~= names@.take(i as int));
                        assert(names@.take(i + 1).last() == names@[i as int]);
                    }
                    let n = &names[i];
                    if !has_sep_prefix(n.as_str()) {
                        let cs = join(s.as_str(), n.as_str());
                        let cd = join(d.as_str(), n.as_str());
                        self.pending.push((cs, cd));
                        proof {
                            assert(entry_names(names@.take(i + 1)) == entry_names(names@.take(i as int)).push(names@[i as int]));
                            assert(child_pairs(s@, d@, entry_names(names@.take(i + 1))) =~= child_pairs(s@, d@, entry_names(names@.take(i as int))).push((cs@, cd@)));
                            assert(pairs_view(self.pending@) =~= pairs_view(before).push((cs@, cd@)));
                            if ok {
                                lemma_join_extends(s@, n@);
                                lemma_join_extends(d@, n@);
                                lemma_prefix_trans(root.0, s@, cs@);
                                lemma_prefix_trans(root.1, d@, cd@);
                                assert(opened1.contains((s@, ps@)) && !starts_with_sep(n@) && cs@ == join_path((s@, ps@).0, n@));
                                assert(from_opened(opened1, cs@));
                                assert forall|k: int| 0 <= k < self.pending@.len() implies placed(root, opened1, #[trigger] pairs_view(self.pending@)[k]) by {
                                    if k < before.len() {
                                        assert(pairs_view(self.pending@)[k] == pairs_view(before)[k]);
                                    }
                                }
                            }
                        }
                    } else {
                        proof {
                            assert(entry_names(names@.take(i + 1)) == entry_names(names@.take(i as int)));
                        }
                    }
                }
                assert(names@.take(names@.len() as int) =~= names@);
            },
            EntryKind::Other => {},
        }
        Ok(())
    }
}

} // verus!
