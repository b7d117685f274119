use vstd::prelude::*;
use vstd::string::*;
use crate::drip::{Arrow, Drip};
use crate::path::{join, join_path};
use crate::strs::strs;
use crate::error::Error;

verus! {

/// The lower-case hexadecimal digit of `n`, for `0 <= n < 16`.
pub open spec fn hex_digit(n: int) -> char {
    seq!['0', '1', '2', '3', '4', '5', '6', '7', '8', '9', 'a', 'b', 'c', 'd', 'e', 'f'][n]
}

/// The 32 hexadecimal digits of `v`, most significant first.
pub open spec fn hex_digits(v: u128) -> Seq<char> {
    Seq::new(32, |i: int| hex_digit(((v >> ((124 - 4 * i) as u128)) & 15u128) as int))
}

/// The text form of a backup version identifier: its 32 hexadecimal digits
/// in groups of 8, 4, 4, 4 and 12, joined by hyphens.
pub open spec fn uuid_text(v: u128) -> Seq<char> {
    let h = hex_digits(v);
    h.subrange(0, 8) + seq!['-'] + h.subrange(8, 12) + seq!['-'] + h.subrange(12, 16) + seq!['-'] + h.subrange(16, 20)
        + seq!['-'] + h.subrange(20, 32)
}

/// Relies on `uuid::Uuid`'s `Display`: the hyphenated lower-case
/// hexadecimal form of the 128-bit value, most significant digit first.
#[verifier::external_body]
fn uuid_string(v: u128) -> (r: String)
    ensures
        r@ == uuid_text(v),
{
    uuid::Uuid::from_u128(v).to_string()
}

/// The versions of `versions` that the request `version` names: all of them
/// for `all`, else those whose text is `version`. `texts` holds the text of
/// each version.
pub open spec fn selected(version: Seq<char>, versions: Seq<u128>, texts: Seq<Seq<char>>) -> Seq<u128>
    decreases versions.len(),
{
    if versions.len() == 0 {
        seq![]
    } else {
        let rest = selected(version, versions.drop_last(), texts.drop_last());
        if version == "all"@ || version == texts.last() {
            rest.push(versions.last())
        } else {
            rest
        }
    }
}

/// Asking for `all` names every version, in order.
pub proof fn lemma_all_names_every_version(versions: Seq<u128>, texts: Seq<Seq<char>>)
    requires
        texts.len() == versions.len(),
    ensures
        selected("all"@, versions, texts) == versions,
    decreases versions.len(),
{
    if versions.len() > 0 {
        lemma_all_names_every_version(versions.drop_last(), texts.drop_last());
        assert(versions.drop_last().push(versions.last()) =~= versions);
    }
}

proof fn lemma_filter_keeps_none(s: Seq<u128>, pred: spec_fn(u128) -> bool)
    requires
        forall|k: int| 0 <= k < s.len() ==> !pred(#[trigger] s[k]),
    ensures
        s.filter(pred) == Seq::<u128>::empty(),
    decreases s.len(),
{
    reveal(Seq::filter);
    if s.len() > 0 {
        lemma_filter_keeps_none(s.drop_last(), pred);
        assert(!pred(s[s.len() - 1]));
    }
}

/// Removing every version leaves none; removing them again changes nothing.
pub proof fn lemma_removing_all_leaves_none(versions: Seq<u128>)
    ensures
        versions.filter(|v: u128| !versions.contains(v)) == Seq::<u128>::empty(),
        Seq::<u128>::empty().filter(|v: u128| !Seq::<u128>::empty().contains(v)) == Seq::<u128>::empty(),
{
    let pred = |v: u128| !versions.contains(v);
    assert forall|k: int| 0 <= k < versions.len() implies !pred(#[trigger] versions[k]) by {
        assert(versions.contains(versions[k]));
    }
    lemma_filter_keeps_none(versions, pred);
    reveal(Seq::filter);
    assert(Seq::<u128>::empty().filter(|v: u128| !Seq::<u128>::empty().contains(v)) =~= Seq::<u128>::empty());
}

/// The backup history of one pill.
#[derive(Debug, Clone, PartialEq, Eq)]
pub struct DreamDrip {
    pub name: String,
    /// the site root that the backups were taken from
    pub site: String,
    /// backup version identifiers, oldest first
    pub versions: Vec<u128>,
}

fn contains_u128(v: &Vec<u128>, x: u128) -> (r: bool)
    ensures
        r == v@.contains(x),
{
    for i in 0..v.len()
        invariant
            forall|j: int| 0 <= j < i ==> v@[j] != x,
    {
        if v[i] == x {
            return true;
        }
    }
    false
}

impl DreamDrip {
    /// The backup directory of version `uid`, under the backup root `root`.
    pub fn path(&self, root: &str, uid: u128) -> (r: String)
        ensures
            r@ == join_path(join_path(root@, self.name@), uuid_text(uid)),
    {
        let dir = join(root, self.name.as_str());
        let text = uuid_string(uid);
        join(dir.as_str(), text.as_str())
    }

    /// The versions that `version` names, given the text of each version.
    pub fn select_versions(version: &str, versions: &Vec<u128>, texts: &Vec<String>) -> (r: Vec<u128>)
        requires
            texts@.len() == versions@.len(),
        ensures
            r@ == selected(version@, versions@, strs(texts@)),
    {
        proof {
            reveal_strlit("all");
        }
        let all = String::from_str("all");
        let wanted = String::from_str(version);
        let mut res: Vec<u128> = Vec::new();
        let ghost ts = strs(texts@);
        assert(versions@.take(0) =~= Seq::<u128>::empty());
        for i in 0..versions.len()
            invariant
                texts@.len() == versions@.len(),
                ts == strs(texts@),
                wanted@ == version@,
                all@ == "all"@,
                res@ == selected(version@, versions@.take(i as int), ts.take(i as int)),
        {
            proof {
                assert(versions@.take(i + 1).drop_last() =~= versions@.take(i as int));
                assert(ts.take(i + 1).drop_last() =~= ts.take(i as int));
                assert(ts.take(i + 1).last() == texts@[i as int]@);
            }
            if wanted == all || wanted == texts[i] {
                res.push(versions[i]);
            }
        }
        assert(versions@.take(versions@.len() as int) =~= versions@);
        assert(ts.take(versions@.len() as int) =~= ts);
        res
    }

    /// The versions of this pill that `version` names: an identifier's text,
    /// or `all`.
    pub fn matches_uuid(&self, version: &str) -> (r: Vec<u128>)
        ensures
            r@ == selected(version@, self.versions@, self.versions@.map_values(|v: u128| uuid_text(v))),
    {
        let mut texts: Vec<String> = Vec::new();
        for i in 0..self.versions.len()
            invariant
                texts@.len() == i,
                forall|j: int| 0 <= j < i ==> #[trigger] texts@[j]@ == uuid_text(self.versions@[j]),
        {
            texts.push(uuid_string(self.versions[i]));
        }
        let r = Self::select_versions(version, &self.versions, &texts);
        assert(strs(texts@) =~= self.versions@.map_values(|v: u128| uuid_text(v)));
        r
    }

    /// Forgets the versions in `uids`; the others keep their order.
    pub fn remove_uuids(&mut self, uids: &Vec<u128>)
        ensures
            final(self).name == old(self).name,
            final(self).site == old(self).site,
            final(self).versions@ == old(self).versions@.filter(|v: u128| !uids@.contains(v)),
    {
        let ghost pred = |v: u128| !uids@.contains(v);
        let ghost vs = self.versions@;
        let mut kept: Vec<u128> = Vec::new();
        reveal(Seq::filter);
        assert(vs.take(0) =~= Seq::<u128>::empty());
        for i in 0..self.versions.len()
            invariant
                vs == self.versions@,
                pred == (|v: u128| !uids@.contains(v)),
                kept@ == vs.take(i as int).filter(pred),
        {
            proof {
                reveal(Seq::filter);
                assert(vs.take(i + 1).drop_last() =~= vs.take(i as int));
                assert(vs.take(i + 1).last() == vs[i as int]);
            }
            let v = self.versions[i];
            if !contains_u128(uids, v) {
                kept.push(v);
            }
        }
        assert(vs.take(vs.len() as int) =~= vs);
        self.versions = kept;
    }

    /// Whether version `uid` may be removed, given whether its backup
    /// directory exists: a missing one is reported by its text.
    pub fn check_version_present(&self, uid: u128, dir_exists: bool) -> (r: Result<(), Error>)
        ensures
            r is Ok <==> dir_exists,
            r matches Err(e) ==> (e matches Error::VersionNotFound(t) && t@ == uuid_text(uid)),
    {
        if dir_exists {
            Ok(())
        } else {
            Err(Error::VersionNotFound(uuid_string(uid)))
        }
    }

    /// The most recent version, if any.
    pub fn last_version(&self) -> (r: Option<u128>)
        ensures
            self.versions@.len() == 0 ==> r is None,
            self.versions@.len() > 0 ==> r == Some(self.versions@.last()),
    {
        let n = self.versions.len();
        if n == 0 {
            None
        } else {
            Some(self.versions[n - 1])
        }
    }
}

/// What the filesystem holds at a site path before a dump.
#[derive(Debug, Clone, Copy, PartialEq, Eq, Structural)]
pub enum SiteState {
    /// a symlink, which the repo can rebuild
    Symlink,
    /// a file or a directory
    Present,
    Absent,
}

/// What a dump does with one site path.
#[derive(Debug, Clone, PartialEq, Eq)]
pub enum DumpAction {
    /// remove the symlink at `site`; nothing is kept
    RemoveLink { site: String },
    /// move `site` into the backup directory, at `backup`
    Move { site: String, backup: String },
    /// nothing is there
    Keep,
}

/// Whether `actions` move anything into the backup directory.
pub open spec fn moves_any(actions: Seq<DumpAction>) -> bool {
    exists|i: int| 0 <= i < actions.len() && #[trigger] actions[i] is Move
}

/// Whether `a` is what a dump does with `arrow`'s site path in state `st`,
/// backing up under `backup_dir`.
pub open spec fn is_dump_action(drip: Drip, backup_dir: Seq<char>, arrow: Arrow, st: SiteState, a: DumpAction) -> bool {
    let site = join_path(drip.site@, arrow.rel_site@);
    match st {
        SiteState::Symlink => a matches DumpAction::RemoveLink { site: s } && s@ == site,
        SiteState::Present => a matches DumpAction::Move { site: s, backup: b } && s@ == site && b@
            == join_path(backup_dir, arrow.rel_site@),
        SiteState::Absent => a is Keep,
    }
}

/// The index of every pill's backups. Pill names are unique in it.
#[derive(Debug, Clone)]
pub struct Dreamer {
    pub map: Vec<DreamDrip>,
}

impl Dreamer {
    /// No two entries share a name.
    pub open spec fn wf(&self) -> bool {
        forall|i: int, j: int|
            0 <= i < self.map@.len() && 0 <= j < self.map@.len() && i != j ==> self.map@[i].name@
                != self.map@[j].name@
    }

    /// An index with no history yet.
    pub fn new() -> (r: Self)
        ensures
            r.wf(),
            r.map@.len() == 0,
    {
        Dreamer { map: Vec::new() }
    }

    /// The position of the pill called `name`.
    pub fn find(&self, name: &String) -> (r: Option<usize>)
        ensures
            match r {
                Some(i) => i < self.map@.len() && self.map@[i as int].name@ == name@,
                None => forall|i: int| 0 <= i < self.map@.len() ==> #[trigger] self.map@[i].name@ != name@,
            },
    {
        for i in 0..self.map.len()
            invariant
                forall|j: int| 0 <= j < i ==> #[trigger] self.map@[j].name@ != name@,
        {
            if self.map[i].name == *name {
                return Some(i);
            }
        }
        None
    }

    /// What a dump of `drip` does with each arrow's site path, given what
    /// the filesystem holds there, backing up under `backup_dir`.
    pub fn dump_plan(drip: &Drip, backup_dir: &str, states: &Vec<SiteState>) -> (r: Vec<DumpAction>)
        requires
            states@.len() == drip.arrows@.len(),
        ensures
            r@.len() == drip.arrows@.len(),
            forall|i: int|
                0 <= i < r@.len() ==> is_dump_action(*drip, backup_dir@, #[trigger] drip.arrows@[i], states@[i], r@[i]),
    {
        let mut res: Vec<DumpAction> = Vec::new();
        for i in 0..drip.arrows.len()
            invariant
                states@.len() == drip.arrows@.len(),
                res@.len() == i,
                forall|j: int|
                    0 <= j < i ==> is_dump_action(*drip, backup_dir@, #[trigger] drip.arrows@[j], states@[j], res@[j]),
        {
            let arrow = &drip.arrows[i];
            let a = match states[i] {
                SiteState::Symlink => DumpAction::RemoveLink { site: join(drip.site.as_str(), arrow.rel_site.as_str()) },
                SiteState::Present => DumpAction::Move {
                    site: join(drip.site.as_str(), arrow.rel_site.as_str()),
                    backup: join(backup_dir, arrow.rel_site.as_str()),
                },
                SiteState::Absent => DumpAction::Keep,
            };
            res.push(a);
        }
        res
    }

    /// Records a dump of pill `name` as version `uid`, but only when the dump
    /// moved something: a dump of links and absent paths leaves no version.
    pub fn commit_dump(&mut self, name: &String, site: &String, uid: u128, actions: &Vec<DumpAction>)
        requires
            old(self).wf(),
        ensures
            final(self).wf(),
            !moves_any(actions@) ==> *final(self) == *old(self),
            moves_any(actions@) ==> (exists|i: int|
                0 <= i < old(self).map@.len() && old(self).map@[i].name@ == name@) ==> (exists|i: int|
                0 <= i < old(self).map@.len() && old(self).map@[i].name@ == name@
                    && final(self).map@ == old(self).map@.update(
                    i,
                    DreamDrip {
                        name: old(self).map@[i].name,
                        site: old(self).map@[i].site,
                        versions: final(self).map@[i].versions,
                    },
                ) && final(self).map@[i].versions@ == old(self).map@[i].versions@.push(uid)),
            moves_any(actions@) ==> (forall|i: int|
                0 <= i < old(self).map@.len() ==> old(self).map@[i].name@ != name@) ==> (final(self).map@.len()
                == old(self).map@.len() + 1 && final(self).map@.drop_last() == old(self).map@
                && final(self).map@.last().name == *name && final(self).map@.last().site == *site
                && final(self).map@.last().versions@ == seq![uid]),
    {
        let mut moved = false;
        for i in 0..actions.len()
            invariant
                moved == exists|j: int| 0 <= j < i && #[trigger] actions@[j] is Move,
        {
            if let DumpAction::Move { .. } = &actions[i] {
                moved = true;
            }
        }
        if !moved {
            return;
        }
        match self.find(name) {
            Some(i) => {
                let mut d = self.map.remove(i);
                let ghost old_d = d;
                d.versions.push(uid);
                self.map.insert(i, d);
                assert(self.map@ =~= old(self).map@.update(
                    i as int,
                    DreamDrip { name: old_d.name, site: old_d.site, versions: self.map@[i as int].versions },
                ));
            },
            None => {
                let mut versions: Vec<u128> = Vec::new();
                versions.push(uid);
                self.map.push(DreamDrip { name: name.clone(), site: site.clone(), versions });
            },
        }
    }

    /// Where each arrow's backup of version directory `backup_dir` goes back
    /// to: one (backup, site) pair per arrow.
    pub fn restore_plan(drip: &Drip, backup_dir: &str) -> (r: Vec<(String, String)>)
        ensures
            r@.len() == drip.arrows@.len(),
            forall|i: int|
                0 <= i < r@.len() ==> (#[trigger] r@[i]).0@ == join_path(backup_dir@, drip.arrows@[i].rel_site@)
                    && r@[i].1@ == join_path(drip.site@, drip.arrows@[i].rel_site@),
    {
        let mut res: Vec<(String, String)> = Vec::new();
        for i in 0..drip.arrows.len()
            invariant
                res@.len() == i,
                forall|j: int|
                    0 <= j < i ==> (#[trigger] res@[j]).0@ == join_path(backup_dir@, drip.arrows@[j].rel_site@)
                        && res@[j].1@ == join_path(drip.site@, drip.arrows@[j].rel_site@),
        {
            let rel = drip.arrows[i].rel_site.as_str();
            res.push((join(backup_dir, rel), join(drip.site.as_str(), rel)));
        }
        res
    }
}

/// Restoring a version moves each backup back to exactly the site path that
/// the dump moved it from.
pub proof fn lemma_restore_inverts_dump(
    drip: Drip,
    backup_dir: Seq<char>,
    states: Seq<SiteState>,
    dump: Seq<DumpAction>,
    restore: Seq<(String, String)>,
    i: int,
)
    requires
        states.len() == drip.arrows@.len(),
        dump.len() == drip.arrows@.len(),
        restore.len() == drip.arrows@.len(),
        forall|k: int| 0 <= k < dump.len() ==> is_dump_action(drip, backup_dir, #[trigger] drip.arrows@[k], states[k], dump[k]),
        forall|k: int|
            0 <= k < restore.len() ==> (#[trigger] restore[k]).0@ == join_path(backup_dir, drip.arrows@[k].rel_site@)
                && restore[k].1@ == join_path(drip.site@, drip.arrows@[k].rel_site@),
        0 <= i < dump.len(),
        dump[i] is Move,
    ensures
        dump[i] matches DumpAction::Move { site, backup } && restore[i].0@ == backup@ && restore[i].1@ == site@,
{
    assert(is_dump_action(drip, backup_dir, drip.arrows@[i], states[i], dump[i]));
    assert(restore[i].0@ == join_path(backup_dir, drip.arrows@[i].rel_site@));
}

/// A dump over site paths none of which holds a file or a directory moves
/// nothing, so it records no version.
pub proof fn lemma_nothing_present_no_version(drip: Drip, backup_dir: Seq<char>, states: Seq<SiteState>, dump: Seq<DumpAction>)
    requires
        states.len() == drip.arrows@.len(),
        dump.len() == drip.arrows@.len(),
        forall|k: int| 0 <= k < dump.len() ==> is_dump_action(drip, backup_dir, #[trigger] drip.arrows@[k], states[k], dump[k]),
        forall|k: int| 0 <= k < states.len() ==> #[trigger] states[k] != SiteState::Present,
    ensures
        !moves_any(dump),
{
    assert forall|k: int| 0 <= k < dump.len() implies !(#[trigger] dump[k] is Move) by {
        assert(is_dump_action(drip, backup_dir, drip.arrows@[k], states[k], dump[k]));
    }
}

} // verus!
