use vstd::prelude::*;
use crate::drip::{Arrow, Drip};
use crate::env::EnvSet;
use crate::error::Error;
use crate::strs::str_set;

verus! {

/// One tag-gated fragment of a pill, as declared.
#[derive(Debug)]
pub struct Fragment {
    /// the tags that a machine must possess for the fragment to apply
    pub tags: Vec<String>,
    /// where the root of the site is, globally
    pub site: Option<String>,
    /// where the root of the drip is, relative to the repo root
    pub repo: Option<String>,
    pub arrows: Vec<Arrow>,
    /// glob patterns excluded from copy walks
    pub ignore: Vec<String>,
}

/// A pill as declared: a name and its fragments in declaration order.
#[derive(Debug)]
pub struct PillDecl {
    pub name: String,
    pub drips: Vec<Fragment>,
}

/// A named sync unit with its effective drip.
#[derive(Debug)]
pub struct Pill {
    pub name: String,
    pub drip: Drip,
}

impl Pill {
    /// Whether the pill has anything to do.
    pub fn non_empty(&self) -> (r: bool)
        ensures
            r == (self.drip.arrows@.len() > 0),
    {
        !self.drip.arrows.is_empty()
    }
}

/// What merging a list of fragments has accumulated.
pub ghost struct Merged {
    pub site: Option<Seq<char>>,
    pub repo: Option<Seq<char>>,
    pub arrows: Seq<Arrow>,
    pub ignore: Seq<String>,
    /// how many fragments were applied
    pub applied: nat,
}

/// The characters of an optional string.
pub open spec fn opt_view(o: Option<String>) -> Option<Seq<char>> {
    match o {
        Some(s) => Some(s@),
        None => None,
    }
}

/// Whether a machine possessing `env` takes the fragment.
pub open spec fn eligible(env: Set<Seq<char>>, f: Fragment) -> bool {
    str_set(f.tags@).subset_of(env)
}

/// The root key that both `acc` and `f` set, if any: the site is checked first.
pub open spec fn clash(acc: Merged, f: Fragment) -> Option<Seq<char>> {
    if acc.site is Some && f.site is Some {
        Some("site"@)
    } else if acc.repo is Some && f.repo is Some {
        Some("repo"@)
    } else {
        None
    }
}

/// Folds one fragment into `acc`: roots are adopted, arrows and ignore
/// patterns appended.
pub open spec fn combine(acc: Merged, f: Fragment) -> Merged {
    Merged {
        site: if f.site is Some { opt_view(f.site) } else { acc.site },
        repo: if f.repo is Some { opt_view(f.repo) } else { acc.repo },
        arrows: acc.arrows + f.arrows@,
        ignore: acc.ignore + f.ignore@,
        applied: acc.applied + 1,
    }
}

/// Nothing merged yet.
pub open spec fn merged_none() -> Merged {
    Merged { site: None, repo: None, arrows: seq![], ignore: seq![], applied: 0 }
}

/// Merges `frags` in order, skipping the ineligible ones; `Err(key)` when two
/// eligible fragments both set the root `key`.
pub open spec fn merge_fragments(env: Set<Seq<char>>, frags: Seq<Fragment>) -> Result<Merged, Seq<char>>
    decreases frags.len(),
{
    if frags.len() == 0 {
        Ok(merged_none())
    } else {
        match merge_fragments(env, frags.drop_last()) {
            Err(k) => Err(k),
            Ok(acc) => {
                let f = frags.last();
                if !eligible(env, f) {
                    Ok(acc)
                } else {
                    match clash(acc, f) {
                        Some(k) => Err(k),
                        None => Ok(combine(acc, f)),
                    }
                }
            },
        }
    }
}

/// Once two fragments clash, fragments after them change nothing.
pub proof fn lemma_merge_err_sticks(env: Set<Seq<char>>, frags: Seq<Fragment>, j: int)
    requires
        0 <= j <= frags.len(),
        merge_fragments(env, frags.take(j)) is Err,
    ensures
        merge_fragments(env, frags) == merge_fragments(env, frags.take(j)),
    decreases frags.len(),
{
    if j == frags.len() {
        assert(frags.take(j) =~= frags);
    } else {
        assert(frags.drop_last().take(j) =~= frags.take(j));
        lemma_merge_err_sticks(env, frags.drop_last(), j);
    }
}

/// Merging skips ineligible fragments entirely: merging a list gives what
/// merging only its eligible fragments, in the same order, gives.
pub proof fn lemma_merge_ignores_ineligible(env: Set<Seq<char>>, frags: Seq<Fragment>)
    ensures
        merge_fragments(env, frags) == merge_fragments(env, frags.filter(|f: Fragment| eligible(env, f))),
        forall|name: String, r: Result<Pill, Error>|
            pill_outcome(env, name, frags, r) == pill_outcome(env, name, frags.filter(|f: Fragment| eligible(env, f)), r),
    decreases frags.len(),
{
    let pred = |f: Fragment| eligible(env, f);
    reveal(Seq::filter);
    if frags.len() > 0 {
        lemma_merge_ignores_ineligible(env, frags.drop_last());
        let sub = frags.drop_last().filter(pred);
        if pred(frags.last()) {
            assert(frags.filter(pred) == sub.push(frags.last()));
            assert(sub.push(frags.last()).drop_last() =~= sub);
        } else {
            assert(frags.filter(pred) == sub);
        }
    }
}

/// Once an eligible fragment has set the site, every successful merge keeps one.
proof fn lemma_site_stays_set(env: Set<Seq<char>>, frags: Seq<Fragment>, i: int)
    requires
        0 <= i < frags.len(),
        eligible(env, frags[i]),
        frags[i].site is Some,
        merge_fragments(env, frags) is Ok,
    ensures
        merge_fragments(env, frags)->Ok_0.site is Some,
    decreases frags.len(),
{
    if i < frags.len() - 1 {
        lemma_site_stays_set(env, frags.drop_last(), i);
    }
}

/// Two eligible fragments that both set the site make the merge fail with
/// `DuplicateRoot`, whichever of them comes first.
pub proof fn lemma_double_site_fails(env: Set<Seq<char>>, frags: Seq<Fragment>, i: int, j: int)
    requires
        0 <= i < frags.len(),
        0 <= j < frags.len(),
        i != j,
        eligible(env, frags[i]),
        eligible(env, frags[j]),
        frags[i].site is Some,
        frags[j].site is Some,
    ensures
        merge_fragments(env, frags) is Err,
        forall|name: String, r: Result<Pill, Error>|
            pill_outcome(env, name, frags, r) ==> r matches Err(Error::DuplicateRoot(_)),
    decreases frags.len(),
{
    let (a, b) = if i < j { (i, j) } else { (j, i) };
    if b < frags.len() - 1 {
        lemma_double_site_fails(env, frags.drop_last(), a, b);
    } else if merge_fragments(env, frags.drop_last()) is Ok {
        lemma_site_stays_set(env, frags.drop_last(), a);
    }
}

/// The pill that merging `frags` under `env` yields, as `apply` returns it.
pub open spec fn pill_outcome(env: Set<Seq<char>>, name: String, frags: Seq<Fragment>, r: Result<Pill, Error>) -> bool {
    match merge_fragments(env, frags) {
        Err(k) => r matches Err(Error::DuplicateRoot(key)) && key@ == k,
        Ok(m) => if m.applied == 0 {
            r matches Ok(p) && p.name == name && p.drip.site@ == Seq::<char>::empty()
                && p.drip.rel_repo@ == Seq::<char>::empty() && p.drip.arrows@ == Seq::<Arrow>::empty()
                && p.drip.ignore@ == Seq::<String>::empty()
        } else if m.site is None {
            r == Err::<Pill, Error>(Error::MissingSite(name))
        } else {
            r matches Ok(p) && p.name == name && p.drip.site@ == m.site->0
                && p.drip.rel_repo@ == (if m.repo is Some { m.repo->0 } else { name@ })
                && p.drip.arrows@ == m.arrows && p.drip.ignore@ == m.ignore
        },
    }
}

/// Folds the eligible fragments of a pill, in declaration order, into one drip.
pub struct DripApplyIncr<'a> {
    pub drip: Fragment,
    pub envset: &'a EnvSet,
}

impl<'a> DripApplyIncr<'a> {
    /// What has been accumulated so far.
    pub open spec fn acc(&self, applied: nat) -> Merged {
        Merged {
            site: opt_view(self.drip.site),
            repo: opt_view(self.drip.repo),
            arrows: self.drip.arrows@,
            ignore: self.drip.ignore@,
            applied,
        }
    }

    /// An accumulator holding nothing yet.
    pub fn new(envset: &'a EnvSet) -> (r: Self)
        ensures
            r.acc(0) == merged_none(),
            r.drip.tags@.len() == 0,
            r.envset == envset,
    {
        DripApplyIncr {
            drip: Fragment { tags: Vec::new(), site: None, repo: None, arrows: Vec::new(), ignore: Vec::new() },
            envset,
        }
    }

    /// Folds `drip` into the accumulator whatever its tags. Fails, leaving the
    /// roots unchanged, when both already carry a site or both carry a repo.
    pub fn apply_unchecked(&mut self, drip: Fragment) -> (r: Result<(), Error>)
        ensures
            final(self).envset == old(self).envset,
            match clash(old(self).acc(0), drip) {
                Some(k) => r matches Err(Error::DuplicateRoot(key)) && key@ == k && final(self).acc(0) == old(self).acc(0),
                None => r is Ok && final(self).acc(1) == combine(old(self).acc(0), drip),
            },
    {
        let Fragment { tags: _, site, repo, mut arrows, mut ignore } = drip;
        if site.is_some() && self.drip.site.is_some() {
            return Err(Error::DuplicateRoot(String::from_str("site")));
        }
        if repo.is_some() && self.drip.repo.is_some() {
            return Err(Error::DuplicateRoot(String::from_str("repo")));
        }
        if site.is_some() {
            self.drip.site = site;
        }
        if repo.is_some() {
            self.drip.repo = repo;
        }
        self.drip.arrows.append(&mut arrows);
        self.drip.ignore.append(&mut ignore);
        Ok(())
    }

    /// Merges the eligible fragments of `pill`. A pill with no eligible
    /// fragment gives an empty drip; otherwise one fragment must set the site,
    /// and the repo root defaults to the pill's name.
    pub fn apply(self, pill: PillDecl) -> (r: Result<Pill, Error>)
        requires
            self.acc(0) == merged_none(),
        ensures
            pill_outcome(self.envset@, pill.name, pill.drips@, r),
    {
        let mut this = self;
        let PillDecl { name, mut drips } = pill;
        let ghost frags = drips@;
        let ghost env = this.envset@;
        let mut cnt: usize = 0;
        let n = drips.len();
        assert(frags.take(0) =~= Seq::<Fragment>::empty());
        for i in 0..n
            invariant
                n == frags.len(),
                frags == pill.drips@,
                env == self.envset@,
                drips@ == frags.skip(i as int),
                this.envset@ == env,
                cnt <= i,
                merge_fragments(env, frags.take(i as int)) == Ok::<Merged, Seq<char>>(this.acc(cnt as nat)),
        {
            let drip = drips.remove(0);
            proof {
                assert(drip == frags[i as int]);
                assert(frags.skip(i as int).remove(0) =~= frags.skip(i + 1));
                assert(frags.take(i + 1).drop_last() =~= frags.take(i as int));
                assert(frags.take(i + 1).last() == frags[i as int]);
            }
            if this.envset.check_all(&drip.tags) {
                let ghost before = this.acc(cnt as nat);
                let res = this.apply_unchecked(drip);
                if let Err(e) = res {
                    proof {
                        assert(clash(before, drip) is Some);
                        assert(eligible(env, frags[i as int]));
                        lemma_merge_err_sticks(env, frags, i + 1);
                    }
                    return Err(e);
                }
                cnt = cnt + 1;
            }
        }
        assert(frags.take(n as int) =~= frags);
        if cnt == 0 {
            return Ok(Pill { name, drip: Drip::empty() });
        }
        let site = match this.drip.site {
            Some(s) => s,
            None => {
                return Err(Error::MissingSite(name));
            },
        };
        let rel_repo = match this.drip.repo {
            Some(r) => r,
            None => name.clone(),
        };
        Ok(Pill { name, drip: Drip { site, rel_repo, arrows: this.drip.arrows, ignore: this.drip.ignore } })
    }
}

} // verus!
