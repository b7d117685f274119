use vstd::prelude::*;
use crate::error::Error;
use crate::path::ends_with_sep;
use crate::strs::strs;
use globset::{Glob, GlobSet};

verus! {

#[verifier::external_type_specification]
#[verifier::external_body]
pub struct ExGlob(globset::Glob);

#[verifier::external_type_specification]
#[verifier::external_body]
pub struct ExGlobSet(globset::GlobSet);

/// The pattern that a compiled glob was built from.
pub uninterp spec fn glob_text(g: Glob) -> Seq<char>;

/// The patterns, in order, that a glob set was built from.
pub uninterp spec fn glob_set_patterns(s: GlobSet) -> Seq<Seq<char>>;

/// Whether some pattern of `patterns` matches `path`, as globset decides it.
pub uninterp spec fn glob_set_match(patterns: Seq<Seq<char>>, path: Seq<char>) -> bool;

/// Whether globset accepts `p` as a glob pattern.
pub uninterp spec fn glob_accepts(p: Seq<char>) -> bool;

/// Whether globset can build one matcher over the patterns `ps`.
pub uninterp spec fn glob_set_builds(ps: Seq<Seq<char>>) -> bool;

/// Relies on `globset::Glob::new`: compiles one pattern, failing on a
/// malformed one (`None`); `Glob::glob` then gives the pattern back.
#[verifier::external_body]
fn compile_glob(pattern: &str) -> (r: Option<Glob>)
    ensures
        r is Some <==> glob_accepts(pattern@),
        r matches Some(g) ==> glob_text(g) == pattern@,
{
    Glob::new(pattern).ok()
}

/// Relies on `globset::GlobSet::new`: one matcher over all the globs given,
/// or `None` where the matcher cannot be built.
#[verifier::external_body]
fn compile_glob_set(globs: &Vec<Glob>) -> (r: Option<GlobSet>)
    ensures
        r is Some <==> glob_set_builds(globs@.map_values(|g: Glob| glob_text(g))),
        r matches Some(s) ==> glob_set_patterns(s) == globs@.map_values(|g: Glob| glob_text(g)),
{
    GlobSet::new(globs.iter()).ok()
}

/// Relies on `globset::GlobSet::is_match`: whether any glob of the set
/// matches the path; an empty set matches nothing.
#[verifier::external_body]
fn glob_set_is_match(s: &GlobSet, path: &str) -> (r: bool)
    ensures
        r == glob_set_match(glob_set_patterns(*s), path@),
        glob_set_patterns(*s).len() == 0 ==> !r,
{
    s.is_match(path)
}

/// A pattern as it is compiled: without one trailing separator.
pub open spec fn stripped_pattern(p: Seq<char>) -> Seq<char> {
    if ends_with_sep(p) {
        p.drop_last()
    } else {
        p
    }
}

/// Whether globset accepts every pattern of `ps`.
pub open spec fn all_accepted(ps: Seq<Seq<char>>) -> bool {
    forall|i: int| 0 <= i < ps.len() ==> glob_accepts(#[trigger] ps[i])
}

/// The patterns of `v`, each without one trailing separator.
pub open spec fn stripped_patterns(v: Seq<String>) -> Seq<Seq<char>> {
    strs(v).map_values(|p: Seq<char>| stripped_pattern(p))
}

/// Collects glob patterns from several sources before compiling them.
pub struct IgnoreSetBuilder {
    globs: Vec<Glob>,
}

/// A compiled set of glob patterns that excludes paths from copy walks.
pub struct IgnoreSet {
    globs: GlobSet,
}

impl IgnoreSetBuilder {
    /// The patterns added so far, as compiled.
    pub closed spec fn patterns(&self) -> Seq<Seq<char>> {
        self.globs@.map_values(|g: Glob| glob_text(g))
    }

    /// A builder with no pattern yet.
    pub fn new() -> (r: Self)
        ensures
            r.patterns() == Seq::<Seq<char>>::empty(),
    {
        let r = IgnoreSetBuilder { globs: Vec::new() };
        assert(r.patterns() =~= Seq::<Seq<char>>::empty());
        r
    }

    /// Adds every pattern of `ignore`, each without one trailing separator.
    /// Fails with `ConfigParse` holding the first pattern that is no glob.
    pub fn chain(self, ignore: &Vec<String>) -> (r: Result<Self, Error>)
        ensures
            r matches Ok(b) ==> b.patterns() == self.patterns() + strs(ignore@).map_values(
                |p: Seq<char>| stripped_pattern(p),
            ),
            r is Ok <==> all_accepted(strs(ignore@).map_values(|p: Seq<char>| stripped_pattern(p))),
            r matches Err(e) ==> (e matches Error::ConfigParse(p) && exists|i: int|
                0 <= i < ignore@.len() && #[trigger] ignore@[i]@ == p@),
    {
        let mut globs = self.globs;
        let ghost start = self.patterns();
        let ghost wanted = strs(ignore@).map_values(|p: Seq<char>| stripped_pattern(p));
        assert(globs@.map_values(|g: Glob| glob_text(g)) =~= start + wanted.take(0));
        for i in 0..ignore.len()
            invariant
                start == self.patterns(),
                all_accepted(wanted.take(i as int)),
                wanted == strs(ignore@).map_values(|p: Seq<char>| stripped_pattern(p)),
                globs@.map_values(|g: Glob| glob_text(g)) == start + wanted.take(i as int),
        {
            let p = &ignore[i];
            let stripped = strip_pattern(p.as_str());
            match compile_glob(stripped.as_str()) {
                Some(g) => {
                    let ghost before = globs@;
                    globs.push(g);
                    assert(globs@.map_values(|g: Glob| glob_text(g)) =~= before.map_values(
                        |g: Glob| glob_text(g),
                    ).push(glob_text(g)));
                    assert(wanted.take(i + 1) =~= wanted.take(i as int).push(wanted[i as int]));
                },
                None => {
                    assert(!glob_accepts(wanted[i as int]));
                    return Err(Error::ConfigParse(p.clone()));
                },
            }
        }
        assert(wanted.take(ignore@.len() as int) =~= wanted);
        Ok(IgnoreSetBuilder { globs })
    }

    /// Compiles the patterns into one matcher.
    pub fn build(self) -> (r: Result<IgnoreSet, Error>)
        ensures
            r is Ok <==> glob_set_builds(self.patterns()),
            r matches Ok(s) ==> s.patterns() == self.patterns(),
            r matches Err(e) ==> e is ConfigParse,
    {
        match compile_glob_set(&self.globs) {
            Some(globs) => Ok(IgnoreSet { globs }),
            None => Err(Error::ConfigParse(String::from_str("ignore"))),
        }
    }
}

/// `p` without one trailing separator.
fn strip_pattern(p: &str) -> (r: String)
    ensures
        r@ == stripped_pattern(p@),
{
    match crate::path::strip_sep_suffix(p) {
        Some(t) => t,
        None => String::from_str(p),
    }
}

impl IgnoreSet {
    /// The ignore set of one drip: the machine's patterns, then the drip's.
    pub fn for_drip(machine: &Vec<String>, drip: &Vec<String>) -> (r: Result<IgnoreSet, Error>)
        ensures
            r is Ok <==> all_accepted(stripped_patterns(machine@) + stripped_patterns(drip@)) && glob_set_builds(
                stripped_patterns(machine@) + stripped_patterns(drip@),
            ),
            r matches Ok(s) ==> s.patterns() == stripped_patterns(machine@) + stripped_patterns(drip@),
            r matches Err(e) ==> e is ConfigParse,
    {
        let ghost m = stripped_patterns(machine@);
        let ghost d = stripped_patterns(drip@);
        let b = IgnoreSetBuilder::new().chain(machine);
        let b = match b {
            Ok(b) => b,
            Err(e) => {
                proof {
                    assert(!all_accepted(m));
                    let i = choose|i: int| 0 <= i < m.len() && !glob_accepts(#[trigger] m[i]);
                    assert((m + d)[i] == m[i]);
                    assert(!all_accepted(m + d));
                }
                return Err(e);
            },
        };
        proof {
            assert(Seq::<Seq<char>>::empty() + m =~= m);
        }
        let b = match b.chain(drip) {
            Ok(b) => b,
            Err(e) => {
                proof {
                    assert(!all_accepted(d));
                    let i = choose|i: int| 0 <= i < d.len() && !glob_accepts(#[trigger] d[i]);
                    assert((m + d)[m.len() + i] == d[i]);
                    assert(!all_accepted(m + d));
                }
                return Err(e);
            },
        };
        proof {
            assert forall|i: int| 0 <= i < (m + d).len() implies glob_accepts(#[trigger] (m + d)[i]) by {
                if i < m.len() {
                    assert((m + d)[i] == m[i]);
                } else {
                    assert((m + d)[i] == d[i - m.len()]);
                }
            }
        }
        b.build()
    }

    /// The patterns that the set was compiled from.
    pub closed spec fn patterns(&self) -> Seq<Seq<char>> {
        glob_set_patterns(self.globs)
    }

    /// Whether some pattern of the set matches `path`.
    pub fn is_ignored(&self, path: &str) -> (r: bool)
        ensures
            r == glob_set_match(self.patterns(), path@),
            self.patterns().len() == 0 ==> !r,
    {
        glob_set_is_match(&self.globs, path)
    }
}

} // verus!
