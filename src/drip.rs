use vstd::prelude::*;

verus! {

/// Where the content of one leaf comes from.
#[derive(Debug, Clone, PartialEq, Eq)]
pub enum ArrowSrc {
    /// a git remote, cloned at the site
    Git(String),
    /// a path under the drip's repo root, symlinked at the site
    Link(String),
    /// a path under the drip's repo root, copied file by file
    Copy(String),
    /// a directory meant only to receive future untracked additions
    Collector,
}

/// One leaf mapping of a drip.
#[derive(Debug, Clone, PartialEq, Eq)]
pub struct Arrow {
    /// where the leaf is, relative to the drip's site root
    pub rel_site: String,
    pub src: ArrowSrc,
}

/// The effective description of one sync target.
#[derive(Debug, Clone, PartialEq, Eq)]
pub struct Drip {
    /// where the root of the site is, globally
    pub site: String,
    /// where the root of the drip is, relative to the repo root
    pub rel_repo: String,
    /// the leaves, in declaration order
    pub arrows: Vec<Arrow>,
    /// glob patterns excluded from this drip's copy walks, besides the
    /// machine's own
    pub ignore: Vec<String>,
}

impl Drip {
    /// A drip with no root and no leaves.
    pub fn empty() -> (r: Drip)
        ensures
            r.site@ == Seq::<char>::empty(),
            r.rel_repo@ == Seq::<char>::empty(),
            r.arrows@ == Seq::<Arrow>::empty(),
            r.ignore@ == Seq::<String>::empty(),
    {
        Drip { site: String::new(), rel_repo: String::new(), arrows: Vec::new(), ignore: Vec::new() }
    }
}

} // verus!
