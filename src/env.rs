use vstd::prelude::*;
use crate::error::Error;
use crate::machine::Machine;
use crate::strs::{contains_string, extend_strings, lemma_str_set_concat, lemma_str_set_push, str_set, strs};

verus! {

/// One registered tag and the tags above it in the declarations.
#[derive(Debug, Clone)]
pub struct EnvEntry {
    pub tag: String,
    pub ancestors: Vec<String>,
}

/// A map from each declared tag to its upward dependencies, up to the root.
/// A tag may be registered more than once; its ancestors are then the union
/// over its entries.
#[derive(Debug, Clone)]
pub struct EnvMap {
    pub map: Vec<EnvEntry>,
}

/// The tags that a machine possesses: its own and all their ancestors.
#[derive(Debug, Clone)]
pub struct EnvSet {
    pub set: Vec<String>,
}

impl EnvSet {
    /// The tags possessed.
    pub open spec fn view(&self) -> Set<Seq<char>> {
        str_set(self.set@)
    }

    /// Whether the machine possesses `tag`.
    pub fn check(&self, tag: &str) -> (r: bool)
        ensures
            r == self@.contains(tag@),
    {
        let t = String::from_str(tag);
        contains_string(&self.set, &t)
    }

    /// Whether the machine possesses every tag of `tags`.
    pub fn check_all(&self, tags: &Vec<String>) -> (r: bool)
        ensures
            r == str_set(tags@).subset_of(self@),
    {
        for i in 0..tags.len()
            invariant
                forall|j: int| 0 <= j < i ==> self@.contains(#[trigger] tags@[j]@),
        {
            if !contains_string(&self.set, &tags[i]) {
                assert(str_set(tags@).contains(tags@[i as int]@));
                return false;
            }
        }
        true
    }
}

impl EnvMap {
    /// Whether `t` is registered.
    pub open spec fn declares(&self, t: Seq<char>) -> bool {
        exists|i: int| 0 <= i < self.map@.len() && #[trigger] self.map@[i].tag@ == t
    }

    /// Whether `a` is registered as an ancestor of `t`.
    pub open spec fn reaches(&self, t: Seq<char>, a: Seq<char>) -> bool {
        exists|i: int|
            0 <= i < self.map@.len() && #[trigger] self.map@[i].tag@ == t && str_set(
                self.map@[i].ancestors@,
            ).contains(a)
    }

    /// The tags reachable from `tags`, the tags themselves included.
    pub open spec fn closure(&self, tags: Seq<Seq<char>>) -> Set<Seq<char>> {
        Set::new(
            |a: Seq<char>|
                exists|j: int| 0 <= j < tags.len() && (a == #[trigger] tags[j] || self.reaches(tags[j], a)),
        )
    }

    /// The ancestors registered for `t` by the first `n` entries.
    pub open spec fn reached_by(&self, t: Seq<char>, n: int) -> Set<Seq<char>> {
        Set::new(
            |a: Seq<char>|
                exists|i: int|
                    0 <= i < n && #[trigger] self.map@[i].tag@ == t && str_set(
                        self.map@[i].ancestors@,
                    ).contains(a),
        )
    }

    /// A resolved machine passes a set of tags exactly when each of them is
    /// one of the machine's own tags or registered above one of them.
    pub proof fn lemma_gate_is_reachability(&self, machine: Machine, s: Seq<String>)
        ensures
            str_set(s).subset_of(self.closure(strs(machine.env@))) <==> forall|x: Seq<char>|
                #[trigger] str_set(s).contains(x) ==> exists|j: int|
                    0 <= j < machine.env@.len() && (x == machine.env@[j]@ || self.reaches(
                        machine.env@[j]@,
                        x,
                    )),
    {
        let tags = strs(machine.env@);
        assert forall|x: Seq<char>| #[trigger] self.closure(tags).contains(x) <==> exists|j: int|
            0 <= j < machine.env@.len() && (x == machine.env@[j]@ || self.reaches(machine.env@[j]@, x)) by {
            if self.closure(tags).contains(x) {
                let j = choose|j: int| 0 <= j < tags.len() && (x == #[trigger] tags[j] || self.reaches(tags[j], x));
                assert(tags[j] == machine.env@[j]@);
            }
            if exists|j: int| 0 <= j < machine.env@.len() && (x == machine.env@[j]@ || self.reaches(machine.env@[j]@, x)) {
                let j = choose|j: int| 0 <= j < machine.env@.len() && (x == machine.env@[j]@ || self.reaches(machine.env@[j]@, x));
                assert(tags[j] == machine.env@[j]@);
            }
        }
    }

    /// Collects the tag `tag` and everything registered above it.
    fn closure_of_tag(&self, tag: &String, out: &mut Vec<String>) -> (found: bool)
        ensures
            found == self.declares(tag@),
            found ==> str_set(final(out)@) == str_set(old(out)@).insert(tag@).union(
                self.reached_by(tag@, self.map@.len() as int),
            ),
    {
        let ghost start = out@;
        let mut found = false;
        out.push(tag.clone());
        proof {
            lemma_str_set_push(start, *tag);
            assert(self.reached_by(tag@, 0) =~= Set::empty());
        }
        for i in 0..self.map.len()
            invariant
                found == (exists|k: int| 0 <= k < i && #[trigger] self.map@[k].tag@ == tag@),
                str_set(out@) == str_set(start).insert(tag@).union(self.reached_by(tag@, i as int)),
        {
            let ghost before = out@;
            if self.map[i].tag == *tag {
                found = true;
                extend_strings(out, &self.map[i].ancestors);
                proof {
                    lemma_str_set_concat(before, self.map@[i as int].ancestors@);
                    assert(self.reached_by(tag@, i + 1) =~= self.reached_by(tag@, i as int).union(
                        str_set(self.map@[i as int].ancestors@),
                    ));
                }
            } else {
                assert(self.reached_by(tag@, i + 1) =~= self.reached_by(tag@, i as int));
            }
        }
        found
    }

    /// Resolves the machine's declared tags into their full ancestor closure.
    /// Fails with `UnknownTag` on the first machine tag that is not registered.
    pub fn resolve(&self, machine: &Machine) -> (r: Result<EnvSet, Error>)
        ensures
            match r {
                Ok(s) => {
                    &&& forall|j: int| 0 <= j < machine.env@.len() ==> self.declares(#[trigger] machine.env@[j]@)
                    &&& s@ == self.closure(strs(machine.env@))
                },
                Err(e) => exists|k: int|
                    0 <= k < machine.env@.len() && !self.declares(machine.env@[k]@) && (forall|j: int|
                        0 <= j < k ==> self.declares(#[trigger] machine.env@[j]@)) && e == Error::UnknownTag(
                        machine.env@[k],
                    ),
            },
    {
        let mut res: Vec<String> = Vec::new();
        let ghost tags = strs(machine.env@);
        assert(str_set(res@) =~= self.closure(tags.take(0)));
        for j in 0..machine.env.len()
            invariant
                tags == strs(machine.env@),
                forall|jj: int| 0 <= jj < j ==> self.declares(#[trigger] machine.env@[jj]@),
                str_set(res@) == self.closure(tags.take(j as int)),
        {
            let tag = &machine.env[j];
            let ghost before = res@;
            if !self.closure_of_tag(tag, &mut res) {
                return Err(Error::UnknownTag(tag.clone()));
            }
            proof {
                let t = tag@;
                assert(tags[j as int] == t);
                assert forall|a: Seq<char>| #[trigger] self.closure(tags.take(j + 1)).contains(a) <==> str_set(
                    res@,
                ).contains(a) by {
                    if self.closure(tags.take(j + 1)).contains(a) {
                        let jj = choose|jj: int|
                            0 <= jj < tags.take(j + 1).len() && (a == #[trigger] tags.take(j + 1)[jj]
                                || self.reaches(tags.take(j + 1)[jj], a));
                        if jj < j {
                            assert(tags.take(j as int)[jj] == tags.take(j + 1)[jj]);
                            assert(self.closure(tags.take(j as int)).contains(a));
                        } else if a != t {
                            let i = choose|i: int|
                                0 <= i < self.map@.len() && #[trigger] self.map@[i].tag@ == t
                                    && str_set(self.map@[i].ancestors@).contains(a);
                            assert(self.reached_by(t, self.map@.len() as int).contains(a));
                        }
                    }
                    if str_set(res@).contains(a) {
                        if str_set(before).contains(a) {
                            let jj = choose|jj: int|
                                0 <= jj < tags.take(j as int).len() && (a == #[trigger] tags.take(j as int)[jj]
                                    || self.reaches(tags.take(j as int)[jj], a));
                            assert(tags.take(j as int)[jj] == tags.take(j + 1)[jj]);
                        } else if a == t {
                            assert(tags.take(j + 1)[j as int] == t);
                        } else {
                            assert(self.reached_by(t, self.map@.len() as int).contains(a));
                            assert(tags.take(j + 1)[j as int] == t);
                            assert(self.reaches(t, a));
                        }
                    }
                }
                assert(self.closure(tags.take(j + 1)) =~= str_set(res@));
            }
        }
        assert(tags.take(machine.env@.len() as int) =~= tags);
        Ok(EnvSet { set: res })
    }
}

} // verus!
