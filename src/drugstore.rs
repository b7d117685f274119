use vstd::prelude::*;
use vstd::string::*;
use crate::conf::{
    get, key_list, keys_within, lookup, parse_document, str_of, string_of, strings_of, strs_of,
    toml_accepts, toml_document, unknown_key, ConfValue,
};
use crate::decl::{decl_entries, entries_view};
use crate::drip::{Arrow, ArrowSrc, Drip};
use crate::machine::Machine;
use crate::store::{merge_fragments, opt_view, DripApplyIncr, Merged, Pill};
use indexmap::IndexMap;
use crate::env::{EnvMap, EnvSet};
use crate::error::Error;
use crate::strs::{lemma_str_set_by_view, str_set, strs};
use crate::store::{Fragment, PillDecl};

verus! {

/// The keys an arrow table may hold.
pub open spec fn arrow_keys() -> Set<Seq<char>> {
    set!["site"@, "remote"@, "link"@, "copy"@]
}

/// The keys a drip table may hold.
pub open spec fn fragment_keys() -> Set<Seq<char>> {
    set!["env"@, "site"@, "repo"@, "arrow"@, "ignore"@]
}

/// The keys a pill table may hold.
pub open spec fn pill_keys() -> Set<Seq<char>> {
    set!["name"@, "drip"@]
}

/// Whether `a` is the arrow that the table `v` declares: a `site`, and at
/// most one source among `remote`, `link` and `copy` (none: a collector).
pub open spec fn arrow_from(v: ConfValue, a: Arrow) -> bool {
    v matches ConfValue::Table(t) && {
        let t = t@;
        &&& keys_within(t, arrow_keys())
        &&& str_of(lookup(t, "site"@)) == Some(a.rel_site@)
        &&& match a.src {
            ArrowSrc::Git(r) => str_of(lookup(t, "remote"@)) == Some(r@) && lookup(t, "link"@) is None
                && lookup(t, "copy"@) is None,
            ArrowSrc::Link(p) => str_of(lookup(t, "link"@)) == Some(p@) && lookup(t, "remote"@) is None
                && lookup(t, "copy"@) is None,
            ArrowSrc::Copy(p) => str_of(lookup(t, "copy"@)) == Some(p@) && lookup(t, "remote"@) is None
                && lookup(t, "link"@) is None,
            ArrowSrc::Collector => lookup(t, "remote"@) is None && lookup(t, "link"@) is None
                && lookup(t, "copy"@) is None,
        }
    }
}

/// Whether `v` holds an array of tables that declare `arrows`, in order.
pub open spec fn arrows_from(v: Option<ConfValue>, arrows: Seq<Arrow>) -> bool {
    match v {
        None => arrows.len() == 0,
        Some(ConfValue::Array(items)) => items@.len() == arrows.len() && forall|i: int|
            0 <= i < arrows.len() ==> arrow_from(#[trigger] items@[i], arrows[i]),
        _ => false,
    }
}

/// The value behind an optional reference.
pub open spec fn owned(v: Option<&ConfValue>) -> Option<ConfValue> {
    match v {
        Some(x) => Some(*x),
        None => None,
    }
}

/// Whether `f` is the fragment that the table `v` declares.
pub open spec fn fragment_from(v: ConfValue, f: Fragment) -> bool {
    v matches ConfValue::Table(t) && {
        let t = t@;
        &&& keys_within(t, fragment_keys())
        &&& (if lookup(t, "env"@) is None { f.tags@.len() == 0 } else { strs_of(lookup(t, "env"@)) == Some(strs(f.tags@)) })
        &&& (if lookup(t, "site"@) is None { f.site is None } else { str_of(lookup(t, "site"@)) is Some && str_of(lookup(t, "site"@)) == opt_view(f.site) })
        &&& (if lookup(t, "repo"@) is None { f.repo is None } else { str_of(lookup(t, "repo"@)) is Some && str_of(lookup(t, "repo"@)) == opt_view(f.repo) })
        &&& arrows_from(lookup(t, "arrow"@), f.arrows@)
        &&& (if lookup(t, "ignore"@) is None { f.ignore@.len() == 0 } else { strs_of(lookup(t, "ignore"@)) == Some(strs(f.ignore@)) })
    }
}

/// Whether `p` is the pill that the table `v` declares.
pub open spec fn pill_from(v: ConfValue, p: PillDecl) -> bool {
    v matches ConfValue::Table(t) && {
        let t = t@;
        &&& keys_within(t, pill_keys())
        &&& str_of(lookup(t, "name"@)) == Some(p.name@)
        &&& lookup(t, "drip"@) matches Some(ConfValue::Array(items)) && items@.len() == p.drips@.len() && forall|i: int|
            0 <= i < items@.len() ==> fragment_from(#[trigger] items@[i], p.drips@[i])
    }
}

fn parse_error(what: &str) -> (r: Error)
    ensures
        r matches Error::ConfigParse(s) && s@ == what@,
{
    Error::ConfigParse(String::from_str(what))
}

/// The arrow that the table `v` declares.
pub fn arrow_of(v: &ConfValue) -> (r: Result<Arrow, Error>)
    ensures
        r matches Ok(a) ==> arrow_from(*v, a),
        r is Err ==> (r->Err_0 is ConfigParse && forall|a: Arrow| !#[trigger] arrow_from(*v, a)),
{
    let t = match v {
        ConfValue::Table(t) => t,
        _ => {
            return Err(parse_error("arrow"));
        },
    };
    let allowed = key_list(&["site", "remote", "link", "copy"]);
    assert(str_set(allowed@) =~= arrow_keys()) by {
        assert(allowed@[0]@ == "site"@);
        assert(allowed@[1]@ == "remote"@);
        assert(allowed@[2]@ == "link"@);
        assert(allowed@[3]@ == "copy"@);
    }
    if let Some(k) = unknown_key(t, &allowed) {
        return Err(Error::ConfigParse(k));
    }
    let rel_site = match string_of(get(t, "site")) {
        Some(s) => s,
        None => {
            return Err(parse_error("arrow.site"));
        },
    };
    let remote = get(t, "remote");
    let link = get(t, "link");
    let copy = get(t, "copy");
    let src = if remote.is_some() {
        if link.is_some() || copy.is_some() {
            return Err(parse_error("arrow"));
        }
        match string_of(remote) {
            Some(s) => ArrowSrc::Git(s),
            None => {
                return Err(parse_error("arrow.remote"));
            },
        }
    } else if link.is_some() {
        if copy.is_some() {
            return Err(parse_error("arrow"));
        }
        match string_of(link) {
            Some(s) => ArrowSrc::Link(s),
            None => {
                return Err(parse_error("arrow.link"));
            },
        }
    } else if copy.is_some() {
        match string_of(copy) {
            Some(s) => ArrowSrc::Copy(s),
            None => {
                return Err(parse_error("arrow.copy"));
            },
        }
    } else {
        ArrowSrc::Collector
    };
    Ok(Arrow { rel_site, src })
}

/// The arrows that `v` declares: none when it is absent.
fn arrows_of(v: Option<&ConfValue>) -> (r: Result<Vec<Arrow>, Error>)
    ensures
        r matches Ok(l) ==> arrows_from(owned(v), l@),
        r is Err ==> (r->Err_0 is ConfigParse && forall|l: Seq<Arrow>| !#[trigger] arrows_from(owned(v), l)),
{
    match v {
        None => Ok(Vec::new()),
        Some(ConfValue::Array(items)) => {
            let mut out: Vec<Arrow> = Vec::new();
            for i in 0..items.len()
                invariant
                    v is Some && *v->0 == ConfValue::Array(*items),
                    out@.len() == i,
                    forall|j: int| 0 <= j < i ==> arrow_from(#[trigger] items@[j], out@[j]),
            {
                match arrow_of(&items[i]) {
                    Ok(a) => out.push(a),
                    Err(e) => {
                        assert forall|l: Seq<Arrow>| !#[trigger] arrows_from(owned(v), l) by {
                            if arrows_from(owned(v), l) {
                                assert(arrow_from(items@[i as int], l[i as int]));
                            }
                        }
                        return Err(e);
                    },
                }
            }
            Ok(out)
        },
        Some(_) => Err(parse_error("arrow")),
    }
}

/// The fragment that the table `v` declares.
pub fn fragment_of(v: &ConfValue) -> (r: Result<Fragment, Error>)
    ensures
        r matches Ok(f) ==> fragment_from(*v, f),
        r is Err ==> (r->Err_0 is ConfigParse && forall|f: Fragment| !#[trigger] fragment_from(*v, f)),
{
    let t = match v {
        ConfValue::Table(t) => t,
        _ => {
            return Err(parse_error("drip"));
        },
    };
    let allowed = key_list(&["env", "site", "repo", "arrow", "ignore"]);
    assert(str_set(allowed@) =~= fragment_keys()) by {
        assert(allowed@[0]@ == "env"@);
        assert(allowed@[1]@ == "site"@);
        assert(allowed@[2]@ == "repo"@);
        assert(allowed@[3]@ == "arrow"@);
        assert(allowed@[4]@ == "ignore"@);
    }
    if let Some(k) = unknown_key(t, &allowed) {
        return Err(Error::ConfigParse(k));
    }
    let env = get(t, "env");
    let tags = if env.is_none() {
        Vec::new()
    } else {
        match strings_of(env) {
            Some(l) => l,
            None => {
                return Err(parse_error("drip.env"));
            },
        }
    };
    let site_v = get(t, "site");
    let site = if site_v.is_none() {
        None
    } else {
        match string_of(site_v) {
            Some(s) => Some(s),
            None => {
                return Err(parse_error("drip.site"));
            },
        }
    };
    let repo_v = get(t, "repo");
    let repo = if repo_v.is_none() {
        None
    } else {
        match string_of(repo_v) {
            Some(s) => Some(s),
            None => {
                return Err(parse_error("drip.repo"));
            },
        }
    };
    let arrows = arrows_of(get(t, "arrow"))?;
    let ignore_v = get(t, "ignore");
    let ignore = if ignore_v.is_none() {
        Vec::new()
    } else {
        match strings_of(ignore_v) {
            Some(l) => l,
            None => {
                return Err(parse_error("drip.ignore"));
            },
        }
    };
    Ok(Fragment { tags, site, repo, arrows, ignore })
}

/// The pill that the table `v` declares.
pub fn pill_of(v: &ConfValue) -> (r: Result<PillDecl, Error>)
    ensures
        r matches Ok(p) ==> pill_from(*v, p),
        r is Err ==> (r->Err_0 is ConfigParse && forall|p: PillDecl| !#[trigger] pill_from(*v, p)),
{
    let t = match v {
        ConfValue::Table(t) => t,
        _ => {
            return Err(parse_error("pill"));
        },
    };
    let allowed = key_list(&["name", "drip"]);
    assert(str_set(allowed@) =~= pill_keys()) by {
        assert(allowed@[0]@ == "name"@);
        assert(allowed@[1]@ == "drip"@);
    }
    if let Some(k) = unknown_key(t, &allowed) {
        return Err(Error::ConfigParse(k));
    }
    let name = match string_of(get(t, "name")) {
        Some(s) => s,
        None => {
            return Err(parse_error("pill.name"));
        },
    };
    let items = match get(t, "drip") {
        Some(ConfValue::Array(items)) => items,
        _ => {
            return Err(parse_error("pill.drip"));
        },
    };
    let mut drips: Vec<Fragment> = Vec::new();
    for i in 0..items.len()
        invariant
            *v == ConfValue::Table(*t),
            lookup(t@, "drip"@) == Some(ConfValue::Array(*items)),
            drips@.len() == i,
            forall|j: int| 0 <= j < i ==> fragment_from(#[trigger] items@[j], drips@[j]),
    {
        match fragment_of(&items[i]) {
            Ok(f) => drips.push(f),
            Err(e) => {
                assert forall|p: PillDecl| !#[trigger] pill_from(*v, p) by {
                    if pill_from(*v, p) {
                        assert(fragment_from(items@[i as int], p.drips@[i as int]));
                    }
                }
                return Err(e);
            },
        }
    }
    Ok(PillDecl { name, drips })
}

#[verifier::external_type_specification]
#[verifier::external_body]
#[verifier::reject_recursive_types(K)]
#[verifier::reject_recursive_types(V)]
#[verifier::reject_recursive_types(S)]
pub struct ExIndexMap<K, V, S>(indexmap::IndexMap<K, V, S>);

/// The entries of a map of pills, in insertion order.
pub uninterp spec fn pill_entries(m: IndexMap<String, Drip>) -> Seq<(Seq<char>, Drip)>;

/// Whether `k` is a key of `m`.
pub open spec fn has_pill(m: IndexMap<String, Drip>, k: Seq<char>) -> bool {
    exists|i: int| 0 <= i < pill_entries(m).len() && #[trigger] pill_entries(m)[i].0 == k
}

/// Relies on `IndexMap::new`: an empty map.
#[verifier::external_body]
fn pill_map_new() -> (r: IndexMap<String, Drip>)
    ensures
        pill_entries(r) == Seq::<(Seq<char>, Drip)>::empty(),
{
    IndexMap::new()
}

/// Relies on `IndexMap::contains_key`: whether an equal key is present.
#[verifier::external_body]
fn pill_map_contains(m: &IndexMap<String, Drip>, k: &String) -> (r: bool)
    ensures
        r == has_pill(*m, k@),
{
    m.contains_key(k)
}

/// Relies on `IndexMap::insert`: a key that is not present yet is added
/// last, after every other entry.
#[verifier::external_body]
fn pill_map_insert(m: &mut IndexMap<String, Drip>, k: String, v: Drip)
    requires
        !has_pill(*old(m), k@),
    ensures
        pill_entries(*final(m)) == pill_entries(*old(m)).push((k@, v)),
{
    m.insert(k, v);
}

/// Relies on `IndexMap::len`: the number of entries.
#[verifier::external_body]
fn pill_map_len(m: &IndexMap<String, Drip>) -> (r: usize)
    ensures
        r == pill_entries(*m).len(),
{
    m.len()
}

/// Relies on `IndexMap::get_index`: the entry at a position of the
/// insertion order.
#[verifier::external_body]
fn pill_map_get_index(m: &IndexMap<String, Drip>, i: usize) -> (r: Option<(&String, &Drip)>)
    ensures
        r is Some <==> i < pill_entries(*m).len(),
        r matches Some(p) ==> p.0@ == pill_entries(*m)[i as int].0 && *p.1 == pill_entries(*m)[i as int].1,
{
    m.get_index(i)
}

/// Why assembling a drugstore fails.
pub ghost enum StoreFault {
    DuplicatePill(Seq<char>),
    DuplicateRoot(Seq<char>),
    MissingSite(Seq<char>),
}

/// Whether `e` reports `f`.
pub open spec fn reports(e: Error, f: StoreFault) -> bool {
    match f {
        StoreFault::DuplicatePill(n) => e matches Error::DuplicatePill(x) && x@ == n,
        StoreFault::DuplicateRoot(k) => e matches Error::DuplicateRoot(x) && x@ == k,
        StoreFault::MissingSite(n) => e matches Error::MissingSite(x) && x@ == n,
    }
}

/// Whether `kept` names the pill `n`.
pub open spec fn names_pill(kept: Seq<(Seq<char>, Merged)>, n: Seq<char>) -> bool {
    exists|i: int| 0 <= i < kept.len() && #[trigger] kept[i].0 == n
}

/// The pills that a drugstore keeps, in declaration order, with what their
/// fragments merge to: pills left with no arrow are dropped. A name may not
/// repeat one already kept.
pub open spec fn assemble(env: Set<Seq<char>>, decls: Seq<PillDecl>) -> Result<Seq<(Seq<char>, Merged)>, StoreFault>
    decreases decls.len(),
{
    if decls.len() == 0 {
        Ok(seq![])
    } else {
        match assemble(env, decls.drop_last()) {
            Err(f) => Err(f),
            Ok(kept) => {
                let d = decls.last();
                if names_pill(kept, d.name@) {
                    Err(StoreFault::DuplicatePill(d.name@))
                } else {
                    match merge_fragments(env, d.drips@) {
                        Err(k) => Err(StoreFault::DuplicateRoot(k)),
                        Ok(m) => if m.applied == 0 || m.arrows.len() == 0 && m.site is Some {
                            Ok(kept)
                        } else if m.site is None {
                            Err(StoreFault::MissingSite(d.name@))
                        } else {
                            Ok(kept.push((d.name@, m)))
                        },
                    }
                }
            },
        }
    }
}

/// Whether `drip` is the effective drip of the pill `name` that merged to `m`.
pub open spec fn drip_of(name: Seq<char>, m: Merged, drip: Drip) -> bool {
    &&& drip.site@ == m.site->0
    &&& drip.rel_repo@ == (if m.repo is Some { m.repo->0 } else { name })
    &&& drip.arrows@ == m.arrows
    &&& drip.ignore@ == m.ignore
}

/// Whether the map's entries are exactly the kept pills.
pub open spec fn holds_pills(m: IndexMap<String, Drip>, kept: Seq<(Seq<char>, Merged)>) -> bool {
    &&& pill_entries(m).len() == kept.len()
    &&& forall|i: int|
        0 <= i < kept.len() ==> #[trigger] pill_entries(m)[i].0 == kept[i].0 && drip_of(kept[i].0, kept[i].1, pill_entries(m)[i].1)
}

/// Whether `r` is what assembling `decl` for `machine` gives: the tutorial
/// blocks first, then an undeclared machine tag, then the first pill's fault;
/// otherwise the drugstore keeps exactly the assembled pills.
pub open spec fn decl_outcome(decl: DrugstoreDecl, machine: Machine, r: Result<Drugstore, Error>) -> bool {
    &&& decl.tutorial ==> r == Err::<Drugstore, Error>(Error::TutorialIncomplete)
    &&& !decl.tutorial ==> (exists|j: int| 0 <= j < machine.env@.len() && !decl.env.declares(#[trigger] machine.env@[j]@))
        ==> (r matches Err(Error::UnknownTag(_)))
    &&& !decl.tutorial ==> (forall|j: int| 0 <= j < machine.env@.len() ==> decl.env.declares(#[trigger] machine.env@[j]@))
        ==> match assemble(decl.env.closure(strs(machine.env@)), decl.pills@) {
        Err(f) => (r matches Err(e) && reports(e, f)),
        Ok(kept) => (r matches Ok(s) && s.env@ == decl.env.closure(strs(machine.env@)) && holds_pills(s.pills, kept)),
    }
}

/// A drugstore as declared: the tag map, the pills, and whether the
/// tutorial still blocks it.
pub struct DrugstoreDecl {
    pub env: EnvMap,
    pub pills: Vec<PillDecl>,
    pub tutorial: bool,
}

/// The machine's resolved tags and its effective pills, by name in
/// declaration order.
pub struct Drugstore {
    pub env: EnvSet,
    pub pills: IndexMap<String, Drip>,
}

impl Drugstore {
    /// Resolves the machine's tags and merges every pill. Fails with
    /// `TutorialIncomplete` while the tutorial blocks, with `UnknownTag` for a
    /// machine tag that is not declared, and with the first pill's fault
    /// otherwise.
    pub fn from_decl(decl: DrugstoreDecl, machine: &Machine) -> (r: Result<Drugstore, Error>)
        ensures
            decl_outcome(decl, *machine, r),
    {
        if decl.tutorial {
            return Err(Error::TutorialIncomplete);
        }
        let env = decl.env.resolve(machine)?;
        let ghost envv = env@;
        let DrugstoreDecl { env: _, pills: mut decls, tutorial: _ } = decl;
        let ghost all = decls@;
        let n = decls.len();
        let mut pills = pill_map_new();
        assert(all.take(0) =~= Seq::<PillDecl>::empty());
        for i in 0..n
            invariant
                n == all.len(),
                envv == env@,
                !decl.tutorial,
                forall|j: int| 0 <= j < machine.env@.len() ==> decl.env.declares(#[trigger] machine.env@[j]@),
                envv == decl.env.closure(strs(machine.env@)),
                all == decl.pills@,
                decls@ == all.skip(i as int),
                assemble(envv, all.take(i as int)) matches Ok(kept) && holds_pills(pills, kept),
        {
            let pill = decls.remove(0);
            let ghost kept = assemble(envv, all.take(i as int))->Ok_0;
            proof {
                assert(pill == all[i as int]);
                assert(all.skip(i as int).remove(0) =~= all.skip(i + 1));
                assert(all.take(i + 1).drop_last() =~= all.take(i as int));
                assert(all.take(i + 1).last() == all[i as int]);
            }
            if pill_map_contains(&pills, &pill.name) {
                proof {
                    let k = choose|k: int| 0 <= k < pill_entries(pills).len() && #[trigger] pill_entries(pills)[k].0 == pill.name@;
                    assert(kept[k].0 == pill.name@);
                    assert(names_pill(kept, pill.name@));
                    lemma_assemble_err_sticks(envv, all, i + 1);
                }
                return Err(Error::DuplicatePill(pill.name));
            }
            proof {
                assert forall|k: int| 0 <= k < kept.len() implies #[trigger] kept[k].0 != pill.name@ by {
                    assert(pill_entries(pills)[k].0 == kept[k].0);
                }
            }
            let name = pill.name.clone();
            let ghost frags = pill.drips@;
            let applied = DripApplyIncr::new(&env).apply(pill);
            match applied {
                Err(e) => {
                    proof {
                        lemma_assemble_err_sticks(envv, all, i + 1);
                    }
                    return Err(e);
                },
                Ok(p) => {
                    if p.non_empty() {
                        let Pill { name: _, drip } = p;
                        pill_map_insert(&mut pills, name, drip);
                    }
                },
            }
        }
        assert(all.take(n as int) =~= all);
        Ok(Drugstore { env, pills })
    }

    /// How many pills the drugstore keeps.
    pub fn pill_count(&self) -> (r: usize)
        ensures
            r == pill_entries(self.pills).len(),
    {
        pill_map_len(&self.pills)
    }

    /// The name and drip of the `i`-th pill, in declaration order.
    pub fn pill_at(&self, i: usize) -> (r: Option<(&String, &Drip)>)
        ensures
            r is Some <==> i < pill_entries(self.pills).len(),
            r matches Some(p) ==> p.0@ == pill_entries(self.pills)[i as int].0 && *p.1 == pill_entries(self.pills)[i as int].1,
    {
        pill_map_get_index(&self.pills, i)
    }

    /// Whether the drugstore keeps a pill called `name`.
    pub fn has_pill(&self, name: &String) -> (r: bool)
        ensures
            r == has_pill(self.pills, name@),
    {
        pill_map_contains(&self.pills, name)
    }

    /// Parses a drugstore written in TOML and assembles it for `machine`.
    /// Fails with `ConfigParse` when the text is no TOML document or not
    /// a drugstore; otherwise gives what assembling its declaration gives.
    pub fn try_from(text: &str, machine: &Machine) -> (r: Result<Drugstore, Error>)
        ensures
            !toml_accepts(text@) ==> r matches Err(Error::ConfigParse(_)),
            toml_accepts(text@) && (forall|d: DrugstoreDecl| !#[trigger] store_decl_from(toml_document(text@), d))
                ==> r matches Err(Error::ConfigParse(_)),
            forall|d: DrugstoreDecl|
                toml_accepts(text@) && #[trigger] store_decl_from(toml_document(text@), d) ==> (r is Ok <==> assembles(
                    d,
                    machine.env@,
                )),
            toml_accepts(text@) && (exists|d: DrugstoreDecl| #[trigger] store_decl_from(toml_document(text@), d))
                ==> exists|d: DrugstoreDecl| #[trigger] store_decl_from(toml_document(text@), d) && decl_outcome(d, *machine, r),
    {
        let conf = match parse_document(text) {
            Some(c) => c,
            None => {
                return Err(parse_error("toml"));
            },
        };
        let decl = DrugstoreDecl::from_conf(&conf)?;
        let ghost d = decl;
        let r = Self::from_decl(decl, machine);
        proof {
            assert(store_decl_from(toml_document(text@), d) && decl_outcome(d, *machine, r));
            assert(r is Ok <==> assembles(d, machine.env@));
            assert forall|d2: DrugstoreDecl| toml_accepts(text@) && #[trigger] store_decl_from(toml_document(text@), d2)
                implies (r is Ok <==> assembles(d2, machine.env@)) by {
                lemma_assembles_agree(toml_document(text@), d, d2, machine.env@);
            }
        }
        r
    }
}

/// What of a fragment decides how merging goes: its tags, its roots and how
/// many arrows it has.
pub open spec fn frag_key(f: Fragment) -> (Set<Seq<char>>, Option<Seq<char>>, Option<Seq<char>>, nat) {
    (str_set(f.tags@), opt_view(f.site), opt_view(f.repo), f.arrows@.len())
}

/// What of a merge decides how assembling goes.
pub open spec fn merge_shape(r: Result<Merged, Seq<char>>) -> Result<(Option<Seq<char>>, Option<Seq<char>>, nat, nat), Seq<char>> {
    match r {
        Ok(m) => Ok((m.site, m.repo, m.arrows.len(), m.applied)),
        Err(k) => Err(k),
    }
}

/// Whether two lists of fragments agree on what decides their merge.
pub open spec fn frags_agree(a: Seq<Fragment>, b: Seq<Fragment>) -> bool {
    a.len() == b.len() && forall|i: int| 0 <= i < a.len() ==> #[trigger] frag_key(a[i]) == frag_key(b[i])
}

/// Fragments that agree on their keys merge alike.
pub proof fn lemma_merge_agrees(env: Set<Seq<char>>, a: Seq<Fragment>, b: Seq<Fragment>)
    requires
        frags_agree(a, b),
    ensures
        merge_shape(merge_fragments(env, a)) == merge_shape(merge_fragments(env, b)),
    decreases a.len(),
{
    if a.len() > 0 {
        assert(frags_agree(a.drop_last(), b.drop_last())) by {
            assert forall|i: int| 0 <= i < a.drop_last().len() implies #[trigger] frag_key(a.drop_last()[i])
                == frag_key(b.drop_last()[i]) by {
                assert(frag_key(a[i]) == frag_key(b[i]));
            }
        }
        lemma_merge_agrees(env, a.drop_last(), b.drop_last());
        assert(frag_key(a[a.len() - 1]) == frag_key(b[b.len() - 1]));
    }
}

/// Whether two lists of pills agree on what decides their assembly.
pub open spec fn pills_agree(a: Seq<PillDecl>, b: Seq<PillDecl>) -> bool {
    a.len() == b.len() && forall|i: int|
        0 <= i < a.len() ==> (#[trigger] a[i]).name@ == b[i].name@ && frags_agree(a[i].drips@, b[i].drips@)
}

/// The names that an assembly keeps.
pub open spec fn assemble_shape(r: Result<Seq<(Seq<char>, Merged)>, StoreFault>) -> Result<Seq<Seq<char>>, StoreFault> {
    match r {
        Ok(kept) => Ok(kept.map_values(|k: (Seq<char>, Merged)| k.0)),
        Err(f) => Err(f),
    }
}

/// Pills that agree assemble alike.
pub proof fn lemma_assemble_agrees(env: Set<Seq<char>>, a: Seq<PillDecl>, b: Seq<PillDecl>)
    requires
        pills_agree(a, b),
    ensures
        assemble_shape(assemble(env, a)) == assemble_shape(assemble(env, b)),
    decreases a.len(),
{
    if a.len() > 0 {
        assert(pills_agree(a.drop_last(), b.drop_last())) by {
            assert forall|i: int| 0 <= i < a.drop_last().len() implies (#[trigger] a.drop_last()[i]).name@
                == b.drop_last()[i].name@ && frags_agree(a.drop_last()[i].drips@, b.drop_last()[i].drips@) by {
                assert(a[i].name@ == b[i].name@ && frags_agree(a[i].drips@, b[i].drips@));
            }
        }
        lemma_assemble_agrees(env, a.drop_last(), b.drop_last());
        let la = a[a.len() - 1];
        let lb = b[b.len() - 1];
        assert(la.name@ == lb.name@ && frags_agree(la.drips@, lb.drips@));
        lemma_merge_agrees(env, la.drips@, lb.drips@);
        match (assemble(env, a.drop_last()), assemble(env, b.drop_last())) {
            (Ok(ka), Ok(kb)) => {
                let na = ka.map_values(|k: (Seq<char>, Merged)| k.0);
                let nb = kb.map_values(|k: (Seq<char>, Merged)| k.0);
                assert(na == nb);
                assert(names_pill(ka, la.name@) == names_pill(kb, lb.name@)) by {
                    if names_pill(ka, la.name@) {
                        let i = choose|i: int| 0 <= i < ka.len() && #[trigger] ka[i].0 == la.name@;
                        assert(na[i] == nb[i]);
                    }
                    if names_pill(kb, lb.name@) {
                        let i = choose|i: int| 0 <= i < kb.len() && #[trigger] kb[i].0 == lb.name@;
                        assert(na[i] == nb[i]);
                    }
                }
                match (merge_fragments(env, la.drips@), merge_fragments(env, lb.drips@)) {
                    (Ok(ma), Ok(mb)) => {
                        assert(ka.push((la.name@, ma)).map_values(|k: (Seq<char>, Merged)| k.0) =~= na.push(la.name@));
                        assert(kb.push((lb.name@, mb)).map_values(|k: (Seq<char>, Merged)| k.0) =~= nb.push(lb.name@));
                    },
                    _ => {},
                }
            },
            _ => {},
        }
    }
}

/// Environments registered alike declare and reach alike.
pub proof fn lemma_env_agrees(e1: EnvMap, e2: EnvMap, tags: Seq<Seq<char>>)
    requires
        entries_view(e1.map@) == entries_view(e2.map@),
    ensures
        forall|t: Seq<char>| e1.declares(t) == e2.declares(t),
        e1.closure(tags) == e2.closure(tags),
{
    let v1 = entries_view(e1.map@);
    let v2 = entries_view(e2.map@);
    assert(v1.len() == e1.map@.len() && v2.len() == e2.map@.len());
    assert forall|i: int| 0 <= i < e1.map@.len() implies #[trigger] e1.map@[i].tag@ == e2.map@[i].tag@ && str_set(
        e1.map@[i].ancestors@,
    ) == str_set(e2.map@[i].ancestors@) by {
        assert(v1[i] == v2[i]);
        lemma_str_set_by_view(e1.map@[i].ancestors@, e2.map@[i].ancestors@);
    }
    assert forall|t: Seq<char>| e1.declares(t) == e2.declares(t) by {
        if e1.declares(t) {
            let i = choose|i: int| 0 <= i < e1.map@.len() && #[trigger] e1.map@[i].tag@ == t;
            assert(e2.map@[i].tag@ == t);
        }
        if e2.declares(t) {
            let i = choose|i: int| 0 <= i < e2.map@.len() && #[trigger] e2.map@[i].tag@ == t;
            assert(e1.map@[i].tag@ == t);
        }
    }
    assert forall|t: Seq<char>, a: Seq<char>| e1.reaches(t, a) == e2.reaches(t, a) by {
        if e1.reaches(t, a) {
            let i = choose|i: int| 0 <= i < e1.map@.len() && #[trigger] e1.map@[i].tag@ == t && str_set(e1.map@[i].ancestors@).contains(a);
            assert(e2.map@[i].tag@ == t);
        }
        if e2.reaches(t, a) {
            let i = choose|i: int| 0 <= i < e2.map@.len() && #[trigger] e2.map@[i].tag@ == t && str_set(e2.map@[i].ancestors@).contains(a);
            assert(e1.map@[i].tag@ == t);
        }
    }
    assert(e1.closure(tags) =~= e2.closure(tags));
}

/// Two decodings of one fragment table agree on what decides merging.
pub proof fn lemma_fragment_decodings_agree(v: ConfValue, f1: Fragment, f2: Fragment)
    requires
        fragment_from(v, f1),
        fragment_from(v, f2),
    ensures
        frag_key(f1) == frag_key(f2),
{
    if f1.tags@.len() == 0 && f2.tags@.len() == 0 {
        assert(f1.tags@ =~= f2.tags@);
    } else {
        lemma_str_set_by_view(f1.tags@, f2.tags@);
    }
}

/// Two decodings of one drugstore document agree on everything that decides
/// its assembly.
pub proof fn lemma_decodings_agree(c: ConfValue, d1: DrugstoreDecl, d2: DrugstoreDecl)
    requires
        store_decl_from(c, d1),
        store_decl_from(c, d2),
    ensures
        d1.tutorial == d2.tutorial,
        entries_view(d1.env.map@) == entries_view(d2.env.map@),
        pills_agree(d1.pills@, d2.pills@),
{
    let t = c->Table_0@;
    let items = lookup(t, "pill"@)->0->Array_0@;
    assert forall|i: int| 0 <= i < d1.pills@.len() implies (#[trigger] d1.pills@[i]).name@ == d2.pills@[i].name@
        && frags_agree(d1.pills@[i].drips@, d2.pills@[i].drips@) by {
        assert(pill_from(items[i], d1.pills@[i]) && pill_from(items[i], d2.pills@[i]));
        let drips = lookup(items[i]->Table_0@, "drip"@)->0->Array_0@;
        assert forall|k: int| 0 <= k < d1.pills@[i].drips@.len() implies #[trigger] frag_key(d1.pills@[i].drips@[k])
            == frag_key(d2.pills@[i].drips@[k]) by {
            assert(fragment_from(drips[k], d1.pills@[i].drips@[k]));
            assert(fragment_from(drips[k], d2.pills@[i].drips@[k]));
            lemma_fragment_decodings_agree(drips[k], d1.pills@[i].drips@[k], d2.pills@[i].drips@[k]);
        }
    }
}

/// Whether assembling `d` for a machine with tags `env` succeeds.
pub open spec fn assembles(d: DrugstoreDecl, env: Seq<String>) -> bool {
    &&& !d.tutorial
    &&& forall|j: int| 0 <= j < env.len() ==> d.env.declares(#[trigger] env[j]@)
    &&& assemble(d.env.closure(strs(env)), d.pills@) is Ok
}

/// Whether assembling succeeds is the same for every decoding of a document.
pub proof fn lemma_assembles_agree(c: ConfValue, d1: DrugstoreDecl, d2: DrugstoreDecl, env: Seq<String>)
    requires
        store_decl_from(c, d1),
        store_decl_from(c, d2),
    ensures
        assembles(d1, env) == assembles(d2, env),
{
    lemma_decodings_agree(c, d1, d2);
    lemma_env_agrees(d1.env, d2.env, strs(env));
    lemma_assemble_agrees(d1.env.closure(strs(env)), d1.pills@, d2.pills@);
}

/// Once assembling fails, later pills change nothing.
pub proof fn lemma_assemble_err_sticks(env: Set<Seq<char>>, decls: Seq<PillDecl>, j: int)
    requires
        0 <= j <= decls.len(),
        assemble(env, decls.take(j)) is Err,
    ensures
        assemble(env, decls) == assemble(env, decls.take(j)),
    decreases decls.len(),
{
    if j == decls.len() {
        assert(decls.take(j) =~= decls);
    } else {
        assert(decls.drop_last().take(j) =~= decls.take(j));
        lemma_assemble_err_sticks(env, decls.drop_last(), j);
    }
}

/// The top-level keys a drugstore document may hold.
pub open spec fn store_keys() -> Set<Seq<char>> {
    set!["env"@, "pill"@, "tutorial"@]
}

/// Whether `d` is what the drugstore document `conf` declares.
pub open spec fn store_decl_from(conf: ConfValue, d: DrugstoreDecl) -> bool {
    conf matches ConfValue::Table(t) && {
        let t = t@;
        &&& keys_within(t, store_keys())
        &&& lookup(t, "env"@) is Some
        &&& entries_view(d.env.map@) == decl_entries(lookup(t, "env"@)->0, seq![])
        &&& lookup(t, "pill"@) matches Some(ConfValue::Array(items)) && items@.len() == d.pills@.len() && forall|i: int|
            0 <= i < items@.len() ==> pill_from(#[trigger] items@[i], d.pills@[i])
        &&& match lookup(t, "tutorial"@) {
            None => !d.tutorial,
            Some(ConfValue::Table(x)) => d.tutorial == (x@.len() > 0),
            _ => false,
        }
    }
}

impl DrugstoreDecl {
    /// The declarations of a drugstore document.
    pub fn from_conf(conf: &ConfValue) -> (r: Result<DrugstoreDecl, Error>)
        ensures
            r matches Ok(d) ==> store_decl_from(*conf, d),
            r is Err ==> (r->Err_0 is ConfigParse && forall|d: DrugstoreDecl| !#[trigger] store_decl_from(*conf, d)),
    {
        let t = match conf {
            ConfValue::Table(t) => t,
            _ => {
                return Err(parse_error("drugstore"));
            },
        };
        let allowed = key_list(&["env", "pill", "tutorial"]);
        assert(str_set(allowed@) =~= store_keys()) by {
            assert(allowed@[0]@ == "env"@);
            assert(allowed@[1]@ == "pill"@);
            assert(allowed@[2]@ == "tutorial"@);
        }
        if let Some(k) = unknown_key(t, &allowed) {
            return Err(Error::ConfigParse(k));
        }
        let env = match get(t, "env") {
            Some(v) => EnvMap::register(v),
            None => {
                return Err(parse_error("env"));
            },
        };
        let items = match get(t, "pill") {
            Some(ConfValue::Array(items)) => items,
            _ => {
                return Err(parse_error("pill"));
            },
        };
        let tutorial = match get(t, "tutorial") {
            None => false,
            Some(ConfValue::Table(x)) => x.len() > 0,
            Some(_) => {
                return Err(parse_error("tutorial"));
            },
        };
        let mut pills: Vec<PillDecl> = Vec::new();
        for i in 0..items.len()
            invariant
                *conf == ConfValue::Table(*t),
                lookup(t@, "pill"@) == Some(ConfValue::Array(*items)),
                pills@.len() == i,
                forall|j: int| 0 <= j < i ==> pill_from(#[trigger] items@[j], pills@[j]),
        {
            match pill_of(&items[i]) {
                Ok(p) => pills.push(p),
                Err(e) => {
                    assert forall|d: DrugstoreDecl| !#[trigger] store_decl_from(*conf, d) by {
                        if store_decl_from(*conf, d) {
                            assert(pill_from(items@[i as int], d.pills@[i as int]));
                        }
                    }
                    return Err(e);
                },
            }
        }
        Ok(DrugstoreDecl { env, pills, tutorial })
    }
}

} // verus!
