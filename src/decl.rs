use vstd::prelude::*;
use crate::conf::ConfValue;
use crate::env::{EnvEntry, EnvMap};
use crate::strs::{strs, extend_strings};

verus! {

/// The registrations that `d` makes below the tags of `path`: one
/// `(tag, ancestors)` pair for each occurrence of a tag, in document order.
pub open spec fn decl_entries(d: ConfValue, path: Seq<Seq<char>>) -> Seq<(Seq<char>, Seq<Seq<char>>)>
    decreases d, 0int,
{
    match d {
        ConfValue::Str(s) => seq![(s@, path)],
        ConfValue::Table(kids) => table_entries(kids@, path),
        _ => seq![],
    }
}

/// The registrations of the first `kids.len()` keys of a table.
pub open spec fn table_entries(kids: Seq<(String, ConfValue)>, path: Seq<Seq<char>>) -> Seq<(Seq<char>, Seq<Seq<char>>)>
    decreases kids, 1int,
{
    if kids.len() == 0 {
        seq![]
    } else {
        let (k, v) = kids.last();
        table_entries(kids.drop_last(), path) + seq![(k@, path)] + decl_entries(v, path.push(k@))
    }
}

/// The view of one registered entry.
pub open spec fn entry_view(e: EnvEntry) -> (Seq<char>, Seq<Seq<char>>) {
    (e.tag@, strs(e.ancestors@))
}

/// The views of registered entries.
pub open spec fn entries_view(es: Seq<EnvEntry>) -> Seq<(Seq<char>, Seq<Seq<char>>)> {
    es.map_values(|e: EnvEntry| entry_view(e))
}

fn register_decl(map: &mut Vec<EnvEntry>, path: &mut Vec<String>, d: &ConfValue)
    ensures
        entries_view(final(map)@) == entries_view(old(map)@) + decl_entries(*d, strs(old(path)@)),
        final(path)@ == old(path)@,
    decreases d,
{
    let ghost start = map@;
    match d {
        ConfValue::Str(s) => {
            let mut ancestors: Vec<String> = Vec::new();
            extend_strings(&mut ancestors, path);
            map.push(EnvEntry { tag: s.clone(), ancestors });
            assert(entries_view(map@) =~= entries_view(start) + decl_entries(*d, strs(path@)));
        },
        ConfValue::Table(kids) => {
            let ghost p = path@;
            proof {
                assert(decreases_to!(*d => (*d)->Table_0));
                assert(decreases_to!(*kids => kids@));
            }
            assert(kids@.take(0) =~= Seq::<(String, ConfValue)>::empty());
            assert(entries_view(map@) =~= entries_view(start) + table_entries(kids@.take(0), strs(p)));
            for i in 0..kids.len()
                invariant
                    path@ == p,
                    decreases_to!(*d => kids@),
                    entries_view(map@) == entries_view(start) + table_entries(kids@.take(i as int), strs(p)),
            {
                let ghost before = map@;
                let (k, v) = &kids[i];
                let mut ancestors: Vec<String> = Vec::new();
                extend_strings(&mut ancestors, path);
                map.push(EnvEntry { tag: k.clone(), ancestors });
                let ghost mid = map@;
                path.push(k.clone());
                proof {
                    assert(decreases_to!(kids@ => kids@[i as int]));
                    assert(decreases_to!(kids@[i as int] => kids@[i as int].1));
                }
                register_decl(map, path, v);
                path.pop();
                proof {
                    let t = kids@.take(i + 1);
                    assert(t.drop_last() =~= kids@.take(i as int));
                    assert(t.last() == kids@[i as int]);
                    assert(strs(p.push(*k)) =~= strs(p).push(k@));
                    assert(entries_view(mid) =~= entries_view(before).push(entry_view(mid.last())));
                    assert(entries_view(map@) =~= entries_view(start) + table_entries(t, strs(p)));
                }
            }
            assert(kids@.take(kids@.len() as int) =~= kids@);
        },
        _ => {
            assert(entries_view(map@) =~= entries_view(start) + decl_entries(*d, strs(path@)));
        },
    }
}

impl EnvMap {
    /// Registers every key of a nested tag declaration, with the keys on the
    /// path above it as its ancestors.
    pub fn register(decl: &ConfValue) -> (r: EnvMap)
        ensures
            entries_view(r.map@) == decl_entries(*decl, seq![]),
    {
        let mut map: Vec<EnvEntry> = Vec::new();
        let mut path: Vec<String> = Vec::new();
        register_decl(&mut map, &mut path, decl);
        assert(strs(path@) =~= seq![]);
        assert(entries_view(Seq::<EnvEntry>::empty()) =~= seq![]);
        EnvMap { map }
    }
}

} // verus!
