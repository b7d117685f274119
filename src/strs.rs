use vstd::prelude::*;

verus! {

/// The characters of each string of `v`.
pub open spec fn strs(v: Seq<String>) -> Seq<Seq<char>> {
    v.map_values(|s: String| s@)
}

/// The set of the strings of `v`, as character sequences.
pub open spec fn str_set(v: Seq<String>) -> Set<Seq<char>> {
    Set::new(|x: Seq<char>| exists|i: int| 0 <= i < v.len() && v[i]@ == x)
}

/// The strings of a concatenation are those of its two parts.
pub proof fn lemma_str_set_concat(a: Seq<String>, b: Seq<String>)
    ensures
        str_set(a + b) == str_set(a).union(str_set(b)),
{
    assert forall|x: Seq<char>| str_set(a + b).contains(x) implies str_set(a).union(
        str_set(b),
    ).contains(x) by {
        let i = choose|i: int| 0 <= i < (a + b).len() && (a + b)[i]@ == x;
        if i < a.len() {
            assert(a[i]@ == x);
        } else {
            assert(b[i - a.len()]@ == x);
        }
    }
    assert forall|x: Seq<char>| str_set(a).union(str_set(b)).contains(x) implies str_set(
        a + b,
    ).contains(x) by {
        if str_set(a).contains(x) {
            let i = choose|i: int| 0 <= i < a.len() && a[i]@ == x;
            assert((a + b)[i]@ == x);
        } else {
            let i = choose|i: int| 0 <= i < b.len() && b[i]@ == x;
            assert((a + b)[i + a.len()]@ == x);
        }
    }
    assert(str_set(a + b) =~= str_set(a).union(str_set(b)));
}

/// Pushing a string adds exactly its characters to the set.
pub proof fn lemma_str_set_push(a: Seq<String>, s: String)
    ensures
        str_set(a.push(s)) == str_set(a).insert(s@),
{
    assert forall|x: Seq<char>| #[trigger] str_set(a.push(s)).contains(x) <==> str_set(a).insert(
        s@,
    ).contains(x) by {
        if str_set(a.push(s)).contains(x) {
            let i = choose|i: int| 0 <= i < a.push(s).len() && a.push(s)[i]@ == x;
            if i < a.len() {
                assert(a[i]@ == x);
            }
        }
        if str_set(a).contains(x) {
            let i = choose|i: int| 0 <= i < a.len() && a[i]@ == x;
            assert(a.push(s)[i]@ == x);
        }
        if x == s@ {
            assert(a.push(s)[a.len() as int]@ == x);
        }
    }
    assert(str_set(a.push(s)) =~= str_set(a).insert(s@));
}

/// Strings with the same characters, position by position, make the same set.
pub proof fn lemma_str_set_by_view(a: Seq<String>, b: Seq<String>)
    requires
        strs(a) == strs(b),
    ensures
        str_set(a) == str_set(b),
{
    assert(strs(a).len() == a.len() && strs(b).len() == b.len());
    assert forall|x: Seq<char>| str_set(a).contains(x) <==> str_set(b).contains(x) by {
        if str_set(a).contains(x) {
            let i = choose|i: int| 0 <= i < a.len() && a[i]@ == x;
            assert(strs(a)[i] == strs(b)[i]);
        }
        if str_set(b).contains(x) {
            let i = choose|i: int| 0 <= i < b.len() && b[i]@ == x;
            assert(strs(a)[i] == strs(b)[i]);
        }
    }
    assert(str_set(a) =~= str_set(b));
}

/// Appends copies of every string of `src` to `dst`.
pub fn extend_strings(dst: &mut Vec<String>, src: &Vec<String>)
    ensures
        final(dst)@ == old(dst)@ + src@,
{
    let ghost start = dst@;
    for i in 0..src.len()
        invariant
            dst@ == start + src@.take(i as int),
    {
        dst.push(src[i].clone());
        assert(src@.take(i + 1) == src@.take(i as int).push(src@[i as int]));
    }
    assert(src@.take(src@.len() as int) == src@);
}

/// Whether `v` holds a string equal to `s`.
pub fn contains_string(v: &Vec<String>, s: &String) -> (r: bool)
    ensures
        r == str_set(v@).contains(s@),
{
    for i in 0..v.len()
        invariant
            forall|j: int| 0 <= j < i ==> v@[j]@ != s@,
    {
        if v[i] == *s {
            assert(v@[i as int]@ == s@);
            return true;
        }
    }
    false
}

} // verus!
