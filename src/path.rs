use vstd::prelude::*;
use vstd::string::*;
use crate::error::Error;

verus! {

/// Whether `p` begins with a path separator.
pub open spec fn starts_with_sep(p: Seq<char>) -> bool {
    p.len() > 0 && p[0] == '/'
}

/// Whether `p` ends with a path separator.
pub open spec fn ends_with_sep(p: Seq<char>) -> bool {
    p.len() > 0 && p.last() == '/'
}

/// `rel` appended to `base`: an absolute `rel` replaces `base`, and one
/// separator stands between the two otherwise.
pub open spec fn join_path(base: Seq<char>, rel: Seq<char>) -> Seq<char> {
    if starts_with_sep(rel) {
        rel
    } else if base.len() == 0 || ends_with_sep(base) {
        base + rel
    } else {
        base + seq!['/'] + rel
    }
}

/// Whether `p` ends with a `.` component after a separator.
pub open spec fn ends_with_dot(p: Seq<char>) -> bool {
    p.len() >= 2 && p.last() == '.' && p[p.len() - 2] == '/'
}

/// `p` without its trailing separators and trailing `.` components.
pub open spec fn trim_seps(p: Seq<char>) -> Seq<char>
    decreases p.len(),
{
    if ends_with_sep(p) || ends_with_dot(p) {
        trim_seps(p.drop_last())
    } else {
        p
    }
}

/// Whether `t`, already trimmed, names no file: it is `.` alone, or its last
/// component is `..`.
pub open spec fn names_no_file(t: Seq<char>) -> bool {
    t == seq!['.'] || (t.len() >= 2 && t.last() == '.' && t[t.len() - 2] == '.' && (t.len() == 2 || t[t.len()
        - 3] == '/'))
}

/// Whether trimming `p` fails: nothing is left, or what is left names no file.
pub open spec fn trim_fails(p: Seq<char>) -> bool {
    trim_seps(p).len() == 0 || names_no_file(trim_seps(p))
}

/// Whether `p` holds no separator.
pub open spec fn is_name(p: Seq<char>) -> bool {
    forall|i: int| 0 <= i < p.len() ==> p[i] != '/'
}

/// A path whose home prefix `~` has been replaced by some home directory.
pub open spec fn home_expanded(p: Seq<char>, r: Seq<char>) -> bool {
    if p.len() > 0 && p[0] == '~' && (p.len() == 1 || p[1] == '/' || p[1] == '\\') {
        r == p || exists|home: Seq<char>| r == home + p.drop_first()
    } else {
        r == p
    }
}

/// Relies on `str::strip_suffix` with a `char` pattern: the string without
/// one final `c`, if it ends with one.
#[verifier::external_body]
fn strip_char_suffix(p: &str, c: char) -> (r: Option<String>)
    ensures
        match r {
            Some(t) => p@.len() > 0 && p@.last() == c && t@ == p@.drop_last(),
            None => !(p@.len() > 0 && p@.last() == c),
        },
{
    p.strip_suffix(c).map(|t| t.to_string())
}

/// `p` without one final `/`, if it ends with one.
pub(crate) fn strip_sep_suffix(p: &str) -> (r: Option<String>)
    ensures
        match r {
            Some(t) => ends_with_sep(p@) && t@ == p@.drop_last(),
            None => !ends_with_sep(p@),
        },
{
    strip_char_suffix(p, '/')
}

/// Relies on `str::starts_with` with a `&str` pattern.
#[verifier::external_body]
pub(crate) fn starts_with_text(s: &str, prefix: &str) -> (r: bool)
    ensures
        r == (s@.len() >= prefix@.len() && s@.take(prefix@.len() as int) == prefix@),
{
    s.starts_with(prefix)
}

/// Whether `p` begins with a separator.
pub(crate) fn has_sep_prefix(p: &str) -> (r: bool)
    ensures
        r == starts_with_sep(p@),
{
    let r = starts_with_text(p, "/");
    proof {
        reveal_strlit("/");
        assert("/"@ =~= seq!['/']);
        if p@.len() >= 1 {
            assert(p@.take(1) =~= seq![p@[0]]);
            if r {
                assert(p@.take(1)[0] == "/"@[0]);
            }
            if p@[0] == '/' {
                assert(p@.take(1) =~= "/"@);
            }
        }
    }
    r
}

/// Relies on `shellexpand::tilde`: a leading `~` alone or before `/` (or,
/// on Windows, before `\`) may become the home directory, when one is known;
/// anything else is left as it is.
#[verifier::external_body]
fn tilde(p: &str) -> (r: String)
    ensures
        home_expanded(p@, r@),
{
    shellexpand::tilde(p).into_owned()
}

/// Replaces a leading `~` by the home directory.
pub fn expand_home(p: &str) -> (r: String)
    ensures
        home_expanded(p@, r@),
{
    tilde(p)
}

/// Whether `p` ends with a path separator.
pub fn ends_with_separator(p: &str) -> (r: bool)
    ensures
        r == ends_with_sep(p@),
{
    strip_sep_suffix(p).is_some()
}

/// Appends `rel` to `base` as a path.
pub fn join(base: &str, rel: &str) -> (r: String)
    ensures
        r@ == join_path(base@, rel@),
{
    if has_sep_prefix(rel) {
        return String::from_str(rel);
    }
    let b = String::from_str(base);
    if base.is_empty() || ends_with_separator(base) {
        b.concat(rel)
    } else {
        proof {
            reveal_strlit("/");
        }
        b.concat("/").concat(rel)
    }
}

/// Whether `t` is `.` alone or ends with a `..` component.
fn lacks_file_name(t: &str) -> (r: bool)
    ensures
        r == names_no_file(t@),
{
    match strip_char_suffix(t, '.') {
        None => false,
        Some(a) => {
            if a.as_str().is_empty() {
                assert(t@ =~= seq!['.']);
                return true;
            }
            match strip_char_suffix(a.as_str(), '.') {
                None => {
                    assert(t@ != seq!['.']);
                    false
                },
                Some(b) => {
                    if b.as_str().is_empty() {
                        true
                    } else {
                        let r = ends_with_separator(b.as_str());
                        assert(t@.len() != 1);
                        r
                    }
                },
            }
        },
    }
}

/// Removes the trailing separators and `.` components of `p`. Fails when
/// what is left names no file: nothing at all (the root, the empty path),
/// `.` alone, or a path whose last component is `..`.
pub fn trim(p: &str) -> (r: Result<String, Error>)
    ensures
        r is Ok <==> !trim_fails(p@),
        r matches Ok(t) ==> t@ == trim_seps(p@),
        r matches Err(e) ==> (e matches Error::ConfigParse(s) && s@ == p@),
{
    let mut cur = String::from_str(p);
    loop
        invariant
            trim_seps(cur@) == trim_seps(p@),
        ensures
            trim_seps(cur@) == trim_seps(p@),
            !ends_with_sep(cur@),
            !ends_with_dot(cur@),
        decreases cur@.len(),
    {
        match strip_sep_suffix(cur.as_str()) {
            Some(t) => {
                cur = t;
            },
            None => {
                match strip_char_suffix(cur.as_str(), '.') {
                    Some(t) => {
                        if ends_with_separator(t.as_str()) {
                            cur = t;
                        } else {
                            break;
                        }
                    },
                    None => {
                        break;
                    },
                }
            },
        }
    }
    if cur.as_str().is_empty() || lacks_file_name(cur.as_str()) {
        return Err(Error::ConfigParse(String::from_str(p)));
    }
    Ok(cur)
}

} // verus!
