use vstd::prelude::*;
use vstd::string::*;
use crate::path::starts_with_text;

verus! {

/// The machine configuration written by `init`, ending with the tutorial's
/// section header.
pub const UNDERDOSE_TOML: &'static str = "# The tags this machine declares; see the drugstore's env table.
env = [\"linux\"]

[repo]
# the name of the drugstore repository
name = \"drugstore\"
# where the drugstore repository is checked out
local = \"~/drugstore\"

[defaults]
# how leaves are synced unless they say otherwise: \"copy\" or \"link\"
sync = \"link\"
# glob patterns never copied
ignore = [\"**/.git/\", \"**/*.swp\"]

# Edit the file above, then delete this last line.
[tutorial]
";

/// A drugstore to start from, ending with the tutorial's section header.
pub const DRUGSTORE_TOML: &'static str = "# Each key is a tag; the tags nested under it imply it.
[env]
linux = { arch = \"arch\", debian = \"debian\" }
mac = \"mac\"

[[pill]]
name = \"nvim\"

[[pill.drip]]
env = [\"linux\"]
site = \"~/.config/nvim\"
repo = \"nvim\"
arrow = [{ site = \".\", link = \".\" }]

[[pill]]
name = \"zsh\"

[[pill.drip]]
site = \"~\"
arrow = [{ site = \".zshrc\", copy = \".zshrc\" }]
ignore = [\"*.zwc\"]

[[pill.drip]]
env = [\"mac\"]
arrow = [{ site = \".zprofile\", copy = \".zprofile\" }]

# Edit the file above, then delete this last line.
[tutorial]
";

/// `lines` joined with a newline between each two.
pub open spec fn join_lines(lines: Seq<Seq<char>>) -> Seq<char>
    decreases lines.len(),
{
    if lines.len() == 0 {
        seq![]
    } else if lines.len() == 1 {
        lines[0]
    } else {
        join_lines(lines.drop_last()) + seq!['\n'] + lines.last()
    }
}

/// Whether `line` begins with the tutorial's section header.
pub open spec fn is_tutorial_header(line: Seq<char>) -> bool {
    line.len() >= 10 && line.take(10) == "[tutorial]"@
}

/// `lines` without its trailing empty lines.
pub open spec fn drop_blank_tail(lines: Seq<Seq<char>>) -> Seq<Seq<char>>
    decreases lines.len(),
{
    if lines.len() > 0 && lines.last().len() == 0 {
        drop_blank_tail(lines.drop_last())
    } else {
        lines
    }
}

/// The lines of a text once its trailing blank lines and a final tutorial
/// header line are removed.
pub open spec fn without_tutorial(lines: Seq<Seq<char>>) -> Seq<Seq<char>> {
    let kept = drop_blank_tail(lines);
    if kept.len() > 0 && is_tutorial_header(kept.last()) {
        kept.drop_last()
    } else {
        kept
    }
}

/// Relies on `str::split` with a `char` pattern: the pieces between
/// newlines, in order, empty ones included.
#[verifier::external_body]
fn split_lines(s: &str) -> (r: Vec<String>)
    ensures
        r@.map_values(|l: String| l@) == split_view(s@),
{
    s.split('\n').map(|l| l.to_string()).collect()
}

/// Removes a closing tutorial section header, and the blank lines after it,
/// from a configuration text.
pub fn remove_tutorial(content: &str) -> (r: String)
    ensures
        r@ == join_lines(without_tutorial(split_view(content@))),
{
    let mut lines = split_lines(content);
    let ghost all = lines@.map_values(|l: String| l@);
    proof {
        reveal_strlit("[tutorial]");
    }
    loop
        invariant
            drop_blank_tail(lines@.map_values(|l: String| l@)) == drop_blank_tail(all),
        ensures
            drop_blank_tail(lines@.map_values(|l: String| l@)) == drop_blank_tail(all),
            lines@.len() == 0 || lines@.last()@.len() != 0,
        decreases lines@.len(),
    {
        let n = lines.len();
        if n == 0 {
            break;
        }
        if lines[n - 1].as_str().is_empty() {
            let ghost before = lines@.map_values(|l: String| l@);
            lines.pop();
            assert(lines@.map_values(|l: String| l@) =~= before.drop_last());
        } else {
            break;
        }
    }
    let ghost kept = lines@.map_values(|l: String| l@);
    assert(kept == drop_blank_tail(all)) by {
        assert(drop_blank_tail(kept) == kept);
    }
    let n = lines.len();
    if n > 0 && starts_with_text(lines[n - 1].as_str(), "[tutorial]") {
        lines.pop();
        assert(lines@.map_values(|l: String| l@) =~= kept.drop_last());
    }
    join_strings(&lines)
}

/// The pieces of `s` between newlines: one more than it has newlines.
pub open spec fn split_view(s: Seq<char>) -> Seq<Seq<char>>
    decreases s.len(),
{
    if s.len() == 0 {
        seq![seq![]]
    } else {
        let rest = split_view(s.drop_last());
        if s.last() == '\n' {
            rest.push(seq![])
        } else {
            rest.update(rest.len() - 1, rest.last().push(s.last()))
        }
    }
}

/// Joins `lines` with a newline between each two.
fn join_strings(lines: &Vec<String>) -> (r: String)
    ensures
        r@ == join_lines(lines@.map_values(|l: String| l@)),
{
    let ghost ls = lines@.map_values(|l: String| l@);
    let mut out = String::new();
    proof {
        reveal_strlit("\n");
    }
    for i in 0..lines.len()
        invariant
            ls == lines@.map_values(|l: String| l@),
            out@ == join_lines(ls.take(i as int)),
    {
        proof {
            assert(ls.take(i + 1).drop_last() =~= ls.take(i as int));
            assert(ls.take(i + 1).last() == ls[i as int]);
        }
        if i == 0 {
            out = lines[i].clone();
            assert(ls.take(1) =~= seq![ls[0]]);
        } else {
            let ghost prev = out@;
            proof {
                reveal_strlit("\n");
                assert("\n"@ =~= seq!['\n']);
            }
            out = out.concat("\n").concat(lines[i].as_str());
            assert(out@ == prev + seq!['\n'] + ls[i as int]);
            assert(ls.take(i + 1).len() > 1);
        }
    }
    assert(ls.take(lines@.len() as int) =~= ls);
    out
}

} // verus!
