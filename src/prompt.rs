use vstd::prelude::*;
use vstd::string::*;

verus! {

/// What the lower-cased form of a text is.
pub uninterp spec fn lower_of(s: Seq<char>) -> Seq<char>;

/// Whether `c` has Unicode's White_Space property, as `char::is_whitespace`
/// decides it.
pub open spec fn is_white(c: char) -> bool {
    ('\u{9}' <= c && c <= '\u{d}') || c == ' ' || c == '\u{85}' || c == '\u{a0}' || c == '\u{1680}' || (
    '\u{2000}' <= c && c <= '\u{200a}') || c == '\u{2028}' || c == '\u{2029}' || c == '\u{202f}' || c
        == '\u{205f}' || c == '\u{3000}'
}

/// `s` without its trailing white space.
pub open spec fn trim_end_white(s: Seq<char>) -> Seq<char>
    decreases s.len(),
{
    if s.len() > 0 && is_white(s.last()) {
        trim_end_white(s.drop_last())
    } else {
        s
    }
}

/// `s` without its leading white space.
pub open spec fn trim_start_white(s: Seq<char>) -> Seq<char>
    decreases s.len(),
{
    if s.len() > 0 && is_white(s[0]) {
        trim_start_white(s.drop_first())
    } else {
        s
    }
}

/// What a text is without its leading and trailing white space.
pub open spec fn trimmed_of(s: Seq<char>) -> Seq<char> {
    trim_start_white(trim_end_white(s))
}

/// Relies on `str::to_lowercase`: the result depends on the characters alone.
#[verifier::external_body]
fn lowercase(s: &str) -> (r: String)
    ensures
        r@ == lower_of(s@),
{
    s.to_lowercase()
}

/// Relies on `str::trim`: the text without leading and trailing characters
/// that are `char::is_whitespace`.
#[verifier::external_body]
fn trim_space(s: &str) -> (r: String)
    ensures
        r@ == trimmed_of(s@),
{
    s.trim().to_string()
}

/// What the user decided about an existing destination.
#[derive(Debug, Clone, Copy, PartialEq, Eq, Structural)]
pub enum Reply {
    /// replace it
    Overwrite,
    /// stop everything
    Abort,
    /// leave it and go on
    Skip,
}

/// The reply that a normalized answer gives: `y` overwrites, `!` aborts,
/// anything else skips.
pub open spec fn reply_for(answer: Seq<char>) -> Reply {
    if answer == "y"@ {
        Reply::Overwrite
    } else if answer == "!"@ {
        Reply::Abort
    } else {
        Reply::Skip
    }
}

/// A yes/no question put to the user before a destination is replaced.
#[derive(Debug, Clone)]
pub struct Prompt {
    pub line: String,
}

impl Prompt {
    /// A prompt that shows `line`.
    pub fn new(line: &str) -> (r: Self)
        ensures
            r.line@ == line@,
    {
        Prompt { line: String::from_str(line) }
    }

    /// The reply that an already lower-cased and trimmed answer gives.
    pub fn reply_of(answer: &str) -> (r: Reply)
        ensures
            r == reply_for(answer@),
    {
        let a = String::from_str(answer);
        if a == String::from_str("y") {
            Reply::Overwrite
        } else if a == String::from_str("!") {
            Reply::Abort
        } else {
            Reply::Skip
        }
    }

    /// The reply that a raw answer line gives, case and surrounding white
    /// space aside.
    pub fn interpret(raw: &str) -> (r: Reply)
        ensures
            r == reply_for(trimmed_of(lower_of(raw@))),
    {
        let lower = lowercase(raw);
        let answer = trim_space(lower.as_str());
        Self::reply_of(answer.as_str())
    }
}

/// The fixed places of the tool: its configuration file and the directory
/// of backups.
#[derive(Debug, Clone)]
pub struct UnderdoseStatics {
    pub conf: String,
    pub dreams: String,
}

impl UnderdoseStatics {
    /// The places under the given configuration and data directories.
    pub fn new(config_dir: &str, data_dir: &str) -> (r: Self)
        ensures
            r.conf@ == crate::path::join_path(config_dir@, "Underdose.toml"@),
            r.dreams@ == crate::path::join_path(data_dir@, "dreams"@),
    {
        UnderdoseStatics {
            conf: crate::path::join(config_dir, "Underdose.toml"),
            dreams: crate::path::join(data_dir, "dreams"),
        }
    }

    /// Where the backup index is kept.
    pub fn index_path(&self) -> (r: String)
        ensures
            r@ == crate::path::join_path(self.dreams@, "index.json"@),
    {
        crate::path::join(self.dreams.as_str(), "index.json")
    }
}

} // verus!
