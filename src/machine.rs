use vstd::prelude::*;
use vstd::string::*;
use crate::conf::{
    get, key_list, keys_within, lookup, parse_document, str_of, string_of, strings_of, strs_of,
    toml_accepts, toml_document, unknown_key, ConfValue,
};
use crate::error::Error;
use crate::path::{expand_home, home_expanded};
use crate::strs::{str_set, strs};

verus! {

/// How a leaf is kept in sync when its declaration does not say.
#[derive(Debug, Clone, Copy, PartialEq, Eq, Structural)]
pub enum SyncMode {
    Copy,
    Link,
}

/// Where the repository of this machine lives.
#[derive(Debug, Clone, PartialEq, Eq)]
pub struct Repo {
    pub name: String,
    pub local: String,
}

/// One machine: its declared tags, where its repo lives, and its defaults.
#[derive(Debug, Clone)]
pub struct Machine {
    /// the name of the repository
    pub name: String,
    /// the tags that the machine declares directly
    pub env: Vec<String>,
    /// the repo root, home-expanded
    pub local: String,
    pub sync: SyncMode,
    /// glob patterns excluded from every copy walk
    pub ignore: Vec<String>,
}

/// The top-level keys a machine configuration may hold.
pub open spec fn machine_keys() -> Set<Seq<char>> {
    set!["env"@, "repo"@, "defaults"@, "tutorial"@]
}

/// The keys the `repo` table may hold.
pub open spec fn repo_keys() -> Set<Seq<char>> {
    set!["name"@, "local"@]
}

/// The keys the `defaults` table may hold.
pub open spec fn defaults_keys() -> Set<Seq<char>> {
    set!["sync"@, "ignore"@]
}

/// The sync mode that a `sync` setting names; links when it is absent.
pub open spec fn sync_of(v: Option<ConfValue>) -> Option<SyncMode> {
    match v {
        None => Some(SyncMode::Link),
        Some(ConfValue::Str(s)) => if s@ == "copy"@ {
            Some(SyncMode::Copy)
        } else if s@ == "link"@ {
            Some(SyncMode::Link)
        } else {
            None
        },
        _ => None,
    }
}

/// Whether a `defaults` setting is well formed.
pub open spec fn defaults_shape(d: Option<ConfValue>) -> bool {
    match d {
        None => true,
        Some(ConfValue::Table(x)) => keys_within(x@, defaults_keys()) && sync_of(lookup(x@, "sync"@)) is Some && (
        lookup(x@, "ignore"@) is None || strs_of(lookup(x@, "ignore"@)) is Some),
        _ => false,
    }
}

/// The top-level entries of a document.
pub open spec fn entries(conf: ConfValue) -> Seq<(String, ConfValue)> {
    conf->Table_0@
}

/// The entries of the `repo` table.
pub open spec fn repo_entries(conf: ConfValue) -> Seq<(String, ConfValue)> {
    lookup(entries(conf), "repo"@)->0->Table_0@
}

/// Whether `conf` has the shape of a machine configuration.
pub open spec fn machine_shape(conf: ConfValue) -> bool {
    &&& conf is Table
    &&& keys_within(entries(conf), machine_keys())
    &&& strs_of(lookup(entries(conf), "env"@)) is Some
    &&& lookup(entries(conf), "repo"@) matches Some(ConfValue::Table(_))
    &&& keys_within(repo_entries(conf), repo_keys())
    &&& str_of(lookup(repo_entries(conf), "name"@)) is Some
    &&& str_of(lookup(repo_entries(conf), "local"@)) is Some
    &&& defaults_shape(lookup(entries(conf), "defaults"@))
    &&& (lookup(entries(conf), "tutorial"@) is None || lookup(entries(conf), "tutorial"@) matches Some(ConfValue::Table(_)))
}

/// Whether the document still holds a non-empty tutorial section.
pub open spec fn tutorial_blocks(conf: ConfValue) -> bool {
    lookup(entries(conf), "tutorial"@) matches Some(ConfValue::Table(t)) && t@.len() > 0
}

/// Whether `m` is the machine that the well-formed `conf` describes.
pub open spec fn machine_from(conf: ConfValue, m: Machine) -> bool {
    let d = lookup(entries(conf), "defaults"@);
    &&& Some(strs(m.env@)) == strs_of(lookup(entries(conf), "env"@))
    &&& Some(m.name@) == str_of(lookup(repo_entries(conf), "name"@))
    &&& home_expanded(str_of(lookup(repo_entries(conf), "local"@))->0, m.local@)
    &&& Some(m.sync) == (if d is None { Some(SyncMode::Link) } else { sync_of(lookup(d->0->Table_0@, "sync"@)) })
    &&& strs(m.ignore@) == (if d is None || lookup(d->0->Table_0@, "ignore"@) is None {
        Seq::<Seq<char>>::empty()
    } else {
        strs_of(lookup(d->0->Table_0@, "ignore"@))->0
    })
}

fn parse_error(what: &str) -> (r: Error)
    ensures
        r matches Error::ConfigParse(s) && s@ == what@,
{
    Error::ConfigParse(String::from_str(what))
}

/// Reads the `defaults` table: the sync mode and the ignore patterns.
fn read_defaults(d: Option<&ConfValue>) -> (r: Result<(SyncMode, Vec<String>), Error>)
    ensures
        r is Ok <==> defaults_shape(if d is None { None } else { Some(*d->0) }),
        r is Err ==> r->Err_0 is ConfigParse,
        r matches Ok(p) ==> d is None ==> p.0 == SyncMode::Link && p.1@.len() == 0,
        r matches Ok(p) ==> d matches Some(x) ==> Some(p.0) == sync_of(lookup(x->Table_0@, "sync"@)) && strs(p.1@) == (
        if lookup(x->Table_0@, "ignore"@) is None {
            Seq::<Seq<char>>::empty()
        } else {
            strs_of(lookup(x->Table_0@, "ignore"@))->0
        }),
{
    match d {
        None => {
            let v: Vec<String> = Vec::new();
            Ok((SyncMode::Link, v))
        },
        Some(ConfValue::Table(x)) => {
            let allowed = key_list(&["sync", "ignore"]);
            assert(str_set(allowed@) =~= defaults_keys()) by {
                assert(allowed@[0]@ == "sync"@);
                assert(allowed@[1]@ == "ignore"@);
            }
            if let Some(_) = unknown_key(x, &allowed) {
                return Err(parse_error("defaults"));
            }
            let sync = match get(x, "sync") {
                None => SyncMode::Link,
                Some(ConfValue::Str(s)) => {
                    let copy = String::from_str("copy");
                    let link = String::from_str("link");
                    if *s == copy {
                        SyncMode::Copy
                    } else if *s == link {
                        SyncMode::Link
                    } else {
                        return Err(parse_error("defaults.sync"));
                    }
                },
                Some(_) => {
                    return Err(parse_error("defaults.sync"));
                },
            };
            let ignore = match get(x, "ignore") {
                None => Vec::new(),
                Some(v) => match strings_of(Some(v)) {
                    Some(l) => l,
                    None => {
                        return Err(parse_error("defaults.ignore"));
                    },
                },
            };
            proof {
                assert(strs(Seq::<String>::empty()) =~= Seq::<Seq<char>>::empty());
            }
            Ok((sync, ignore))
        },
        Some(_) => Err(parse_error("defaults")),
    }
}

impl Machine {
    /// Where the machine's repository lives.
    pub fn repo(&self) -> (r: Repo)
        ensures
            r.name == self.name,
            r.local == self.local,
    {
        Repo { name: self.name.clone(), local: self.local.clone() }
    }

    /// The machine that a configuration document describes. Fails with
    /// `ConfigParse` when the document does not have the expected shape, and
    /// with `TutorialIncomplete` while it still holds a non-empty tutorial.
    pub fn from_conf(conf: &ConfValue) -> (r: Result<Machine, Error>)
        ensures
            r is Ok <==> machine_shape(*conf) && !tutorial_blocks(*conf),
            !machine_shape(*conf) ==> r matches Err(Error::ConfigParse(_)),
            machine_shape(*conf) && tutorial_blocks(*conf) ==> r == Err::<Machine, Error>(Error::TutorialIncomplete),
            r matches Ok(m) ==> machine_from(*conf, m),
    {
        let t = match conf {
            ConfValue::Table(t) => t,
            _ => {
                return Err(parse_error("machine"));
            },
        };
        let allowed = key_list(&["env", "repo", "defaults", "tutorial"]);
        assert(str_set(allowed@) =~= machine_keys()) by {
            assert(allowed@[0]@ == "env"@);
            assert(allowed@[1]@ == "repo"@);
            assert(allowed@[2]@ == "defaults"@);
            assert(allowed@[3]@ == "tutorial"@);
        }
        if let Some(k) = unknown_key(t, &allowed) {
            return Err(Error::ConfigParse(k));
        }
        let env = match strings_of(get(t, "env")) {
            Some(l) => l,
            None => {
                return Err(parse_error("env"));
            },
        };
        let repo = match get(t, "repo") {
            Some(ConfValue::Table(r)) => r,
            _ => {
                return Err(parse_error("repo"));
            },
        };
        let repo_allowed = key_list(&["name", "local"]);
        assert(str_set(repo_allowed@) =~= repo_keys()) by {
            assert(repo_allowed@[0]@ == "name"@);
            assert(repo_allowed@[1]@ == "local"@);
        }
        if let Some(k) = unknown_key(repo, &repo_allowed) {
            return Err(Error::ConfigParse(k));
        }
        let name = match string_of(get(repo, "name")) {
            Some(s) => s,
            None => {
                return Err(parse_error("repo.name"));
            },
        };
        let local = match string_of(get(repo, "local")) {
            Some(s) => s,
            None => {
                return Err(parse_error("repo.local"));
            },
        };
        let (sync, ignore) = read_defaults(get(t, "defaults"))?;
        let blocks = match get(t, "tutorial") {
            None => false,
            Some(ConfValue::Table(tut)) => tut.len() > 0,
            Some(_) => {
                return Err(parse_error("tutorial"));
            },
        };
        if blocks {
            return Err(Error::TutorialIncomplete);
        }
        let local = expand_home(local.as_str());
        let m = Machine { name, env, local, sync, ignore };
        proof {
            let d = lookup(entries(*conf), "defaults"@);
            if d is None {
                assert(strs(m.ignore@) =~= Seq::<Seq<char>>::empty());
            }
        }
        Ok(m)
    }

    /// Parses a machine configuration written in TOML. Fails with
    /// `ConfigParse` on text that is no TOML document or has the wrong shape,
    /// and with `TutorialIncomplete` while the tutorial blocks.
    pub fn try_from(text: &str) -> (r: Result<Machine, Error>)
        ensures
            r is Ok <==> toml_accepts(text@) && machine_shape(toml_document(text@)) && !tutorial_blocks(
                toml_document(text@),
            ),
            !toml_accepts(text@) ==> r matches Err(Error::ConfigParse(_)),
            toml_accepts(text@) && !machine_shape(toml_document(text@)) ==> r matches Err(Error::ConfigParse(_)),
            toml_accepts(text@) && machine_shape(toml_document(text@)) && tutorial_blocks(toml_document(text@))
                ==> r == Err::<Machine, Error>(Error::TutorialIncomplete),
            r matches Ok(m) ==> machine_shape(toml_document(text@)) && !tutorial_blocks(toml_document(text@))
                && machine_from(toml_document(text@), m),
    {
        match parse_document(text) {
            Some(conf) => Self::from_conf(&conf),
            None => Err(parse_error("toml")),
        }
    }
}

} // verus!
