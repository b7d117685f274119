//! Synchronises a version-controlled configuration tree (the repo) with the
//! live locations on a machine (the site), following a tag-gated declarative
//! description, and keeps versioned backups of whatever it replaces.

pub mod error;
pub mod strs;
pub mod path;
pub mod conf;
pub mod tutorial;
pub mod prompt;
pub mod ignore;
pub mod machine;
pub mod env;
pub mod decl;
pub mod drip;
pub mod store;
pub mod drugstore;
pub mod synth;
pub mod executor;
pub mod dreamer;

pub use error::Error;
pub use machine::{Machine, Repo};
pub use env::{EnvEntry, EnvMap, EnvSet};
pub use drip::{Arrow, ArrowSrc, Drip};
pub use store::{DripApplyIncr, Fragment, Pill, PillDecl};
pub use ignore::{IgnoreSet, IgnoreSetBuilder};
pub use synth::{AtomMode, AtomTask, CopyWalk, EntryKind, LeafPlan, TaskArrow};
pub use executor::Executor;
pub use dreamer::{DreamDrip, Dreamer};
pub use conf::ConfValue;
pub use drugstore::{Drugstore, DrugstoreDecl};
pub use tutorial::{remove_tutorial, DRUGSTORE_TOML, UNDERDOSE_TOML};
pub use prompt::{Prompt, Reply, UnderdoseStatics};
