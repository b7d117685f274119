use underdose::dreamer::{DumpAction, SiteState};
use underdose::machine::SyncMode;
use underdose::path::{expand_home, join, trim};
use underdose::synth::{link_task, peek, plan_arrow, plan_drip};
use underdose::{
    remove_tutorial, Arrow, ArrowSrc, AtomMode, ConfValue, CopyWalk, DreamDrip, Dreamer, Drip,
    DripApplyIncr, Drugstore, Prompt, Reply, UnderdoseStatics, EntryKind, EnvEntry, EnvMap, EnvSet, Error, Executor,
    Fragment, IgnoreSetBuilder, LeafPlan, Machine, PillDecl, TaskArrow, DRUGSTORE_TOML,
    UNDERDOSE_TOML,
};

fn s(x: &str) -> String {
    x.to_owned()
}

fn machine_with(env: &[&str]) -> Machine {
    Machine {
        name: s("drugstore"),
        env: env.iter().map(|t| s(t)).collect(),
        local: s("/home/u/drugstore"),
        sync: SyncMode::Link,
        ignore: Vec::new(),
    }
}

fn entry(tag: &str, ancestors: &[&str]) -> EnvEntry {
    EnvEntry { tag: s(tag), ancestors: ancestors.iter().map(|t| s(t)).collect() }
}

fn link(rel_site: &str, target: &str) -> Arrow {
    Arrow { rel_site: s(rel_site), src: ArrowSrc::Link(s(target)) }
}

fn fragment(tags: &[&str], site: Option<&str>, repo: Option<&str>, arrows: Vec<Arrow>) -> Fragment {
    Fragment {
        tags: tags.iter().map(|t| s(t)).collect(),
        site: site.map(s),
        repo: repo.map(s),
        arrows,
        ignore: Vec::new(),
    }
}

fn envset(tags: &[&str]) -> EnvSet {
    EnvSet { set: tags.iter().map(|t| s(t)).collect() }
}

#[test]
fn parse_machine() {
    let content = remove_tutorial(UNDERDOSE_TOML);

    let machine = Machine::try_from(&content[..]).unwrap();
    println!("{:#?}", machine);
}

#[test]
fn parse_store() {
    let content = remove_tutorial(DRUGSTORE_TOML);

    // parse with linux
    let machine = machine_with(&["linux"]);
    let store = Drugstore::try_from(&content[..], &machine).unwrap();
    assert_eq!(store.pill_count(), 2);
    let (name, drip) = store.pill_at(0).unwrap();
    assert_eq!(name, "nvim");
    assert_eq!(drip.site, "~/.config/nvim");
    let (name, drip) = store.pill_at(1).unwrap();
    assert_eq!(name, "zsh");
    assert_eq!(drip.arrows.len(), 1);

    // parse with mac
    let machine = machine_with(&["mac"]);
    let store = Drugstore::try_from(&content[..], &machine).unwrap();
    assert_eq!(store.pill_count(), 1);
    let (name, drip) = store.pill_at(0).unwrap();
    assert_eq!(name, "zsh");
    assert_eq!(drip.arrows.len(), 2);
    assert_eq!(drip.rel_repo, "zsh");
}

#[test]
fn machine_reads_every_field() {
    let text = "env = [\"linux\", \"arch\"]\n[repo]\nname = \"dots\"\nlocal = \"/srv/dots\"\n[defaults]\nsync = \"copy\"\nignore = [\"*.swp\"]\n";
    let m = Machine::try_from(text).unwrap();
    assert_eq!(m.env, vec![s("linux"), s("arch")]);
    assert_eq!(m.name, "dots");
    assert_eq!(m.local, "/srv/dots");
    assert_eq!(m.sync, SyncMode::Copy);
    assert_eq!(m.ignore, vec![s("*.swp")]);
}

#[test]
fn machine_with_tutorial_is_refused() {
    let text = format!("{}read_me = \"first edit this file\"\n", UNDERDOSE_TOML);
    assert_eq!(Machine::try_from(&text).unwrap_err(), Error::TutorialIncomplete);
    assert!(Machine::try_from(UNDERDOSE_TOML).is_ok());
}

#[test]
fn machine_with_unknown_key_is_refused() {
    let text = "env = []\nextra = 1\n[repo]\nname = \"d\"\nlocal = \"/d\"\n";
    assert_eq!(Machine::try_from(text).unwrap_err(), Error::ConfigParse(s("extra")));
    assert!(matches!(Machine::try_from("env = [").unwrap_err(), Error::ConfigParse(_)));
}

#[test]
fn remove_tutorial_drops_header_and_blank_tail() {
    assert_eq!(remove_tutorial("a = 1\n[tutorial]\n\n"), "a = 1");
    assert_eq!(remove_tutorial("a = 1\n\n"), "a = 1");
    assert_eq!(remove_tutorial("a = 1\nb = 2"), "a = 1\nb = 2");
}

#[test]
fn resolve_closes_over_ancestors() {
    let map = EnvMap { map: vec![entry("arch", &["linux"]), entry("linux", &[]), entry("mac", &[])] };
    let set = map.resolve(&machine_with(&["arch"])).unwrap();
    assert!(set.check("arch"));
    assert!(set.check("linux"));
    assert!(!set.check("mac"));
    assert!(set.check_all(&vec![s("linux"), s("arch")]));
    assert!(!set.check_all(&vec![s("linux"), s("mac")]));
    assert!(set.check_all(&vec![]));
}

#[test]
fn resolve_rejects_unknown_tag() {
    let map = EnvMap { map: vec![entry("linux", &[])] };
    assert_eq!(map.resolve(&machine_with(&["linux", "bsd"])).unwrap_err(), Error::UnknownTag(s("bsd")));
}

#[test]
fn register_nested_declarations() {
    let decl = ConfValue::Table(vec![(
        s("linux"),
        ConfValue::Table(vec![(s("arch"), ConfValue::Str(s("manjaro")))]),
    )]);
    let map = EnvMap::register(&decl);
    let set = map.resolve(&machine_with(&["manjaro"])).unwrap();
    assert!(set.check("manjaro"));
    assert!(set.check("arch"));
    assert!(set.check("linux"));
    let set = map.resolve(&machine_with(&["arch"])).unwrap();
    assert!(!set.check("manjaro"));
}

#[test]
fn merge_skips_ineligible_fragments() {
    let env = envset(&["linux"]);
    let f1 = || fragment(&["linux"], Some("~/.config/nvim"), None, vec![link("a", "a")]);
    let f2 = || fragment(&["mac"], Some("~/Library/nvim"), None, vec![link("b", "b")]);
    let f3 = || fragment(&[], None, Some("vim"), vec![link("c", "c")]);
    let three = DripApplyIncr::new(&env)
        .apply(PillDecl { name: s("nvim"), drips: vec![f1(), f2(), f3()] })
        .unwrap();
    let two = DripApplyIncr::new(&env).apply(PillDecl { name: s("nvim"), drips: vec![f1(), f3()] }).unwrap();
    assert_eq!(three.drip, two.drip);
    assert_eq!(three.drip.site, "~/.config/nvim");
    assert_eq!(three.drip.rel_repo, "vim");
    assert_eq!(three.drip.arrows, vec![link("a", "a"), link("c", "c")]);
}

#[test]
fn merge_two_sites_fails_either_order() {
    let env = envset(&["linux"]);
    let a = || fragment(&[], Some("/x"), None, vec![]);
    let b = || fragment(&["linux"], Some("/y"), None, vec![]);
    let r = DripApplyIncr::new(&env).apply(PillDecl { name: s("p"), drips: vec![a(), b()] });
    assert_eq!(r.unwrap_err(), Error::DuplicateRoot(s("site")));
    let r = DripApplyIncr::new(&env).apply(PillDecl { name: s("p"), drips: vec![b(), a()] });
    assert_eq!(r.unwrap_err(), Error::DuplicateRoot(s("site")));
}

#[test]
fn merge_without_site_or_fragments() {
    let env = envset(&[]);
    let r = DripApplyIncr::new(&env).apply(PillDecl { name: s("p"), drips: vec![fragment(&[], None, None, vec![])] });
    assert_eq!(r.unwrap_err(), Error::MissingSite(s("p")));
    let p = DripApplyIncr::new(&env)
        .apply(PillDecl { name: s("p"), drips: vec![fragment(&["x"], Some("/s"), None, vec![])] })
        .unwrap();
    assert!(!p.non_empty());
    assert_eq!(p.drip, Drip::empty());
}

#[test]
fn store_rejects_duplicate_pills() {
    let text = "env = \"linux\"\n[[pill]]\nname = \"a\"\n[[pill.drip]]\nsite = \"/a\"\narrow = [{ site = \"x\", link = \"x\" }]\n[[pill]]\nname = \"a\"\n[[pill.drip]]\nsite = \"/b\"\narrow = [{ site = \"y\", link = \"y\" }]\n";
    let r = Drugstore::try_from(text, &machine_with(&["linux"]));
    assert!(matches!(r, Err(Error::DuplicatePill(n)) if n == "a"));
}

#[test]
fn join_and_trim_paths() {
    assert_eq!(join("/a", "b"), "/a/b");
    assert_eq!(join("/a/", "b"), "/a/b");
    assert_eq!(join("/a", "/b"), "/b");
    assert_eq!(join("", "b"), "b");
    assert_eq!(trim("/a/b//").unwrap(), "/a/b");
    assert_eq!(trim("/a/b/.").unwrap(), "/a/b");
    assert!(matches!(trim("/"), Err(Error::ConfigParse(_))));
    assert_eq!(trim(".."), Err(Error::ConfigParse(s(".."))));
    assert_eq!(trim("a/.."), Err(Error::ConfigParse(s("a/.."))));
    assert_eq!(trim("a/../"), Err(Error::ConfigParse(s("a/../"))));
    assert_eq!(trim("."), Err(Error::ConfigParse(s("."))));
    assert_eq!(trim("a/b..").unwrap(), "a/b..");
    assert_eq!(trim("a/.b").unwrap(), "a/.b");
    assert_eq!(peek("/a/b/", None).unwrap(), "/a/b");
    assert_eq!(peek("/a/b/", Some(s("/real/b"))).unwrap(), "/real/b");
}

#[test]
fn home_expansion_leaves_plain_paths() {
    assert_eq!(expand_home("/etc/x"), "/etc/x");
    assert_eq!(expand_home("~user/x"), "~user/x");
    let e = expand_home("~/x");
    assert!(e.ends_with("/x"));
    assert!(!e.starts_with('~'));
}

#[test]
fn link_plan_ignores_direction() {
    let drip = Drip { site: s("/home/u/.config/nvim"), rel_repo: s("nvim"), arrows: vec![link("init.lua", "lua/init.lua")], ignore: Vec::new() };
    let want = LeafPlan::Link { src: s("/r/nvim/lua/init.lua"), dst: s("/home/u/.config/nvim/init.lua") };
    assert_eq!(plan_arrow("/r", &drip, &drip.arrows[0], TaskArrow::SiteToRepo), want);
    assert_eq!(plan_arrow("/r", &drip, &drip.arrows[0], TaskArrow::RepoToSite), want);
}

#[test]
fn copy_plan_follows_direction() {
    let drip = Drip {
        site: s("/home/u"),
        rel_repo: s("zsh"),
        arrows: vec![
            Arrow { rel_site: s(".zshrc"), src: ArrowSrc::Copy(s("zshrc")) },
            Arrow { rel_site: s("src/x"), src: ArrowSrc::Git(s("https://example.com/x.git")) },
            Arrow { rel_site: s("inbox"), src: ArrowSrc::Collector },
        ],
        ignore: Vec::new(),
    };
    let plans = plan_drip("/r", &drip, TaskArrow::SiteToRepo);
    assert_eq!(plans[0], LeafPlan::Copy { src: s("/home/u/.zshrc"), dst: s("/r/zsh/zshrc") });
    assert_eq!(plans[1], LeafPlan::Clone { remote: s("https://example.com/x.git"), dst: s("/home/u/src/x") });
    assert_eq!(plans[2], LeafPlan::Nothing);
    let plans = Executor { repo: "/r", drip: &drip }.plan();
    assert_eq!(plans[0], LeafPlan::Copy { src: s("/r/zsh/zshrc"), dst: s("/home/u/.zshrc") });
}

#[test]
fn ignored_entries_yield_nothing() {
    let ignore = IgnoreSetBuilder::new().chain(&vec![s("**/target/"), s("*.swp")]).unwrap().build().unwrap();
    assert!(ignore.is_ignored("/r/x/target"));
    assert!(!ignore.is_ignored("/r/x/main.rs"));
    let mut walk = CopyWalk::new(s("/r/x"), s("/s/x"));
    assert!(!walk.skips(&ignore, None));
    let names = vec![s("target"), s("a.swp"), s("main.rs"), s("/etc")];
    walk.step(&ignore, None, None, EntryKind::Dir(names)).unwrap();
    assert_eq!(walk.pending.len(), 3);
    while let Some((src, _)) = walk.next_pair() {
        let ignored = src.ends_with("target") || src.ends_with(".swp");
        assert_eq!(walk.skips(&ignore, None), ignored);
        let kind = if src.ends_with("target") { EntryKind::Dir(vec![s("debug")]) } else { EntryKind::File };
        walk.step(&ignore, None, None, kind).unwrap();
    }
    assert!(walk.is_done());
    assert_eq!(walk.tasks.len(), 1);
    assert_eq!(walk.tasks[0].src, "/r/x/main.rs");
    assert_eq!(walk.tasks[0].dst, "/s/x/main.rs");
    assert_eq!(walk.tasks[0].mode, AtomMode::FileCopy);
}

#[test]
fn walk_uses_canonical_forms_and_rejects_nameless_paths() {
    let ignore = IgnoreSetBuilder::new().build().unwrap();
    let mut walk = CopyWalk::new(s("/r/f/"), s("/s/f"));
    walk.step(&ignore, Some(s("/real/f")), None, EntryKind::File).unwrap();
    assert_eq!(walk.tasks[0].src, "/real/f");
    assert_eq!(walk.tasks[0].dst, "/s/f");
    let mut walk = CopyWalk::new(s("/r/f"), s("/"));
    assert!(matches!(walk.step(&ignore, None, None, EntryKind::File), Err(Error::ConfigParse(_))));
    assert!(walk.tasks.is_empty());
    assert!(walk.is_done());
}

#[test]
fn drip_patterns_follow_machine_patterns() {
    let set = underdose::IgnoreSet::for_drip(&vec![s("*.swp")], &vec![s("cache/")]).unwrap();
    assert!(set.is_ignored("a.swp"));
    assert!(set.is_ignored("cache"));
    assert!(!set.is_ignored("main.rs"));
    let env = envset(&[]);
    let mut f = fragment(&[], Some("/s"), None, vec![link("a", "a")]);
    f.ignore = vec![s("x/")];
    let mut g = fragment(&[], None, None, vec![]);
    g.ignore = vec![s("y")];
    let p = DripApplyIncr::new(&env).apply(PillDecl { name: s("p"), drips: vec![f, g] }).unwrap();
    assert_eq!(p.drip.ignore, vec![s("x/"), s("y")]);
}

#[test]
fn walk_skips_other_entries_and_bad_patterns_fail() {
    let ignore = IgnoreSetBuilder::new().build().unwrap();
    let mut walk = CopyWalk::new(s("/r/sock"), s("/s/sock"));
    walk.step(&ignore, None, None, EntryKind::Other).unwrap();
    assert!(walk.is_done());
    assert!(walk.tasks.is_empty());
    assert!(matches!(IgnoreSetBuilder::new().chain(&vec![s("a[")]), Err(Error::ConfigParse(p)) if p == "a["));
    assert!(matches!(underdose::IgnoreSet::for_drip(&vec![], &vec![s("b{")]), Err(Error::ConfigParse(_))));
}

#[test]
fn nvim_scenario_links_repo_to_site() {
    let map = EnvMap { map: vec![entry("arch", &["linux"])] };
    let machine = Machine { local: s("/home/u/dots"), ..machine_with(&["arch"]) };
    let env = map.resolve(&machine).unwrap();
    let pill = DripApplyIncr::new(&env)
        .apply(PillDecl {
            name: s("nvim"),
            drips: vec![fragment(&["linux"], Some("~/.config/nvim"), Some("nvim"), vec![link(".", ".")])],
        })
        .unwrap();
    assert!(pill.non_empty());
    let plans = plan_drip(&machine.local, &pill.drip, TaskArrow::RepoToSite);
    assert_eq!(plans.len(), 1);
    let (src, dst) = match &plans[0] {
        LeafPlan::Link { src, dst } => (src.clone(), dst.clone()),
        other => panic!("unexpected plan {:?}", other),
    };
    assert_eq!(src, "/home/u/dots/nvim/.");
    let task = link_task(&src, Some(s("/home/u/dots/nvim")), &dst).unwrap();
    assert_eq!(task.src, "/home/u/dots/nvim");
    assert_eq!(task.dst, "~/.config/nvim");
    assert_eq!(task.mode, AtomMode::Link);
    assert_eq!(link_task(&src, None, &dst).unwrap_err(), Error::MissingSource(src.clone()));
}

#[test]
fn executor_checks() {
    let t = |mode| underdose::AtomTask { src: s("/r/a"), dst: s("/s/a"), mode };
    assert_eq!(Executor::check_task(&t(AtomMode::Link), false, false), Err(Error::MissingSource(s("/r/a"))));
    assert_eq!(Executor::check_task(&t(AtomMode::Link), true, true), Err(Error::DestinationExists(s("/s/a"))));
    assert_eq!(Executor::check_task(&t(AtomMode::Link), true, false), Ok(()));
    assert_eq!(Executor::check_task(&t(AtomMode::FileCopy), true, true), Ok(()));
    assert_eq!(Executor::check_clone("/s/x", true), Err(Error::DestinationExists(s("/s/x"))));
    assert_eq!(Executor::check_clone("/s/x", false), Ok(()));
}

#[test]
fn display_arrows() {
    assert_eq!(AtomMode::FileCopy.display_arrow(), "==>");
    assert_eq!(AtomMode::Link.display_arrow(), "~~>");
}

#[test]
fn version_paths_and_selection() {
    let d = DreamDrip { name: s("nvim"), site: s("/s"), versions: vec![1, 2, 3] };
    assert_eq!(d.path("/data/dreams", 1), "/data/dreams/nvim/00000000-0000-0000-0000-000000000001");
    assert_eq!(d.matches_uuid("00000000-0000-0000-0000-000000000002"), vec![2]);
    assert_eq!(d.matches_uuid("nope"), Vec::<u128>::new());
    assert_eq!(d.last_version(), Some(3));
    assert_eq!(d.check_version_present(2, true), Ok(()));
    assert_eq!(
        d.check_version_present(2, false),
        Err(Error::VersionNotFound(s("00000000-0000-0000-0000-000000000002")))
    );
}

#[test]
fn clean_all_removes_every_version() {
    let mut d = DreamDrip { name: s("nvim"), site: s("/s"), versions: vec![7, 8, 9] };
    let all = d.matches_uuid("all");
    assert_eq!(all, vec![7, 8, 9]);
    d.remove_uuids(&all);
    assert!(d.versions.is_empty());
    let again = d.matches_uuid("all");
    assert!(again.is_empty());
    d.remove_uuids(&again);
    assert!(d.versions.is_empty());
}

#[test]
fn dump_of_absent_paths_records_nothing() {
    let drip = Drip { site: s("/s"), rel_repo: s("p"), arrows: vec![link("a", "a"), link("b", "b")], ignore: Vec::new() };
    let plan = Dreamer::dump_plan(&drip, "/d/p/v1", &vec![SiteState::Absent, SiteState::Symlink]);
    assert_eq!(plan[0], DumpAction::Keep);
    assert_eq!(plan[1], DumpAction::RemoveLink { site: s("/s/b") });
    let mut dreamer = Dreamer::new();
    dreamer.commit_dump(&s("p"), &s("/s"), 5, &plan);
    assert!(dreamer.map.is_empty());
}

#[test]
fn dump_then_restore_pairs_match() {
    let drip = Drip { site: s("/s"), rel_repo: s("p"), arrows: vec![link("a", "a"), link("b/c", "b")], ignore: Vec::new() };
    let plan = Dreamer::dump_plan(&drip, "/d/p/v1", &vec![SiteState::Present, SiteState::Present]);
    assert_eq!(plan[1], DumpAction::Move { site: s("/s/b/c"), backup: s("/d/p/v1/b/c") });
    let back = Dreamer::restore_plan(&drip, "/d/p/v1");
    assert_eq!(back[1], (s("/d/p/v1/b/c"), s("/s/b/c")));
    let mut dreamer = Dreamer::new();
    dreamer.commit_dump(&s("p"), &s("/s"), 5, &plan);
    dreamer.commit_dump(&s("p"), &s("/s"), 6, &plan);
    assert_eq!(dreamer.map.len(), 1);
    assert_eq!(dreamer.map[0].versions, vec![5, 6]);
    assert_eq!(dreamer.find(&s("p")), Some(0));
    assert_eq!(dreamer.find(&s("q")), None);
}

#[test]
fn prompt_replies() {
    assert_eq!(Prompt::interpret("  Y \n"), Reply::Overwrite);
    assert_eq!(Prompt::interpret("!\n"), Reply::Abort);
    assert_eq!(Prompt::interpret("n\n"), Reply::Skip);
    assert_eq!(Prompt::interpret(""), Reply::Skip);
    assert_eq!(Prompt::interpret("\u{3000}y\u{a0}"), Reply::Overwrite);
    assert_eq!(Prompt::reply_of("y"), Reply::Overwrite);
    assert_eq!(Prompt::new("overwrite? ").line, "overwrite? ");
}

#[test]
fn fixed_places() {
    let st = UnderdoseStatics::new("/home/u/.config/underdose", "/home/u/.local/share/underdose");
    assert_eq!(st.conf, "/home/u/.config/underdose/Underdose.toml");
    assert_eq!(st.dreams, "/home/u/.local/share/underdose/dreams");
    assert_eq!(st.index_path(), "/home/u/.local/share/underdose/dreams/index.json");
    let m = machine_with(&["linux"]);
    assert_eq!(m.repo().local, "/home/u/drugstore");
}
