use indexmap::IndexMap;
use plugin_docs::doc_index::{DocError, Docs};
use plugin_docs::generate_rustdoc::Manage as RepoDocsBuilder;
use plugin_docs::identifier::{
    checkout_path, git_link, split_user_repo, user_repo_from_url, IdentifierParseError,
};
use plugin_docs::manage::Manage;
use plugin_docs::repo::{Repo, SelfRepo, Submodule, Workspace};
use plugin_docs::rustdoc::{crate_name, relative_path, trim_url_prefix, workspace_urls};
use plugin_docs::submodule_add::{submodule_add, submodule_remove};

fn s(x: &str) -> String {
    x.to_owned()
}

fn strings(v: &[&str]) -> Vec<String> {
    v.iter().map(|x| s(x)).collect()
}

fn workspace(dir: &str, packages: &[&str]) -> Workspace {
    Workspace {
        dir: s(dir),
        target_directory: format!("{dir}/target"),
        packages: strings(packages),
    }
}

fn repo(user: &str, name: &str, workspaces: Vec<Workspace>) -> Repo {
    Repo { user: s(user), repo: s(name), workspaces }
}

fn listing(pairs: &[(&str, &str)]) -> Vec<(String, String)> {
    pairs.iter().map(|(a, b)| (s(a), s(b))).collect()
}

#[test]
fn parse_submodules() {
    let mut this = SelfRepo { submodules: vec![] };
    let l = listing(&[
        ("repos/os-checker/plugin-cargo", "https://github.com/os-checker/plugin-cargo.git"),
        ("repos/os-checker/plugin", "https://github.com/os-checker/plugin"),
    ]);
    this.update_submodules(&l);
    assert_eq!(this.vec_of_user_repo(), strings(&["os-checker/plugin-cargo", "os-checker/plugin"]));
    assert_eq!(this.submodules[0].local, "repos/os-checker/plugin-cargo");
}

#[test]
fn add() {
    let local = IndexMap::new();
    let cmds = submodule_add("os-checker/os-checker-test-suite", &local).unwrap();
    assert_eq!(
        cmds,
        vec![
            strings(&[
                "git",
                "submodule",
                "add",
                "https://github.com/os-checker/os-checker-test-suite.git",
                "repos/os-checker/os-checker-test-suite",
            ]),
            strings(&["git", "commit", "-m", "submodule: add os-checker/os-checker-test-suite"]),
        ]
    );
}

#[test]
fn remove() {
    let cmds = submodule_remove("repos/os-checker/plugin-cargo");
    assert_eq!(
        cmds,
        vec![
            strings(&["git", "submodule", "deinit", "repos/os-checker/plugin-cargo"]),
            strings(&["git", "rm", "repos/os-checker/plugin-cargo"]),
            strings(&["rm", "-rf", ".git/modules/repos/os-checker/plugin-cargo"]),
            strings(&["rm", "-rf", "repos/os-checker/plugin-cargo"]),
            strings(&["git", "commit", "-m", "submodule: remove repos/os-checker/plugin-cargo"]),
        ]
    );
}

#[test]
fn url_with_and_without_git_suffix() {
    assert_eq!(user_repo_from_url("https://github.com/alice/foo.git"), Ok(s("alice/foo")));
    assert_eq!(user_repo_from_url("https://github.com/alice/foo"), Ok(s("alice/foo")));
}

#[test]
fn url_without_host_prefix_is_refused() {
    assert_eq!(
        user_repo_from_url("https://gitlab.com/alice/foo.git"),
        Err(IdentifierParseError::MissingHostPrefix)
    );
    assert_eq!(user_repo_from_url(""), Err(IdentifierParseError::MissingHostPrefix));
}

#[test]
fn url_without_two_segments_is_refused() {
    assert_eq!(
        user_repo_from_url("https://github.com/alice"),
        Err(IdentifierParseError::NotOwnerSlashName)
    );
    assert_eq!(
        user_repo_from_url("https://github.com/alice/foo/bar.git"),
        Err(IdentifierParseError::NotOwnerSlashName)
    );
    assert_eq!(
        user_repo_from_url("https://github.com//foo"),
        Err(IdentifierParseError::NotOwnerSlashName)
    );
}

#[test]
fn link_round_trip() {
    let link = git_link("alice", "foo");
    assert_eq!(link, "https://github.com/alice/foo.git");
    assert_eq!(user_repo_from_url(&link), Ok(s("alice/foo")));
    assert_eq!(checkout_path("alice", "foo"), "repos/alice/foo");
}

#[test]
fn split_identifier() {
    assert_eq!(split_user_repo("alice/foo"), Ok((s("alice"), s("foo"))));
    assert_eq!(split_user_repo("alice"), Err(IdentifierParseError::NotOwnerSlashName));
    assert_eq!(split_user_repo("alice/"), Err(IdentifierParseError::NotOwnerSlashName));
    assert_eq!(split_user_repo("a/b/c"), Err(IdentifierParseError::NotOwnerSlashName));
}

#[test]
fn slug_replaces_hyphens() {
    assert_eq!(crate_name("foo-core-x"), "foo_core_x");
    assert_eq!(crate_name("plain"), "plain");
    assert_eq!(crate_name(""), "");
}

#[test]
fn url_prefix_loses_trailing_slashes() {
    assert_eq!(trim_url_prefix("https://docs.example.com//"), "https://docs.example.com");
    assert_eq!(trim_url_prefix("https://docs.example.com"), "https://docs.example.com");
    assert_eq!(trim_url_prefix("///"), "");
}

#[test]
fn relative_path_below_root() {
    assert_eq!(relative_path("/root/repos/alice/foo/ws", "/root/repos"), Some(s("alice/foo/ws")));
    assert_eq!(relative_path("/elsewhere/alice", "/root/repos"), None);
    assert_eq!(relative_path("/root/reposx/a", "/root/repos"), None);
}

#[test]
fn workspace_urls_mark_missing_and_sort() {
    let pk = strings(&["zeta-b", "alpha-a"]);
    let dirs = strings(&["zeta_b"]);
    let urls = workspace_urls(&pk, Some(&dirs), "P", "u/r/ws");
    let entries: Vec<_> = urls.iter().map(|(k, v)| (k.clone(), v.clone())).collect();
    assert_eq!(
        entries,
        vec![(s("alpha-a"), None), (s("zeta-b"), Some(s("P/u/r/ws/zeta_b")))]
    );
    let unlisted = workspace_urls(&pk, None, "P", "u/r/ws");
    assert!(unlisted.values().all(|v| v.is_none()));
    assert_eq!(unlisted.len(), 2);
}

#[test]
fn scenario_one_repository() {
    let mut m = Manage::new(SelfRepo { submodules: vec![] });
    let desired = strings(&["alice/foo"]);
    let adds = m.additions(&desired);
    assert_eq!(adds, desired);
    let cmds = submodule_add(&adds[0], &m.local).unwrap();
    assert_eq!(cmds[0][3], "https://github.com/alice/foo.git");
    assert_eq!(cmds[0][4], "repos/alice/foo");

    let pending = m
        .update_submodules(&listing(&[("repos/alice/foo", "https://github.com/alice/foo.git")]));
    assert_eq!(pending, vec![0]);
    let meta = repo("alice", "foo", vec![workspace("/root/repos/alice/foo/ws", &["foo-core", "foo-cli"])]);
    assert!(m.register(0, Some(meta)).is_empty());

    let listings = vec![vec![Some(strings(&["foo_core"]))]];
    let docs = m
        .cargo_doc(&listings, "https://docs.example.com", "/root/repos", "/root/repos/deploy");
    let foo = &docs.docs["alice"]["foo"];
    assert_eq!(foo["foo-core"], Some(s("https://docs.example.com/alice/foo/ws/foo_core")));
    assert_eq!(foo["foo-cli"], None);
    assert_eq!(docs.docs.len(), 1);
    assert_eq!(docs.docs["alice"].len(), 1);
    assert_eq!(foo.len(), 2);
    assert_eq!(docs.dirs.len(), 1);
    assert_eq!(docs.dirs[0].src, "/root/repos/alice/foo/ws/target/doc");
    assert_eq!(docs.dirs[0].dst, "/root/repos/deploy/alice/foo/ws");
}

#[test]
fn untracked_identifier_takes_no_action() {
    let mut m = Manage::new(SelfRepo { submodules: vec![] });
    let pending = m
        .update_submodules(&listing(&[
            ("repos/alice/foo", "https://github.com/alice/foo.git"),
            ("repos/bob/gone", "https://github.com/bob/gone.git"),
        ]));
    assert_eq!(pending, vec![0, 1]);
    m.register(1, Some(repo("bob", "gone", vec![])));
    m.register(0, Some(repo("alice", "foo", vec![])));
    // "bob/gone" is dropped from the desired list and from version control.
    let adds = m.additions(&strings(&["alice/foo"]));
    assert!(adds.is_empty());
    let pending = m
        .update_submodules(&listing(&[("repos/alice/foo", "https://github.com/alice/foo.git")]));
    assert!(pending.is_empty());
    assert_eq!(m.self_repo.vec_of_user_repo(), strings(&["alice/foo"]));
    assert_eq!(m.local.len(), 2);
}

#[test]
fn reconciling_twice_adds_nothing_more() {
    let mut m = Manage::new(SelfRepo { submodules: vec![] });
    let desired = strings(&["alice/foo", "bob/bar", "alice/foo"]);
    let first = m.additions(&desired);
    assert_eq!(first, strings(&["alice/foo", "bob/bar"]));
    let pending = m
        .update_submodules(&listing(&[
            ("repos/alice/foo", "https://github.com/alice/foo.git"),
            ("repos/bob/bar", "https://github.com/bob/bar.git"),
        ]));
    assert_eq!(pending, vec![0, 1]);
    m.register(0, Some(repo("alice", "foo", vec![])));
    m.register(1, Some(repo("bob", "bar", vec![])));
    assert!(m.additions(&desired).is_empty());
    assert!(m.pending().is_empty());
}

#[test]
fn failed_resolution_rolls_back() {
    let mut m = Manage::new(SelfRepo { submodules: vec![] });
    m.update_submodules(&listing(&[
        ("repos/alice/foo", "https://github.com/alice/foo.git"),
        ("repos/bob/bad", "https://github.com/bob/bad"),
    ]));
    let cmds = m.register(1, None);
    assert_eq!(cmds.len(), 5);
    assert_eq!(cmds[0], strings(&["git", "submodule", "deinit", "repos/bob/bad"]));
    assert_eq!(m.self_repo.vec_of_user_repo(), strings(&["alice/foo"]));
    assert!(m.local.is_empty());
}

#[test]
fn malformed_identifier_in_desired_list() {
    let m = Manage::new(SelfRepo { submodules: vec![] });
    assert_eq!(m.additions(&strings(&["nobody", "alice/foo", "a/b/c"])), strings(&["alice/foo"]));
    assert_eq!(submodule_add("nobody", &m.local), Err(IdentifierParseError::NotOwnerSlashName));
}

#[test]
fn unparsable_checkout_is_left_out() {
    let mut m = Manage::new(SelfRepo { submodules: vec![] });
    let pending = m.update_submodules(&listing(&[
        ("x", "git@example.com:x/y"),
        ("repos/alice/foo", "https://github.com/alice/foo.git"),
    ]));
    assert_eq!(pending, vec![0]);
    assert_eq!(m.self_repo.vec_of_user_repo(), strings(&["alice/foo"]));
    let ok = Submodule::new(s("p"), s("https://github.com/a/b.git")).unwrap();
    assert_eq!(ok.user_repo, "a/b");
}

#[test]
fn index_sorted_at_every_level() {
    let mut docs = Docs::new();
    let b = RepoDocsBuilder::new(repo(
        "zed",
        "yak",
        vec![workspace("/r/zed/yak/w2", &["m-2", "b-1"]), workspace("/r/zed/yak/w1", &["a-0"])],
    ));
    let a = RepoDocsBuilder::new(repo("amy", "box", vec![workspace("/r/amy/box", &["c"])]));
    let listings = vec![Some(strings(&["m_2", "b_1"])), Some(strings(&["a_0"]))];
    assert!(b.cargo_doc(&mut docs, &listings, "", "/r", "/d").is_empty());
    assert!(a.cargo_doc(&mut docs, &vec![None], "", "/r", "/d").is_empty());
    docs.finish();
    let owners: Vec<_> = docs.docs.keys().cloned().collect();
    assert_eq!(owners, strings(&["amy", "zed"]));
    let comps: Vec<_> = docs.docs["zed"]["yak"].keys().cloned().collect();
    assert_eq!(comps, strings(&["a-0", "b-1", "m-2"]));
    assert_eq!(docs.docs["zed"]["yak"]["a-0"], Some(s("/zed/yak/w1/a_0")));
    assert_eq!(docs.docs["amy"]["box"]["c"], None);
    assert_eq!(docs.dirs.len(), 2);
}

#[test]
fn workspace_outside_root_is_skipped() {
    let mut docs = Docs::new();
    let b = RepoDocsBuilder::new(repo(
        "u",
        "r",
        vec![workspace("/elsewhere/ws", &["c"]), workspace("/r/u/r/ws", &["d"])],
    ));
    let listings = vec![Some(strings(&["c"])), Some(strings(&["d"]))];
    assert_eq!(b.cargo_doc(&mut docs, &listings, "", "/r", "/d"), vec![0]);
    assert_eq!(docs.docs["u"]["r"].len(), 1);
    assert_eq!(docs.docs["u"]["r"]["d"], Some(s("/u/r/ws/d")));
    assert_eq!(docs.dirs.len(), 1);
    assert_eq!(docs.dirs[0].dst, "/d/u/r/ws");
    let mut other = Docs::new();
    let mut record = workspace("/elsewhere/x", &["e"]);
    record.packages.push(s("f"));
    assert_eq!(
        other.record_workspace("u", "r", &record, &None, "", "/r", "/d"),
        Err(DocError::WorkspaceOutsideRoot)
    );
    assert!(other.docs.is_empty());
}

#[test]
fn later_workspace_extends_components() {
    let mut docs = Docs::new();
    let b = RepoDocsBuilder::new(repo(
        "u",
        "r",
        vec![workspace("/r/u/r/a", &["x"]), workspace("/r/u/r/b", &["x", "y"])],
    ));
    let listings = vec![Some(strings(&["x"])), Some(strings(&["y"]))];
    b.cargo_doc(&mut docs, &listings, "https://h/", "/r", "/d");
    let comps = &docs.docs["u"]["r"];
    assert_eq!(comps["x"], None);
    assert_eq!(comps["y"], Some(s("https://h/u/r/b/y")));
}
