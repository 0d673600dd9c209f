//! The version-control commands that add or remove a tracked checkout.
use crate::identifier::{
    checkout_path, git_link, is_user_repo, link_of, path_of, repo_of, split_user_repo, user_of,
    IdentifierParseError,
};
use crate::keys::index_of;
use crate::ordered::{local_contains_key, local_entries, Local};
use crate::rustdoc::views;
use vstd::prelude::*;
use vstd::string::StringExecFns;

verus! {

/// A command line as the views of its words.
pub open spec fn cmd_views(c: Seq<Vec<String>>) -> Seq<Seq<Seq<char>>> {
    c.map_values(|w: Vec<String>| views(w@))
}

/// The commands that start tracking `id`: add the checkout, then commit.
pub open spec fn add_cmds(id: Seq<char>) -> Seq<Seq<Seq<char>>> {
    let (u, r) = (user_of(id), repo_of(id));
    seq![
        seq!["git"@, "submodule"@, "add"@, link_of(u, r), path_of(u, r)],
        seq!["git"@, "commit"@, "-m"@, "submodule: add "@ + id],
    ]
}

/// The commands that stop tracking the checkout at `path`: deinitialize,
/// untrack, purge its internal state, delete its directory, commit.
pub open spec fn remove_cmds(path: Seq<char>) -> Seq<Seq<Seq<char>>> {
    seq![
        seq!["git"@, "submodule"@, "deinit"@, path],
        seq!["git"@, "rm"@, path],
        seq!["rm"@, "-rf"@, ".git/modules/"@ + path],
        seq!["rm"@, "-rf"@, path],
        seq!["git"@, "commit"@, "-m"@, "submodule: remove "@ + path],
    ]
}

fn words(a: &str, b: &str, c: &str, d: String) -> (r: Vec<String>)
    ensures
        views(r@) == seq![a@, b@, c@, d@],
{
    let mut v: Vec<String> = Vec::new();
    v.push(a.to_owned());
    v.push(b.to_owned());
    v.push(c.to_owned());
    v.push(d);
    assert(views(v@) =~= seq![a@, b@, c@, d@]);
    v
}

fn prefixed(p: &str, s: &str) -> (r: String)
    ensures
        r@ == p@ + s@,
{
    let mut r = p.to_owned();
    r.append(s);
    r
}

/// The commands that start tracking `user_repo`; none where the registry
/// `set` already holds it.
pub fn submodule_add(user_repo: &str, set: &Local) -> (r: Result<Vec<Vec<String>>, IdentifierParseError>)
    ensures
        r is Err <==> !is_user_repo(user_repo@),
        r matches Err(e) ==> e == IdentifierParseError::NotOwnerSlashName,
        r matches Ok(c) ==> cmd_views(c@) == if index_of(local_entries(*set), user_repo@) >= 0 {
            Seq::empty()
        } else {
            add_cmds(user_repo@)
        },
{
    let (user, repo) = split_user_repo(user_repo)?;
    let mut cmds: Vec<Vec<String>> = Vec::new();
    if local_contains_key(set, user_repo) {
        assert(cmd_views(cmds@) =~= Seq::empty());
        return Ok(cmds);
    }
    let link = git_link(user.as_str(), repo.as_str());
    let path = checkout_path(user.as_str(), repo.as_str());
    let ghost lv = link@;
    let ghost pv = path@;
    let mut add = words("git", "submodule", "add", link);
    let ghost a0 = add@;
    add.push(path);
    assert(add@ == a0.push(path));
    assert(views(add@) =~= views(a0).push(pv));
    assert(views(add@) =~= seq!["git"@, "submodule"@, "add"@, lv, pv]);
    let commit = words("git", "commit", "-m", prefixed("submodule: add ", user_repo));
    let ghost av = views(add@);
    let ghost cv = views(commit@);
    cmds.push(add);
    cmds.push(commit);
    assert(cmd_views(cmds@)[0] == av);
    assert(cmd_views(cmds@)[1] == cv);
    assert(cmd_views(cmds@) =~= add_cmds(user_repo@));
    Ok(cmds)
}

/// The commands that stop tracking the checkout at `path`, to be run in
/// order, each attempted whether or not the ones before succeeded.
pub fn submodule_remove(path: &str) -> (r: Vec<Vec<String>>)
    ensures
        cmd_views(r@) == remove_cmds(path@),
{
    let mut cmds: Vec<Vec<String>> = Vec::new();
    let mut deinit: Vec<String> = Vec::new();
    deinit.push("git".to_owned());
    deinit.push("submodule".to_owned());
    deinit.push("deinit".to_owned());
    deinit.push(path.to_owned());
    assert(views(deinit@) =~= seq!["git"@, "submodule"@, "deinit"@, path@]);
    let mut rm: Vec<String> = Vec::new();
    rm.push("git".to_owned());
    rm.push("rm".to_owned());
    rm.push(path.to_owned());
    assert(views(rm@) =~= seq!["git"@, "rm"@, path@]);
    let mut purge: Vec<String> = Vec::new();
    purge.push("rm".to_owned());
    purge.push("-rf".to_owned());
    purge.push(prefixed(".git/modules/", path));
    assert(views(purge@) =~= seq!["rm"@, "-rf"@, ".git/modules/"@ + path@]);
    let mut delete: Vec<String> = Vec::new();
    delete.push("rm".to_owned());
    delete.push("-rf".to_owned());
    delete.push(path.to_owned());
    assert(views(delete@) =~= seq!["rm"@, "-rf"@, path@]);
    let commit = words("git", "commit", "-m", prefixed("submodule: remove ", path));
    cmds.push(deinit);
    cmds.push(rm);
    cmds.push(purge);
    cmds.push(delete);
    cmds.push(commit);
    assert(cmd_views(cmds@) =~= remove_cmds(path@));
    cmds
}

} // verus!
