//! The documentation index (owner, repository, component, URL or missing)
//! and the queue of output directories to relocate.
use crate::keys::{
    entries_map, extend_entries, index_of, insert_entry, keys_sorted, keys_unique, lemma_extend_entries,
    lemma_index_of, lemma_index_of_same_keys, lemma_index_of_unique, lemma_insert_entry,
    lemma_same_entries_map, lemma_sorted_unique, lookup,
};
use crate::ordered::{
    opt_view, owner_entries, owners_get, owners_insert, owners_new, repo_entries, repos_clone,
    repos_get, repos_get_index, repos_insert, repos_len, repos_new, repos_sort, owners_get_index,
    owners_len, owners_sort, urls_sort, RepoDocs, url_entries, urls_clone, urls_get_index, urls_insert, urls_len,
    urls_new, ComponentUrls, OwnerSeq, RepoSeq, UrlSeq, UserRepoPkgCrate,
};
use crate::repo::Workspace;
use crate::rustdoc::{outcomes_map, relative_of, relative_path, views, workspace_urls};
use vstd::prelude::*;
use vstd::string::StringExecFns;

verus! {

/// A queued move of a workspace's generated documentation directory.
pub struct DocDir {
    pub src: String,
    pub dst: String,
}

/// Why a workspace could not be recorded.
#[derive(Debug, PartialEq, Eq, Structural, Clone, Copy)]
pub enum DocError {
    /// The workspace directory does not lie below the repositories root.
    WorkspaceOutsideRoot,
}

/// A queued move as (source, destination).
pub open spec fn dir_views(d: Seq<DocDir>) -> Seq<(Seq<char>, Seq<char>)> {
    d.map_values(|x: DocDir| (x.src@, x.dst@))
}

/// The listing of an output directory, if it could be read.
pub open spec fn listing_view(o: Option<Vec<String>>) -> Option<Seq<Seq<char>>> {
    match o {
        Some(v) => Some(views(v@)),
        None => None,
    }
}

/// Where the documentation build of a workspace leaves its output.
pub open spec fn doc_dir_of(target: Seq<char>) -> Seq<char> {
    target + seq!['/', 'd', 'o', 'c']
}

/// Where a workspace's documentation goes in the deployment tree.
pub open spec fn deploy_dst(deploy: Seq<char>, rel: Seq<char>) -> Seq<char> {
    deploy + seq!['/'] + rel
}

/// The directory that the documentation build of `ws` writes into.
pub fn doc_dir(ws: &Workspace) -> (r: String)
    ensures
        r@ == doc_dir_of(ws.target_directory@),
{
    let mut d = ws.target_directory.clone();
    d.append("/doc");
    proof {
        reveal_strlit("/doc");
    }
    assert(d@ =~= doc_dir_of(ws.target_directory@));
    d
}

/// Component outcomes of one repository, as a map.
pub open spec fn repos_map(r: RepoSeq) -> Map<Seq<char>, Map<Seq<char>, Option<Seq<char>>>> {
    Map::new(|k: Seq<char>| index_of(r, k) >= 0, |k: Seq<char>| entries_map(r[index_of(r, k)].1))
}

/// The whole index as nested maps: owner, repository, component.
pub open spec fn index_view(o: OwnerSeq) -> Map<
    Seq<char>,
    Map<Seq<char>, Map<Seq<char>, Option<Seq<char>>>>,
> {
    Map::new(|k: Seq<char>| index_of(o, k) >= 0, |k: Seq<char>| repos_map(o[index_of(o, k)].1))
}

pub open spec fn repos_wf(r: RepoSeq) -> bool {
    &&& keys_unique(r)
    &&& forall|j: int| 0 <= j < r.len() ==> keys_unique(#[trigger] r[j].1)
}

/// Keys are distinct at every level.
pub open spec fn index_wf(o: OwnerSeq) -> bool {
    &&& keys_unique(o)
    &&& forall|i: int| 0 <= i < o.len() ==> repos_wf(#[trigger] o[i].1)
}

pub open spec fn repos_sorted(r: RepoSeq) -> bool {
    &&& keys_sorted(r)
    &&& forall|j: int| 0 <= j < r.len() ==> keys_sorted(#[trigger] r[j].1)
}

/// Keys stand in increasing order at every level.
pub open spec fn index_sorted(o: OwnerSeq) -> bool {
    &&& keys_sorted(o)
    &&& forall|i: int| 0 <= i < o.len() ==> repos_sorted(#[trigger] o[i].1)
}

/// The repository entries recorded for `user`, or none.
pub open spec fn repos_of(o: OwnerSeq, user: Seq<char>) -> RepoSeq {
    match lookup(o, user) {
        Some(r) => r,
        None => RepoSeq::empty(),
    }
}

/// The component entries recorded for `repo`, or none.
pub open spec fn urls_of(r: RepoSeq, repo: Seq<char>) -> UrlSeq {
    match lookup(r, repo) {
        Some(c) => c,
        None => UrlSeq::empty(),
    }
}

/// The index after adding the outcomes `u` of one workspace of `user/repo`:
/// owner and repository entries are created where absent, and the
/// components extend those already recorded, a repeated name taking the
/// later outcome.
pub open spec fn merge_spec(o: OwnerSeq, user: Seq<char>, repo: Seq<char>, u: UrlSeq) -> OwnerSeq {
    let r = repos_of(o, user);
    insert_entry(o, user, insert_entry(r, repo, extend_entries(urls_of(r, repo), u)))
}

/// The index, as maps, after adding the outcomes `c` of one workspace of
/// `user/repo`.
pub open spec fn view_merge(
    v: Map<Seq<char>, Map<Seq<char>, Map<Seq<char>, Option<Seq<char>>>>>,
    user: Seq<char>,
    repo: Seq<char>,
    c: Map<Seq<char>, Option<Seq<char>>>,
) -> Map<Seq<char>, Map<Seq<char>, Map<Seq<char>, Option<Seq<char>>>>> {
    let r = if v.contains_key(user) {
        v[user]
    } else {
        Map::empty()
    };
    let old_c = if r.contains_key(repo) {
        r[repo]
    } else {
        Map::empty()
    };
    v.insert(user, r.insert(repo, old_c.union_prefer_right(c)))
}

/// The documentation index of a run, and the output directories it queued
/// for relocation.
pub struct Docs {
    /// The index written out as `docs.json`.
    pub docs: UserRepoPkgCrate,
    /// Output directories to move, in the order they were queued.
    pub dirs: Vec<DocDir>,
}

impl Docs {
    pub open spec fn entries(&self) -> OwnerSeq {
        owner_entries(self.docs)
    }

    pub open spec fn wf(&self) -> bool {
        index_wf(self.entries())
    }

    pub fn new() -> (r: Docs)
        ensures
            r.wf(),
            r.entries() == OwnerSeq::empty(),
            r.dirs@.len() == 0,
    {
        Docs { docs: owners_new(), dirs: Vec::new() }
    }

    /// Adds the component outcomes of one workspace of `user/repo`.
    pub fn merge(&mut self, user: &str, repo: &str, urls: &ComponentUrls)
        requires
            old(self).wf(),
        ensures
            final(self).wf(),
            final(self).entries() == merge_spec(old(self).entries(), user@, repo@, url_entries(*urls)),
            final(self).dirs == old(self).dirs,
    {
        let ghost o = self.entries();
        let mut repos = match owners_get(&self.docs, user) {
            Some(r) => repos_clone(r),
            None => repos_new(),
        };
        proof {
            lemma_index_of(o, user@);
        }
        let ghost r = repo_entries(repos);
        assert(r == repos_of(o, user@));
        let mut comps = match repos_get(&repos, repo) {
            Some(c) => urls_clone(c),
            None => urls_new(),
        };
        proof {
            lemma_index_of(r, repo@);
        }
        let ghost c = url_entries(comps);
        assert(c == urls_of(r, repo@));
        let ghost u = url_entries(*urls);
        let n = urls_len(urls);
        let mut i: usize = 0;
        while i < n
            invariant
                n == u.len(),
                u == url_entries(*urls),
                i <= n,
                url_entries(comps) == extend_entries(c, u.subrange(0, i as int)),
            decreases n - i,
        {
            let (k, v) = urls_get_index(urls, i).unwrap();
            let v2 = clone_opt(v);
            urls_insert(&mut comps, k.clone(), v2);
            proof {
                assert(u.subrange(0, i + 1).drop_last() =~= u.subrange(0, i as int));
            }
            i = i + 1;
        }
        assert(u.subrange(0, n as int) =~= u);
        let ghost c2 = url_entries(comps);
        repos_insert(&mut repos, repo.to_owned(), comps);
        owners_insert(&mut self.docs, user.to_owned(), repos);
        proof {
            assert(repos_wf(r));
            lemma_extend_entries(c, u);
            lemma_insert_entry_values(r, repo@, c2);
            lemma_insert_entry_values(o, user@, repo_entries(repos));
            lemma_insert_entry(r, repo@, c2);
            lemma_insert_entry(o, user@, repo_entries(repos));
        }
    }

    /// Records one workspace of `user/repo`: the outcome of each of its
    /// packages under the URL prefix `url_prefix`, given the listing of its
    /// output directory (`None` where it could not be read), and, where there
    /// is output, the move of that directory below `deploy_dir`. A workspace
    /// outside `base_dir` is refused and nothing changes.
    pub fn record_workspace(
        &mut self,
        user: &str,
        repo: &str,
        ws: &Workspace,
        listing: &Option<Vec<String>>,
        url_prefix: &str,
        base_dir: &str,
        deploy_dir: &str,
    ) -> (r: Result<(), DocError>)
        requires
            old(self).wf(),
        ensures
            final(self).wf(),
            r is Err <==> relative_of(ws.dir@, base_dir@) is None,
            r is Err ==> final(self).entries() == old(self).entries() && final(self).dirs@ == old(
                self,
            ).dirs@,
            relative_of(ws.dir@, base_dir@) matches Some(rel) ==> index_view(final(self).entries())
                == view_merge(
                index_view(old(self).entries()),
                user@,
                repo@,
                outcomes_map(views(ws.packages@), listing_view(*listing), url_prefix@, rel),
            ) && dir_views(final(self).dirs@) == if listing.is_some() {
                dir_views(old(self).dirs@).push(
                    (doc_dir_of(ws.target_directory@), deploy_dst(deploy_dir@, rel)),
                )
            } else {
                dir_views(old(self).dirs@)
            },
    {
        let rel = match relative_path(ws.dir.as_str(), base_dir) {
            Some(rel) => rel,
            None => {
                return Err(DocError::WorkspaceOutsideRoot);
            },
        };
        let urls = match listing {
            Some(l) => workspace_urls(&ws.packages, Some(l), url_prefix, rel.as_str()),
            None => workspace_urls(&ws.packages, None, url_prefix, rel.as_str()),
        };
        let ghost o = self.entries();
        self.merge(user, repo, &urls);
        proof {
            lemma_merge_records(o, user@, repo@, url_entries(urls));
        }
        if listing.is_some() {
            let src = doc_dir(ws);
            let mut dst = deploy_dir.to_owned();
            dst.append("/");
            dst.append(rel.as_str());
            proof {
                reveal_strlit("/");
            }
            assert(dst@ =~= deploy_dst(deploy_dir@, rel@));
            let ghost before = self.dirs@;
            self.dirs.push(DocDir { src, dst });
            assert(dir_views(self.dirs@) =~= dir_views(before).push((src@, dst@)));
        }
        Ok(())
    }

    /// Sorts every level of the index by key, leaving what it records as it was.
    pub fn finish(&mut self)
        requires
            old(self).wf(),
        ensures
            final(self).wf(),
            index_sorted(final(self).entries()),
            index_view(final(self).entries()) == index_view(old(self).entries()),
            final(self).dirs == old(self).dirs,
    {
        let ghost o0 = self.entries();
        let n = owners_len(&self.docs);
        let mut i: usize = 0;
        while i < n
            invariant
                self.wf(),
                n == o0.len(),
                self.entries().len() == n,
                i <= n,
                self.dirs == old(self).dirs,
                forall|j: int| 0 <= j < n ==> (#[trigger] self.entries()[j]).0 == o0[j].0,
                forall|j: int|
                    0 <= j < i ==> repos_sorted(#[trigger] self.entries()[j].1) && repos_map(
                        self.entries()[j].1,
                    ) == repos_map(o0[j].1),
                forall|j: int| i <= j < n ==> #[trigger] self.entries()[j] == o0[j],
            decreases n - i,
        {
            let ghost o = self.entries();
            let (k, r) = owners_get_index(&self.docs, i).unwrap();
            let key = k.clone();
            let mut repos = repos_clone(r);
            assert(repos_wf(o[i as int].1));
            sort_repos(&mut repos);
            owners_insert(&mut self.docs, key, repos);
            proof {
                lemma_index_of_unique(o, key@, i as int);
                let t = self.entries();
                assert(t == o.update(i as int, (key@, repo_entries(repos))));
                assert(keys_unique(t));
            }
            i = i + 1;
        }
        proof {
            lemma_same_keys_index_view(o0, self.entries());
        }
        let ghost o1 = self.entries();
        owners_sort(&mut self.docs);
        proof {
            let t = self.entries();
            lemma_sorted_unique(t);
            lemma_same_entries_map(o1, t);
            lemma_entries_index_view(o1, t);
            assert forall|j: int| 0 <= j < t.len() implies repos_sorted(#[trigger] t[j].1) && repos_wf(t[j].1) by {
                assert(o1.contains(t[j]));
            }
        }
    }
}

/// Sorts a repository map and each component map in it.
fn sort_repos(m: &mut RepoDocs)
    requires
        repos_wf(repo_entries(*old(m))),
    ensures
        repos_wf(repo_entries(*final(m))),
        repos_sorted(repo_entries(*final(m))),
        repos_map(repo_entries(*final(m))) == repos_map(repo_entries(*old(m))),
{
    let ghost r0 = repo_entries(*m);
    let n = repos_len(m);
    let mut i: usize = 0;
    while i < n
        invariant
            repos_wf(repo_entries(*m)),
            n == r0.len(),
            repo_entries(*m).len() == n,
            i <= n,
            forall|j: int| 0 <= j < n ==> (#[trigger] repo_entries(*m)[j]).0 == r0[j].0,
            forall|j: int|
                0 <= j < i ==> keys_sorted(#[trigger] repo_entries(*m)[j].1) && entries_map(
                    repo_entries(*m)[j].1,
                ) == entries_map(r0[j].1),
            forall|j: int| i <= j < n ==> #[trigger] repo_entries(*m)[j] == r0[j],
        decreases n - i,
    {
        let ghost r = repo_entries(*m);
        let (k, c) = repos_get_index(m, i).unwrap();
        let key = k.clone();
        let mut comps = urls_clone(c);
        let ghost c0 = url_entries(comps);
        assert(keys_unique(r[i as int].1));
        urls_sort(&mut comps);
        proof {
            lemma_sorted_unique(url_entries(comps));
            lemma_same_entries_map(c0, url_entries(comps));
        }
        repos_insert(m, key, comps);
        proof {
            lemma_index_of_unique(r, key@, i as int);
            let t = repo_entries(*m);
            assert(t == r.update(i as int, (key@, url_entries(comps))));
            assert(keys_unique(t));
        }
        i = i + 1;
    }
    proof {
        lemma_same_keys_repos_map(r0, repo_entries(*m));
    }
    let ghost r1 = repo_entries(*m);
    repos_sort(m);
    proof {
        let t = repo_entries(*m);
        lemma_sorted_unique(t);
        lemma_same_entries_map(r1, t);
        lemma_entries_repos_map(r1, t);
        assert forall|j: int| 0 <= j < t.len() implies keys_sorted(#[trigger] t[j].1) && keys_unique(t[j].1) by {
            assert(r1.contains(t[j]));
            let x = choose|x: int| 0 <= x < r1.len() && r1[x] == t[j];
            lemma_sorted_unique(r1[x].1);
        }
    }
}

/// Same keys at each place and the same component maps give the same map.
proof fn lemma_same_keys_repos_map(r: RepoSeq, t: RepoSeq)
    requires
        r.len() == t.len(),
        forall|j: int| 0 <= j < r.len() ==> (#[trigger] t[j]).0 == r[j].0,
        forall|j: int| 0 <= j < r.len() ==> entries_map(#[trigger] t[j].1) == entries_map(r[j].1),
    ensures
        repos_map(t) == repos_map(r),
{
    assert forall|k: Seq<char>| #![auto] index_of(r, k) == index_of(t, k) by {
        lemma_index_of_same_keys(r, t, k);
    }
    assert forall|k: Seq<char>| #![auto] index_of(r, k) >= 0 implies entries_map(t[index_of(t, k)].1) == entries_map(r[index_of(r, k)].1) by {
        lemma_index_of(r, k);
    }
    assert(repos_map(t) =~= repos_map(r));
}

/// Same keys at each place and the same repository maps give the same index.
proof fn lemma_same_keys_index_view(o: OwnerSeq, t: OwnerSeq)
    requires
        o.len() == t.len(),
        forall|j: int| 0 <= j < o.len() ==> (#[trigger] t[j]).0 == o[j].0,
        forall|j: int| 0 <= j < o.len() ==> repos_map(#[trigger] t[j].1) == repos_map(o[j].1),
    ensures
        index_view(t) == index_view(o),
{
    assert forall|k: Seq<char>| #![auto] index_of(o, k) == index_of(t, k) by {
        lemma_index_of_same_keys(o, t, k);
    }
    assert forall|k: Seq<char>| #![auto] index_of(o, k) >= 0 implies repos_map(t[index_of(t, k)].1) == repos_map(o[index_of(o, k)].1) by {
        lemma_index_of(o, k);
    }
    assert(index_view(t) =~= index_view(o));
}

/// Equal entry maps give equal repository maps.
proof fn lemma_entries_repos_map(r: RepoSeq, t: RepoSeq)
    requires
        entries_map(r) == entries_map(t),
    ensures
        repos_map(r) == repos_map(t),
{
    assert forall|k: Seq<char>|
        #![trigger repos_map(r).contains_key(k)]
        #![trigger repos_map(t).contains_key(k)]
        repos_map(r).contains_key(k) == repos_map(t).contains_key(k) && (repos_map(r).contains_key(k)
            ==> repos_map(r)[k] == repos_map(t)[k]) by {
        assert(entries_map(r).contains_key(k) == entries_map(t).contains_key(k));
        if entries_map(r).contains_key(k) {
            assert(entries_map(r)[k] == entries_map(t)[k]);
        }
    }
    assert(repos_map(r) =~= repos_map(t));
}

/// Equal entry maps give equal indexes.
proof fn lemma_entries_index_view(o: OwnerSeq, t: OwnerSeq)
    requires
        entries_map(o) == entries_map(t),
    ensures
        index_view(o) == index_view(t),
{
    assert forall|k: Seq<char>|
        #![trigger index_view(o).contains_key(k)]
        #![trigger index_view(t).contains_key(k)]
        index_view(o).contains_key(k) == index_view(t).contains_key(k) && (index_view(o).contains_key(k)
            ==> index_view(o)[k] == index_view(t)[k]) by {
        assert(entries_map(o).contains_key(k) == entries_map(t).contains_key(k));
        if entries_map(o).contains_key(k) {
            assert(entries_map(o)[k] == entries_map(t)[k]);
        }
    }
    assert(index_view(o) =~= index_view(t));
}

/// Adding the outcomes of one workspace records each of them under its owner
/// and repository (a repeated component name takes the later outcome) and
/// leaves every other record of the index as it was.
pub proof fn lemma_merge_records(o: OwnerSeq, user: Seq<char>, repo: Seq<char>, u: UrlSeq)
    requires
        index_wf(o),
    ensures
        index_wf(merge_spec(o, user, repo, u)),
        index_view(merge_spec(o, user, repo, u)) == view_merge(index_view(o), user, repo, entries_map(u)),
{
    lemma_index_of(o, user);
    let r = repos_of(o, user);
    assert(repos_wf(r));
    lemma_index_of(r, repo);
    let c = urls_of(r, repo);
    assert(keys_unique(c));
    lemma_extend_entries(c, u);
    let c2 = extend_entries(c, u);
    lemma_repos_map_insert(r, repo, c2);
    lemma_insert_entry_values(r, repo, c2);
    let r2 = insert_entry(r, repo, c2);
    lemma_index_view_insert(o, user, r2);
    lemma_insert_entry_values(o, user, r2);
    lemma_insert_entry(o, user, r2);
    assert(repos_map(RepoSeq::empty()) =~= Map::empty());
    assert(entries_map(UrlSeq::empty()) =~= Map::empty());
}

proof fn lemma_repos_map_insert(r: RepoSeq, k: Seq<char>, c: UrlSeq)
    requires
        keys_unique(r),
    ensures
        repos_map(insert_entry(r, k, c)) == repos_map(r).insert(k, entries_map(c)),
        keys_unique(insert_entry(r, k, c)),
{
    lemma_insert_entry(r, k, c);
    let t = insert_entry(r, k, c);
    let m = repos_map(r).insert(k, entries_map(c));
    assert forall|k2: Seq<char>|
        #![trigger repos_map(t).contains_key(k2)]
        #![trigger m.contains_key(k2)]
        repos_map(t).contains_key(k2) == m.contains_key(k2) && (m.contains_key(k2)
            ==> repos_map(t)[k2] == m[k2]) by {
        if k2 != k {
            assert(lookup(insert_entry(r, k, c), k2) == lookup(r, k2));
        } else {
            assert(lookup(insert_entry(r, k, c), k) == Some(c));
        }
    }
    assert(repos_map(t) =~= m);
}

proof fn lemma_index_view_insert(o: OwnerSeq, k: Seq<char>, r: RepoSeq)
    requires
        keys_unique(o),
    ensures
        index_view(insert_entry(o, k, r)) == index_view(o).insert(k, repos_map(r)),
{
    lemma_insert_entry(o, k, r);
    let t = insert_entry(o, k, r);
    let m = index_view(o).insert(k, repos_map(r));
    assert forall|k2: Seq<char>|
        #![trigger index_view(t).contains_key(k2)]
        #![trigger m.contains_key(k2)]
        index_view(t).contains_key(k2) == m.contains_key(k2) && (m.contains_key(k2)
            ==> index_view(t)[k2] == m[k2]) by {
        if k2 != k {
            assert(lookup(insert_entry(o, k, r), k2) == lookup(o, k2));
        } else {
            assert(lookup(insert_entry(o, k, r), k) == Some(r));
        }
    }
    assert(index_view(t) =~= m);
}

fn clone_opt(v: &Option<String>) -> (r: Option<String>)
    ensures
        opt_view(r) == opt_view(*v),
{
    match v {
        Some(s) => Some(s.clone()),
        None => None,
    }
}

/// Every value after an insertion is an old one or the inserted one.
pub proof fn lemma_insert_entry_values<V>(s: Seq<(Seq<char>, V)>, k: Seq<char>, v: V)
    ensures
        forall|i: int|
            0 <= i < insert_entry(s, k, v).len() ==> #[trigger] insert_entry(s, k, v)[i].1 == v
                || exists|j: int| 0 <= j < s.len() && insert_entry(s, k, v)[i].1 == s[j].1,
{
    lemma_index_of(s, k);
    let t = insert_entry(s, k, v);
    assert forall|i: int| 0 <= i < t.len() implies #[trigger] t[i].1 == v || exists|j: int|
        0 <= j < s.len() && t[i].1 == s[j].1 by {
        if t[i].1 != v {
            assert(t[i].1 == s[i].1);
        }
    }
}

} // verus!
