//! Documenting the workspaces of one repository into the shared index.
use crate::doc_index::{
    deploy_dst, dir_views, doc_dir_of, index_view, listing_view, view_merge,
};
pub use crate::doc_index::{DocDir, Docs};
use crate::repo::{Repo, Workspace};
use crate::rustdoc::{outcome_of, outcomes_map, relative_of, slug_of, trim_slashes, trim_url_prefix, url_of, views};
use vstd::prelude::*;

verus! {

/// The index as nested maps: owner, repository, component.
pub type IndexView = Map<Seq<char>, Map<Seq<char>, Map<Seq<char>, Option<Seq<char>>>>>;

/// Positions of the workspaces that lie outside `base`, in increasing order.
pub open spec fn outside_of(wss: Seq<Workspace>, base: Seq<char>) -> Seq<int>
    decreases wss.len(),
{
    if wss.len() == 0 {
        Seq::empty()
    } else {
        let p = outside_of(wss.drop_last(), base);
        if relative_of(wss.last().dir@, base) is None {
            p.push(wss.len() - 1)
        } else {
            p
        }
    }
}

/// The index after recording each workspace in turn (those outside `base`
/// change nothing).
pub open spec fn index_after(
    v: IndexView,
    user: Seq<char>,
    repo: Seq<char>,
    wss: Seq<Workspace>,
    ls: Seq<Option<Vec<String>>>,
    prefix: Seq<char>,
    base: Seq<char>,
) -> IndexView
    decreases wss.len(),
{
    if wss.len() == 0 || ls.len() != wss.len() {
        v
    } else {
        let p = index_after(v, user, repo, wss.drop_last(), ls.drop_last(), prefix, base);
        match relative_of(wss.last().dir@, base) {
            Some(rel) => view_merge(
                p,
                user,
                repo,
                outcomes_map(views(wss.last().packages@), listing_view(ls.last()), prefix, rel),
            ),
            None => p,
        }
    }
}

/// The moves queued by recording each workspace in turn: one for each
/// workspace whose output could be listed.
pub open spec fn moves_after(
    wss: Seq<Workspace>,
    ls: Seq<Option<Vec<String>>>,
    base: Seq<char>,
    deploy: Seq<char>,
) -> Seq<(Seq<char>, Seq<char>)>
    decreases wss.len(),
{
    if wss.len() == 0 || ls.len() != wss.len() {
        Seq::empty()
    } else {
        let p = moves_after(wss.drop_last(), ls.drop_last(), base, deploy);
        match relative_of(wss.last().dir@, base) {
            Some(rel) => if ls.last().is_some() {
                p.push((doc_dir_of(wss.last().target_directory@), deploy_dst(deploy, rel)))
            } else {
                p
            },
            None => p,
        }
    }
}

/// Recording a workspace gives each of its components an entry under its
/// owner and repository: the URL where the output holds a folder named by
/// its slug, and missing (`None`) where it does not or where the output
/// could not be listed. No component is dropped.
pub proof fn lemma_component_recorded(
    v: IndexView,
    user: Seq<char>,
    repo: Seq<char>,
    names: Seq<Seq<char>>,
    dirs: Option<Seq<Seq<char>>>,
    prefix: Seq<char>,
    rel: Seq<char>,
    name: Seq<char>,
)
    requires
        names.contains(name),
    ensures
        ({
            let w = view_merge(v, user, repo, outcomes_map(names, dirs, prefix, rel));
            &&& w.contains_key(user)
            &&& w[user].contains_key(repo)
            &&& w[user][repo].contains_key(name)
            &&& w[user][repo][name] == outcome_of(name, dirs, prefix, rel)
            &&& (match dirs {
                Some(d) => !d.contains(slug_of(name)),
                None => true,
            }) ==> w[user][repo][name] is None
            &&& (dirs matches Some(d) && d.contains(slug_of(name))) ==> w[user][repo][name] == Some(
                url_of(prefix, rel, slug_of(name)),
            )
        }),
{
}

/// Across the workspaces of a repository, a component keeps the outcome of
/// the last workspace (below `base`) that declares it: missing (`None`)
/// where that workspace's output has no folder named by its slug or could
/// not be listed. It is never dropped from the index.
pub proof fn lemma_component_survives(
    v: IndexView,
    user: Seq<char>,
    repo: Seq<char>,
    wss: Seq<Workspace>,
    ls: Seq<Option<Vec<String>>>,
    prefix: Seq<char>,
    base: Seq<char>,
    k: int,
    name: Seq<char>,
)
    requires
        ls.len() == wss.len(),
        0 <= k < wss.len(),
        relative_of(wss[k].dir@, base) is Some,
        views(wss[k].packages@).contains(name),
        forall|j: int|
            k < j < wss.len() && (#[trigger] relative_of(wss[j].dir@, base)) is Some ==> !views(
                wss[j].packages@,
            ).contains(name),
    ensures
        ({
            let w = index_after(v, user, repo, wss, ls, prefix, base);
            &&& w.contains_key(user)
            &&& w[user].contains_key(repo)
            &&& w[user][repo].contains_key(name)
            &&& w[user][repo][name] == outcome_of(
                name,
                listing_view(ls[k]),
                prefix,
                relative_of(wss[k].dir@, base).unwrap(),
            )
        }),
    decreases wss.len(),
{
    let n = wss.len() - 1;
    let p = index_after(v, user, repo, wss.drop_last(), ls.drop_last(), prefix, base);
    if k == n {
        lemma_component_recorded(
            p,
            user,
            repo,
            views(wss[k].packages@),
            listing_view(ls[k]),
            prefix,
            relative_of(wss[k].dir@, base).unwrap(),
            name,
        );
    } else {
        assert forall|j: int|
            k < j < wss.drop_last().len() && (#[trigger] relative_of(wss.drop_last()[j].dir@, base)) is Some implies !views(
                wss.drop_last()[j].packages@,
            ).contains(name) by {
            assert(wss.drop_last()[j] == wss[j]);
            assert(relative_of(wss[j].dir@, base) is Some);
        }
        lemma_component_survives(v, user, repo, wss.drop_last(), ls.drop_last(), prefix, base, k, name);
        assert(wss.drop_last()[k] == wss[k]);
        assert(ls.drop_last()[k] == ls[k]);
        if relative_of(wss[n].dir@, base) is Some {
            assert(!views(wss[n].packages@).contains(name));
        }
    }
}

/// Records every workspace of `repo` into `docs`, in order.
/// `listings[i]` is the listing of workspace `i`'s output directory after
/// its build (`None` where it could not be read); `docs_url` is the
/// configured URL prefix, whose trailing `/` are dropped. A workspace
/// outside `base_dir` is skipped and the rest are still recorded; the
/// positions of the skipped ones are returned.
pub fn document_repo(
    repo: &Repo,
    docs: &mut Docs,
    listings: &Vec<Option<Vec<String>>>,
    docs_url: &str,
    base_dir: &str,
    deploy_dir: &str,
) -> (r: Vec<usize>)
    requires
        old(docs).wf(),
        listings@.len() == repo.workspaces@.len(),
    ensures
        final(docs).wf(),
        r@.map_values(|x: usize| x as int) == outside_of(repo.workspaces@, base_dir@),
        index_view(final(docs).entries()) == index_after(
            index_view(old(docs).entries()),
            repo.user@,
            repo.repo@,
            repo.workspaces@,
            listings@,
            trim_slashes(docs_url@),
            base_dir@,
        ),
        dir_views(final(docs).dirs@) == dir_views(old(docs).dirs@) + moves_after(
            repo.workspaces@,
            listings@,
            base_dir@,
            deploy_dir@,
        ),
{
    let url_prefix = trim_url_prefix(docs_url);
    let wss = &repo.workspaces;
    let ghost v0 = index_view(docs.entries());
    let ghost d0 = dir_views(docs.dirs@);
    let mut skipped: Vec<usize> = Vec::new();
    let mut i: usize = 0;
    while i < wss.len()
        invariant
            docs.wf(),
            i <= wss@.len(),
            wss == &repo.workspaces,
            listings@.len() == wss@.len(),
            url_prefix@ == trim_slashes(docs_url@),
            skipped@.map_values(|x: usize| x as int) == outside_of(wss@.subrange(0, i as int), base_dir@),
            index_view(docs.entries()) == index_after(
                v0,
                repo.user@,
                repo.repo@,
                wss@.subrange(0, i as int),
                listings@.subrange(0, i as int),
                url_prefix@,
                base_dir@,
            ),
            dir_views(docs.dirs@) == d0 + moves_after(
                wss@.subrange(0, i as int),
                listings@.subrange(0, i as int),
                base_dir@,
                deploy_dir@,
            ),
        decreases wss@.len() - i,
    {
        let ghost ws_i = wss@.subrange(0, i + 1);
        let ghost ls_i = listings@.subrange(0, i + 1);
        assert(ws_i.drop_last() =~= wss@.subrange(0, i as int));
        assert(ls_i.drop_last() =~= listings@.subrange(0, i as int));
        let res = docs.record_workspace(
            repo.user.as_str(),
            repo.repo.as_str(),
            &wss[i],
            &listings[i],
            url_prefix.as_str(),
            base_dir,
            deploy_dir,
        );
        let ghost before = skipped@;
        if res.is_err() {
            skipped.push(i);
            assert(skipped@.map_values(|x: usize| x as int) =~= before.map_values(|x: usize| x as int).push(i as int));
        } else {
            assert(skipped@ == before);
        }
        proof {
            let d_prev = moves_after(wss@.subrange(0, i as int), listings@.subrange(0, i as int), base_dir@, deploy_dir@);
            assert(d0 + d_prev.push((doc_dir_of(wss@[i as int].target_directory@), deploy_dst(deploy_dir@, relative_of(wss@[i as int].dir@, base_dir@).unwrap())))
                =~= (d0 + d_prev).push((doc_dir_of(wss@[i as int].target_directory@), deploy_dst(deploy_dir@, relative_of(wss@[i as int].dir@, base_dir@).unwrap()))));
        }
        i = i + 1;
    }
    assert(wss@.subrange(0, i as int) =~= wss@);
    assert(listings@.subrange(0, i as int) =~= listings@);
    skipped
}

/// One repository whose documentation is to be built.
pub struct Manage {
    pub repo: Repo,
}

impl Manage {
    pub fn new(repo: Repo) -> (r: Manage)
        ensures
            r.repo == repo,
    {
        Manage { repo }
    }

    /// Records every workspace of the repository into `docs`, skipping those
    /// outside `base_dir`, whose positions are returned; see
    /// [`document_repo`].
    pub fn cargo_doc(
        &self,
        docs: &mut Docs,
        listings: &Vec<Option<Vec<String>>>,
        docs_url: &str,
        base_dir: &str,
        deploy_dir: &str,
    ) -> (r: Vec<usize>)
        requires
            old(docs).wf(),
            listings@.len() == self.repo.workspaces@.len(),
        ensures
            final(docs).wf(),
            r@.map_values(|x: usize| x as int) == outside_of(self.repo.workspaces@, base_dir@),
            index_view(final(docs).entries()) == index_after(
                index_view(old(docs).entries()),
                self.repo.user@,
                self.repo.repo@,
                self.repo.workspaces@,
                listings@,
                trim_slashes(docs_url@),
                base_dir@,
            ),
            dir_views(final(docs).dirs@) == dir_views(old(docs).dirs@) + moves_after(
                self.repo.workspaces@,
                listings@,
                base_dir@,
                deploy_dir@,
            ),
    {
        document_repo(&self.repo, docs, listings, docs_url, base_dir, deploy_dir)
    }
}

} // verus!
