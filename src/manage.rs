//! Reconciling the tracked checkouts with a desired identifier list, keeping
//! the registry of resolved metadata, and documenting everything registered.
use crate::doc_index::{dir_views, index_sorted, index_view};
pub use crate::doc_index::{DocDir, Docs};
use crate::generate_rustdoc::{document_repo, index_after, moves_after, IndexView};
use crate::identifier::{is_user_repo, split_user_repo};
use crate::keys::{index_of, insert_entry};
use crate::ordered::{local_contains_key, local_entries, local_get_index, local_insert, local_len, local_new, Local};
use crate::repo::{ids_of, sub_view, tracked_of, Repo, SelfRepo, Submodule};
use crate::rustdoc::{contains_str, trim_slashes, views};
use crate::submodule_add::{cmd_views, remove_cmds, submodule_remove};
use vstd::prelude::*;

verus! {

/// The identifiers that the registry holds.
pub open spec fn registered(m: Local) -> Set<Seq<char>> {
    Set::new(|k: Seq<char>| index_of(local_entries(m), k) >= 0)
}

/// The identifiers of `d` to start tracking: those that are `owner/name`
/// and not in `reg`, each once, in the order of their first occurrence.
pub open spec fn additions_spec(reg: Set<Seq<char>>, d: Seq<Seq<char>>) -> Seq<Seq<char>>
    decreases d.len(),
{
    if d.len() == 0 {
        Seq::empty()
    } else {
        let p = additions_spec(reg, d.drop_last());
        if !is_user_repo(d.last()) || reg.contains(d.last()) || p.contains(d.last()) {
            p
        } else {
            p.push(d.last())
        }
    }
}

/// Positions of the tracked checkouts (with identifiers `ids`) that are not
/// registered, in increasing order.
pub open spec fn pending_spec(ids: Seq<Seq<char>>, reg: Set<Seq<char>>) -> Seq<int>
    decreases ids.len(),
{
    if ids.len() == 0 {
        Seq::empty()
    } else {
        let p = pending_spec(ids.drop_last(), reg);
        if reg.contains(ids.last()) {
            p
        } else {
            p.push(ids.len() - 1)
        }
    }
}

/// The index after documenting each registered repository in turn.
pub open spec fn registry_after(
    v: IndexView,
    es: Seq<(Seq<char>, Repo)>,
    lss: Seq<Vec<Option<Vec<String>>>>,
    prefix: Seq<char>,
    base: Seq<char>,
) -> IndexView
    decreases es.len(),
{
    if es.len() == 0 || lss.len() != es.len() {
        v
    } else {
        let p = registry_after(v, es.drop_last(), lss.drop_last(), prefix, base);
        let r = es.last().1;
        index_after(p, r.user@, r.repo@, r.workspaces@, lss.last()@, prefix, base)
    }
}

/// The moves queued by documenting each registered repository in turn.
pub open spec fn registry_moves(
    es: Seq<(Seq<char>, Repo)>,
    lss: Seq<Vec<Option<Vec<String>>>>,
    base: Seq<char>,
    deploy: Seq<char>,
) -> Seq<(Seq<char>, Seq<char>)>
    decreases es.len(),
{
    if es.len() == 0 || lss.len() != es.len() {
        Seq::empty()
    } else {
        let p = registry_moves(es.drop_last(), lss.drop_last(), base, deploy);
        p + moves_after(es.last().1.workspaces@, lss.last()@, base, deploy)
    }
}

/// Every desired identifier that is `owner/name` is registered already or
/// among those to add.
proof fn lemma_additions_cover(reg: Set<Seq<char>>, d: Seq<Seq<char>>)
    ensures
        forall|i: int| 0 <= i < d.len() && is_user_repo(d[i]) ==> reg.contains(#[trigger] d[i]) || additions_spec(reg, d).contains(d[i]),
    decreases d.len(),
{
    if d.len() > 0 {
        lemma_additions_cover(reg, d.drop_last());
        let p = additions_spec(reg, d.drop_last());
        assert forall|i: int| 0 <= i < d.len() && is_user_repo(d[i]) implies reg.contains(#[trigger] d[i]) || additions_spec(reg, d).contains(d[i]) by {
            if i < d.len() - 1 {
                assert(d[i] == d.drop_last()[i]);
                if p.contains(d[i]) && is_user_repo(d.last()) && !reg.contains(d.last()) && !p.contains(d.last()) {
                    let j = choose|j: int| 0 <= j < p.len() && p[j] == d[i];
                    assert(p.push(d.last())[j] == d[i]);
                }
            } else if !reg.contains(d.last()) && !p.contains(d.last()) {
                assert(p.push(d.last())[p.len() as int] == d.last());
            }
        }
    }
}

/// Nothing is left to add where every desired `owner/name` is registered.
proof fn lemma_additions_none(reg: Set<Seq<char>>, d: Seq<Seq<char>>)
    requires
        forall|i: int| 0 <= i < d.len() && is_user_repo(d[i]) ==> reg.contains(#[trigger] d[i]),
    ensures
        additions_spec(reg, d) == Seq::<Seq<char>>::empty(),
    decreases d.len(),
{
    if d.len() > 0 {
        assert forall|i: int| 0 <= i < d.drop_last().len() && is_user_repo(d.drop_last()[i]) implies reg.contains(#[trigger] d.drop_last()[i]) by {
            assert(d.drop_last()[i] == d[i]);
        }
        lemma_additions_none(reg, d.drop_last());
    }
}

/// Reconciliation is idempotent: once the identifiers that a desired list
/// asked to add are registered, the same list asks to add nothing; and
/// once every tracked checkout is registered, none is left to resolve, so
/// none can be removed.
pub proof fn lemma_reconcile_idempotent(
    reg: Set<Seq<char>>,
    d: Seq<Seq<char>>,
    reg2: Set<Seq<char>>,
    ids: Seq<Seq<char>>,
)
    ensures
        reg.union(additions_spec(reg, d).to_set()).subset_of(reg2) ==> additions_spec(reg2, d)
            == Seq::<Seq<char>>::empty(),
        (forall|i: int| 0 <= i < ids.len() ==> reg2.contains(#[trigger] ids[i])) ==> pending_spec(
            ids,
            reg2,
        ) == Seq::<int>::empty(),
    decreases ids.len(),
{
    if reg.union(additions_spec(reg, d).to_set()).subset_of(reg2) {
        lemma_additions_cover(reg, d);
        assert forall|i: int| 0 <= i < d.len() && is_user_repo(d[i]) implies reg2.contains(#[trigger] d[i]) by {
            if !reg.contains(d[i]) {
                assert(additions_spec(reg, d).to_set().contains(d[i]));
            }
        }
        lemma_additions_none(reg2, d);
    }
    if ids.len() > 0 && (forall|i: int| 0 <= i < ids.len() ==> reg2.contains(#[trigger] ids[i])) {
        assert forall|i: int| 0 <= i < ids.drop_last().len() implies reg2.contains(#[trigger] ids.drop_last()[i]) by {
            assert(ids.drop_last()[i] == ids[i]);
        }
        lemma_reconcile_idempotent(reg, d, reg2, ids.drop_last());
        assert(reg2.contains(ids[ids.len() - 1]));
    }
}

/// Each position left to resolve is that of a tracked checkout whose
/// identifier is not registered; so when its resolution fails and
/// [`Manage::register`] rolls it back (leaving the registry as it was and
/// dropping it from the tracked checkouts), it is neither tracked at that
/// place nor registered afterwards.
pub proof fn lemma_pending_unregistered(ids: Seq<Seq<char>>, reg: Set<Seq<char>>)
    ensures
        forall|k: int|
            0 <= k < pending_spec(ids, reg).len() ==> 0 <= #[trigger] pending_spec(ids, reg)[k] < ids.len()
                && !reg.contains(ids[pending_spec(ids, reg)[k]]),
    decreases ids.len(),
{
    if ids.len() > 0 {
        lemma_pending_unregistered(ids.drop_last(), reg);
        let p = pending_spec(ids.drop_last(), reg);
        assert forall|k: int| 0 <= k < p.len() implies ids[p[k]] == ids.drop_last()[p[k]] by {}
    }
}

/// What is to be added comes from the desired list and is not registered.
proof fn lemma_additions_from(reg: Set<Seq<char>>, d: Seq<Seq<char>>)
    ensures
        forall|x: Seq<char>| #[trigger] additions_spec(reg, d).contains(x) ==> d.contains(x) && !reg.contains(x),
    decreases d.len(),
{
    if d.len() > 0 {
        lemma_additions_from(reg, d.drop_last());
        let p = additions_spec(reg, d.drop_last());
        assert forall|x: Seq<char>| #[trigger] additions_spec(reg, d).contains(x) implies d.contains(x) && !reg.contains(x) by {
            if p.contains(x) {
                let j = choose|j: int| 0 <= j < d.drop_last().len() && d.drop_last()[j] == x;
                assert(d[j] == x);
            } else {
                let q = additions_spec(reg, d);
                let j = choose|j: int| 0 <= j < q.len() && q[j] == x;
                if j < p.len() {
                    assert(p[j] == x);
                }
                assert(d[d.len() - 1] == x);
            }
        }
    }
}

/// Reconciliation issues no command for a checkout that it need not touch.
/// A registered identifier is never added, whether or not the desired list
/// names it, and no position left to resolve holds it, so it is never
/// rolled back; an identifier that is neither desired nor tracked is
/// neither added nor at any position left to resolve.
pub proof fn lemma_untouched(reg: Set<Seq<char>>, d: Seq<Seq<char>>, ids: Seq<Seq<char>>, id: Seq<char>)
    ensures
        reg.contains(id) || !d.contains(id) ==> !additions_spec(reg, d).contains(id),
        reg.contains(id) || !ids.contains(id) ==> forall|k: int|
            0 <= k < pending_spec(ids, reg).len() ==> ids[#[trigger] pending_spec(ids, reg)[k]] != id,
{
    lemma_additions_from(reg, d);
    lemma_pending_unregistered(ids, reg);
    assert forall|k: int| 0 <= k < pending_spec(ids, reg).len() && (reg.contains(id) || !ids.contains(id)) implies ids[#[trigger] pending_spec(ids, reg)[k]] != id by {
        let q = pending_spec(ids, reg)[k];
        if ids[q] == id && !reg.contains(id) {
            assert(ids.contains(id));
        }
    }
}

/// The tracking repository's checkouts, and the registry of those whose
/// metadata was resolved.
pub struct Manage {
    pub self_repo: SelfRepo,
    pub local: Local,
}

impl Manage {
    /// Starts with the given checkouts and an empty registry.
    pub fn new(self_repo: SelfRepo) -> (r: Manage)
        ensures
            r.self_repo == self_repo,
            local_entries(r.local).len() == 0,
    {
        Manage { self_repo, local: local_new() }
    }

    /// The identifiers of `v_user_repo` to start tracking: those not
    /// registered, each once. One that is not `owner/name` is skipped.
    pub fn additions(&self, v_user_repo: &Vec<String>) -> (r: Vec<String>)
        ensures
            views(r@) == additions_spec(registered(self.local), views(v_user_repo@)),
    {
        let ghost reg = registered(self.local);
        let ghost d = views(v_user_repo@);
        let mut out: Vec<String> = Vec::new();
        let mut i: usize = 0;
        while i < v_user_repo.len()
            invariant
                i <= v_user_repo@.len(),
                d == views(v_user_repo@),
                reg == registered(self.local),
                views(out@) == additions_spec(reg, d.subrange(0, i as int)),
            decreases v_user_repo@.len() - i,
        {
            let id = &v_user_repo[i];
            let ghost before = out@;
            let valid = split_user_repo(id.as_str()).is_ok();
            proof {
                assert(d.subrange(0, i + 1).drop_last() =~= d.subrange(0, i as int));
                assert(d[i as int] == id@);
            }
            if valid && !local_contains_key(&self.local, id.as_str()) && !contains_str(&out, id) {
                out.push(id.clone());
                assert(views(out@) =~= views(before).push(id@));
            }
            i = i + 1;
        }
        assert(d.subrange(0, i as int) =~= d);
        out
    }

    /// Positions of the tracked checkouts that are not registered.
    pub fn pending(&self) -> (r: Vec<usize>)
        ensures
            r@.map_values(|x: usize| x as int) == pending_spec(
                ids_of(self.self_repo.submodules@),
                registered(self.local),
            ),
    {
        let ghost ids = ids_of(self.self_repo.submodules@);
        let ghost reg = registered(self.local);
        let subs = &self.self_repo.submodules;
        let mut out: Vec<usize> = Vec::new();
        let mut i: usize = 0;
        while i < subs.len()
            invariant
                i <= subs@.len(),
                subs == &self.self_repo.submodules,
                ids == ids_of(subs@),
                reg == registered(self.local),
                out@.map_values(|x: usize| x as int) == pending_spec(ids.subrange(0, i as int), reg),
            decreases subs@.len() - i,
        {
            let ghost before = out@;
            proof {
                assert(ids.subrange(0, i + 1).drop_last() =~= ids.subrange(0, i as int));
                assert(ids[i as int] == subs@[i as int].user_repo@);
            }
            if !local_contains_key(&self.local, subs[i].user_repo.as_str()) {
                out.push(i);
                assert(out@.map_values(|x: usize| x as int) =~= before.map_values(|x: usize| x as int).push(i as int));
            }
            i = i + 1;
        }
        assert(ids.subrange(0, i as int) =~= ids);
        out
    }

    /// Re-reads the tracked checkouts from a fresh listing of (path, remote
    /// URL) pairs, leaving out those whose URL names no identifier, and
    /// returns the positions of those still to be resolved.
    pub fn update_submodules(&mut self, listing: &Vec<(String, String)>) -> (r: Vec<usize>)
        ensures
            final(self).local == old(self).local,
            final(self).self_repo.submodules@.map_values(|m: Submodule| sub_view(m)) == tracked_of(listing@),
            r@.map_values(|x: usize| x as int) == pending_spec(
                ids_of(final(self).self_repo.submodules@),
                registered(final(self).local),
            ),
    {
        self.self_repo.update_submodules(listing);
        self.pending()
    }

    /// Settles the tracked checkout at `index` with the outcome of resolving
    /// its metadata: on success it is registered; on failure it stops being
    /// tracked, and the commands that remove it are returned.
    pub fn register(&mut self, index: usize, meta: Option<Repo>) -> (r: Vec<Vec<String>>)
        requires
            index < old(self).self_repo.submodules@.len(),
        ensures
            ({
                let m = old(self).self_repo.submodules@[index as int];
                match meta {
                    Some(repo) => {
                        &&& local_entries(final(self).local) == insert_entry(
                            local_entries(old(self).local),
                            m.user_repo@,
                            repo,
                        )
                        &&& final(self).self_repo.submodules@ == old(self).self_repo.submodules@
                        &&& r@.len() == 0
                    },
                    None => {
                        &&& final(self).local == old(self).local
                        &&& final(self).self_repo.submodules@ == old(
                            self,
                        ).self_repo.submodules@.remove(index as int)
                        &&& cmd_views(r@) == remove_cmds(m.local@)
                    },
                }
            }),
    {
        match meta {
            Some(repo) => {
                let id = self.self_repo.submodules[index].user_repo.clone();
                local_insert(&mut self.local, id, repo);
                Vec::new()
            },
            None => {
                let m = self.self_repo.submodules.remove(index);
                submodule_remove(m.local.as_str())
            },
        }
    }

    /// Documents every registered repository, in registry order, and sorts
    /// the index. `listings[i][j]` is the listing of the output directory of
    /// workspace `j` of the `i`-th registered repository (`None` where it
    /// could not be read). A workspace outside `base_dir` is skipped.
    pub fn cargo_doc(
        &self,
        listings: &Vec<Vec<Option<Vec<String>>>>,
        docs_url: &str,
        base_dir: &str,
        deploy_dir: &str,
    ) -> (d: Docs)
        requires
            listings@.len() == local_entries(self.local).len(),
            forall|i: int|
                0 <= i < listings@.len() ==> (#[trigger] listings@[i])@.len() == local_entries(
                    self.local,
                )[i].1.workspaces@.len(),
        ensures
            d.wf() && index_sorted(d.entries()) && index_view(d.entries())
                == registry_after(
                Map::empty(),
                local_entries(self.local),
                listings@,
                trim_slashes(docs_url@),
                base_dir@,
            ) && dir_views(d.dirs@) == registry_moves(
                local_entries(self.local),
                listings@,
                base_dir@,
                deploy_dir@,
            ),
    {
        let ghost es = local_entries(self.local);
        let mut docs = Docs::new();
        assert(index_view(docs.entries()) =~= Map::empty());
        assert(dir_views(docs.dirs@) =~= Seq::empty());
        let n = local_len(&self.local);
        let mut i: usize = 0;
        while i < n
            invariant
                docs.wf(),
                i <= n,
                n == es.len(),
                es == local_entries(self.local),
                listings@.len() == n,
                forall|j: int| 0 <= j < n ==> (#[trigger] listings@[j])@.len() == es[j].1.workspaces@.len(),
                index_view(docs.entries()) == registry_after(
                    Map::empty(),
                    es.subrange(0, i as int),
                    listings@.subrange(0, i as int),
                    trim_slashes(docs_url@),
                    base_dir@,
                ),
                dir_views(docs.dirs@) == registry_moves(
                    es.subrange(0, i as int),
                    listings@.subrange(0, i as int),
                    base_dir@,
                    deploy_dir@,
                ),
            decreases n - i,
        {
            let (_, repo) = local_get_index(&self.local, i).unwrap();
            proof {
                assert(es.subrange(0, i + 1).drop_last() =~= es.subrange(0, i as int));
                assert(listings@.subrange(0, i + 1).drop_last() =~= listings@.subrange(0, i as int));
                assert(listings@[i as int]@.len() == es[i as int].1.workspaces@.len());
            }
            document_repo(repo, &mut docs, &listings[i], docs_url, base_dir, deploy_dir);
            i = i + 1;
        }
        assert(es.subrange(0, i as int) =~= es);
        assert(listings@.subrange(0, i as int) =~= listings@);
        docs.finish();
        docs
    }
}

} // verus!
