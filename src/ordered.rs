//! The insertion-ordered maps of `indexmap` that hold the documentation
//! index and the registry, with what this crate relies on of each operation
//! it uses.
use indexmap::IndexMap;
use vstd::prelude::*;

verus! {

#[verifier::external_type_specification]
#[verifier::external_body]
#[verifier::reject_recursive_types(K)]
#[verifier::reject_recursive_types(V)]
#[verifier::reject_recursive_types(S)]
pub struct ExIndexMap<K, V, S>(IndexMap<K, V, S>);

/// Documentation outcome of each component: its URL, or `None` when missing.
pub type ComponentUrls = IndexMap<String, Option<String>>;

/// Component outcomes of each repository of one owner.
pub type RepoDocs = IndexMap<String, ComponentUrls>;

/// The whole index: owner, then repository, then component.
pub type UserRepoPkgCrate = IndexMap<String, RepoDocs>;

/// Entries of a component map, in the map's order.
pub type UrlSeq = Seq<(Seq<char>, Option<Seq<char>>)>;

/// Entries of a repository map, in the map's order.
pub type RepoSeq = Seq<(Seq<char>, UrlSeq)>;

/// Entries of the whole index, in the map's order.
pub type OwnerSeq = Seq<(Seq<char>, RepoSeq)>;

pub open spec fn opt_view(o: Option<String>) -> Option<Seq<char>> {
    match o {
        Some(s) => Some(s@),
        None => None,
    }
}

/// The entries that a component map holds, in its order.
pub uninterp spec fn url_entries(m: ComponentUrls) -> UrlSeq;

/// The entries that a repository map holds, in its order.
pub uninterp spec fn repo_entries(m: RepoDocs) -> RepoSeq;

/// The entries that an index holds, in its order.
pub uninterp spec fn owner_entries(m: UserRepoPkgCrate) -> OwnerSeq;

/// Relies on `IndexMap::new`: a map without entries.
#[verifier::external_body]
pub(crate) fn urls_new() -> (m: ComponentUrls)
    ensures
        url_entries(m) == UrlSeq::empty(),
{
    IndexMap::new()
}

/// Relies on `IndexMap::len`: the number of entries.
#[verifier::external_body]
pub(crate) fn urls_len(m: &ComponentUrls) -> (n: usize)
    ensures
        n == url_entries(*m).len(),
{
    m.len()
}

/// Relies on `IndexMap::get_index`: the entry at a position of the order.
#[verifier::external_body]
pub(crate) fn urls_get_index(m: &ComponentUrls, i: usize) -> (r: Option<(&String, &Option<String>)>)
    ensures
        i < url_entries(*m).len() <==> r is Some,
        r matches Some((k, v)) ==> url_entries(*m)[i as int] == (k@, opt_view(*v)),
{
    m.get_index(i)
}

/// Relies on `IndexMap::insert`: an existing key keeps its place and takes the
/// new value; a new key goes last.
#[verifier::external_body]
pub(crate) fn urls_insert(m: &mut ComponentUrls, k: String, v: Option<String>)
    ensures
        url_entries(*final(m)) == crate::keys::insert_entry(url_entries(*old(m)), k@, opt_view(v)),
{
    m.insert(k, v);
}

/// Relies on `IndexMap::sort_unstable_keys`: the same entries, reordered by
/// `String`'s order, which is the order of code points; keys are distinct.
#[verifier::external_body]
pub(crate) fn urls_sort(m: &mut ComponentUrls)
    ensures
        crate::keys::keys_sorted(url_entries(*final(m))),
        url_entries(*final(m)).len() == url_entries(*old(m)).len(),
        forall|e| url_entries(*final(m)).contains(e) <==> url_entries(*old(m)).contains(e),
{
    m.sort_unstable_keys();
}

} // verus!

verus! {

/// Relies on `IndexMap`'s `Clone`: a map with the same entries in the same order.
#[verifier::external_body]
pub(crate) fn urls_clone(m: &ComponentUrls) -> (r: ComponentUrls)
    ensures
        url_entries(r) == url_entries(*m),
{
    m.clone()
}

/// Relies on `IndexMap::new`: a map without entries.
#[verifier::external_body]
pub(crate) fn repos_new() -> (m: RepoDocs)
    ensures
        repo_entries(m) == RepoSeq::empty(),
{
    IndexMap::new()
}

/// Relies on `IndexMap::len`: the number of entries.
#[verifier::external_body]
pub(crate) fn repos_len(m: &RepoDocs) -> (n: usize)
    ensures
        n == repo_entries(*m).len(),
{
    m.len()
}

/// Relies on `IndexMap::get_index`: the entry at a position of the order.
#[verifier::external_body]
pub(crate) fn repos_get_index(m: &RepoDocs, i: usize) -> (r: Option<(&String, &ComponentUrls)>)
    ensures
        i < repo_entries(*m).len() <==> r is Some,
        r matches Some((k, v)) ==> repo_entries(*m)[i as int] == (k@, url_entries(*v)),
{
    m.get_index(i)
}

/// Relies on `IndexMap::get`: the value stored under a key, if any.
#[verifier::external_body]
pub(crate) fn repos_get<'a>(m: &'a RepoDocs, k: &str) -> (r: Option<&'a ComponentUrls>)
    ensures
        r is Some <==> crate::keys::index_of(repo_entries(*m), k@) >= 0,
        r matches Some(v) ==> repo_entries(*m)[crate::keys::index_of(repo_entries(*m), k@)].1
            == url_entries(*v),
{
    m.get(k)
}

/// Relies on `IndexMap::insert`: an existing key keeps its place and takes the
/// new value; a new key goes last.
#[verifier::external_body]
pub(crate) fn repos_insert(m: &mut RepoDocs, k: String, v: ComponentUrls)
    ensures
        repo_entries(*final(m)) == crate::keys::insert_entry(repo_entries(*old(m)), k@, url_entries(v)),
{
    m.insert(k, v);
}

/// Relies on `IndexMap::sort_unstable_keys`: the same entries, reordered by
/// `String`'s order, which is the order of code points; keys are distinct.
#[verifier::external_body]
pub(crate) fn repos_sort(m: &mut RepoDocs)
    ensures
        crate::keys::keys_sorted(repo_entries(*final(m))),
        repo_entries(*final(m)).len() == repo_entries(*old(m)).len(),
        forall|e| repo_entries(*final(m)).contains(e) <==> repo_entries(*old(m)).contains(e),
{
    m.sort_unstable_keys();
}

/// Relies on `IndexMap`'s `Clone`: a map with the same entries in the same order.
#[verifier::external_body]
pub(crate) fn repos_clone(m: &RepoDocs) -> (r: RepoDocs)
    ensures
        repo_entries(r) == repo_entries(*m),
{
    m.clone()
}

/// Relies on `IndexMap::new`: a map without entries.
#[verifier::external_body]
pub(crate) fn owners_new() -> (m: UserRepoPkgCrate)
    ensures
        owner_entries(m) == OwnerSeq::empty(),
{
    IndexMap::new()
}

/// Relies on `IndexMap::len`: the number of entries.
#[verifier::external_body]
pub(crate) fn owners_len(m: &UserRepoPkgCrate) -> (n: usize)
    ensures
        n == owner_entries(*m).len(),
{
    m.len()
}

/// Relies on `IndexMap::get_index`: the entry at a position of the order.
#[verifier::external_body]
pub(crate) fn owners_get_index(m: &UserRepoPkgCrate, i: usize) -> (r: Option<(&String, &RepoDocs)>)
    ensures
        i < owner_entries(*m).len() <==> r is Some,
        r matches Some((k, v)) ==> owner_entries(*m)[i as int] == (k@, repo_entries(*v)),
{
    m.get_index(i)
}

/// Relies on `IndexMap::get`: the value stored under a key, if any.
#[verifier::external_body]
pub(crate) fn owners_get<'a>(m: &'a UserRepoPkgCrate, k: &str) -> (r: Option<&'a RepoDocs>)
    ensures
        r is Some <==> crate::keys::index_of(owner_entries(*m), k@) >= 0,
        r matches Some(v) ==> owner_entries(*m)[crate::keys::index_of(owner_entries(*m), k@)].1
            == repo_entries(*v),
{
    m.get(k)
}

/// Relies on `IndexMap::insert`: an existing key keeps its place and takes the
/// new value; a new key goes last.
#[verifier::external_body]
pub(crate) fn owners_insert(m: &mut UserRepoPkgCrate, k: String, v: RepoDocs)
    ensures
        owner_entries(*final(m)) == crate::keys::insert_entry(owner_entries(*old(m)), k@, repo_entries(v)),
{
    m.insert(k, v);
}

/// Relies on `IndexMap::sort_unstable_keys`: the same entries, reordered by
/// `String`'s order, which is the order of code points; keys are distinct.
#[verifier::external_body]
pub(crate) fn owners_sort(m: &mut UserRepoPkgCrate)
    ensures
        crate::keys::keys_sorted(owner_entries(*final(m))),
        owner_entries(*final(m)).len() == owner_entries(*old(m)).len(),
        forall|e| owner_entries(*final(m)).contains(e) <==> owner_entries(*old(m)).contains(e),
{
    m.sort_unstable_keys();
}

} // verus!

verus! {

/// The registry: resolved metadata of each tracked checkout, by identifier,
/// in the order the checkouts were registered.
pub type Local = IndexMap<String, crate::repo::Repo>;

/// The entries that the registry holds, in its order.
pub uninterp spec fn local_entries(m: Local) -> Seq<(Seq<char>, crate::repo::Repo)>;

/// Relies on `IndexMap::new`: a map without entries.
#[verifier::external_body]
pub(crate) fn local_new() -> (m: Local)
    ensures
        local_entries(m) == Seq::<(Seq<char>, crate::repo::Repo)>::empty(),
{
    IndexMap::new()
}

/// Relies on `IndexMap::len`: the number of entries.
#[verifier::external_body]
pub(crate) fn local_len(m: &Local) -> (n: usize)
    ensures
        n == local_entries(*m).len(),
{
    m.len()
}

/// Relies on `IndexMap::get_index`: the entry at a position of the order.
#[verifier::external_body]
pub(crate) fn local_get_index(m: &Local, i: usize) -> (r: Option<(&String, &crate::repo::Repo)>)
    ensures
        i < local_entries(*m).len() <==> r is Some,
        r matches Some((k, v)) ==> local_entries(*m)[i as int] == (k@, *v),
{
    m.get_index(i)
}

/// Relies on `IndexMap::contains_key`: whether some entry has the key.
#[verifier::external_body]
pub(crate) fn local_contains_key(m: &Local, k: &str) -> (r: bool)
    ensures
        r == (crate::keys::index_of(local_entries(*m), k@) >= 0),
{
    m.contains_key(k)
}

/// Relies on `IndexMap::insert`: an existing key keeps its place and takes the
/// new value; a new key goes last.
#[verifier::external_body]
pub(crate) fn local_insert(m: &mut Local, k: String, v: crate::repo::Repo)
    ensures
        local_entries(*final(m)) == crate::keys::insert_entry(local_entries(*old(m)), k@, v),
{
    m.insert(k, v);
}

} // verus!
