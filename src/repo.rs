//! Tracked checkouts and the build metadata resolved for them.
use crate::identifier::{parse_url, user_repo_from_url, IdentifierParseError};
use crate::rustdoc::views;
use vstd::prelude::*;

verus! {

/// A build workspace: its directory, its artifact directory, and the names
/// of the packages (components) it declares.
pub struct Workspace {
    pub dir: String,
    pub target_directory: String,
    pub packages: Vec<String>,
}

/// The build metadata of one checkout: its owner and name, and its workspaces.
pub struct Repo {
    pub user: String,
    pub repo: String,
    pub workspaces: Vec<Workspace>,
}

/// A tracked checkout.
pub struct Submodule {
    /// Path of the checkout, relative to the tracking repository.
    pub local: String,
    /// Remote URL.
    pub url: String,
    /// Identifier read off the URL.
    pub user_repo: String,
}

/// The checkouts that the tracking repository records, in its order.
pub struct SelfRepo {
    pub submodules: Vec<Submodule>,
}

/// The identifiers of a sequence of checkouts.
pub open spec fn ids_of(subs: Seq<Submodule>) -> Seq<Seq<char>> {
    subs.map_values(|m: Submodule| m.user_repo@)
}

/// A checkout with path `local` and remote `url`, as recorded.
pub open spec fn tracks(m: Submodule, local: Seq<char>, url: Seq<char>) -> bool {
    &&& m.local@ == local
    &&& m.url@ == url
    &&& parse_url(url) == Ok::<Seq<char>, IdentifierParseError>(m.user_repo@)
}

/// A checkout as (path, remote URL, identifier).
pub open spec fn sub_view(m: Submodule) -> (Seq<char>, Seq<char>, Seq<char>) {
    (m.local@, m.url@, m.user_repo@)
}

/// The checkouts that a listing of (path, remote URL) pairs gives, in order:
/// one for each URL that names an identifier; the others are left out.
pub open spec fn tracked_of(listing: Seq<(String, String)>) -> Seq<(Seq<char>, Seq<char>, Seq<char>)>
    decreases listing.len(),
{
    if listing.len() == 0 {
        Seq::empty()
    } else {
        let p = tracked_of(listing.drop_last());
        match parse_url(listing.last().1@) {
            Ok(id) => p.push((listing.last().0@, listing.last().1@, id)),
            Err(_) => p,
        }
    }
}

impl Submodule {
    /// The checkout at `local` whose remote is `url`.
    pub fn new(local: String, url: String) -> (r: Result<Submodule, IdentifierParseError>)
        ensures
            r matches Ok(m) ==> tracks(m, local@, url@),
            r matches Err(e) ==> parse_url(url@) == Err::<Seq<char>, IdentifierParseError>(e),
    {
        let user_repo = user_repo_from_url(url.as_str())?;
        Ok(Submodule { local, url, user_repo })
    }
}

impl SelfRepo {
    /// The identifiers of the tracked checkouts, in order.
    pub fn vec_of_user_repo(&self) -> (r: Vec<String>)
        ensures
            views(r@) == ids_of(self.submodules@),
    {
        let mut v: Vec<String> = Vec::new();
        let mut i: usize = 0;
        while i < self.submodules.len()
            invariant
                i <= self.submodules@.len(),
                v@.len() == i,
                views(v@) == ids_of(self.submodules@).subrange(0, i as int),
            decreases self.submodules@.len() - i,
        {
            let ghost before = v@;
            v.push(self.submodules[i].user_repo.clone());
            assert forall|j: int| 0 <= j < i implies views(v@)[j] == views(before)[j] by {
                assert(v@[j] == before[j]);
            }
            assert(views(v@) =~= ids_of(self.submodules@).subrange(0, i + 1));
            i = i + 1;
        }
        assert(ids_of(self.submodules@).subrange(0, i as int) =~= ids_of(self.submodules@));
        v
    }

    /// Replaces the tracked checkouts with a fresh listing of (path, remote
    /// URL) pairs; a pair whose URL names no identifier is left out.
    pub fn update_submodules(&mut self, listing: &Vec<(String, String)>)
        ensures
            final(self).submodules@.map_values(|m: Submodule| sub_view(m)) == tracked_of(listing@),
    {
        let mut subs: Vec<Submodule> = Vec::new();
        let mut i: usize = 0;
        while i < listing.len()
            invariant
                i <= listing@.len(),
                subs@.map_values(|m: Submodule| sub_view(m)) == tracked_of(listing@.subrange(0, i as int)),
            decreases listing@.len() - i,
        {
            let (local, url) = &listing[i];
            let ghost before = subs@;
            proof {
                assert(listing@.subrange(0, i + 1).drop_last() =~= listing@.subrange(0, i as int));
            }
            match Submodule::new(local.clone(), url.clone()) {
                Ok(m) => {
                    subs.push(m);
                    assert(subs@.map_values(|m: Submodule| sub_view(m)) =~= before.map_values(
                        |m: Submodule| sub_view(m),
                    ).push(sub_view(m)));
                },
                Err(_) => {},
            }
            i = i + 1;
        }
        assert(listing@.subrange(0, i as int) =~= listing@);
        self.submodules = subs;
    }
}

} // verus!
