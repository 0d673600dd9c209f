//! Repository identifiers (`owner/name`): reading them off remote URLs,
//! splitting them, and the URL and checkout path made from them.
use vstd::prelude::*;
use vstd::string::{StrSliceExecFns, StringExecFns};

verus! {

/// The host prefix that every tracked remote URL starts with.
pub const HOST_PREFIX: &'static str = "https://github.com/";

/// The suffix that a remote URL may end with.
pub const GIT_SUFFIX: &'static str = ".git";

/// The directory that holds the checkouts, relative to the tracking repository.
pub const REPOS: &'static str = "repos";

/// Why a string is not a repository identifier.
#[derive(Debug, PartialEq, Eq, Structural, Clone, Copy)]
pub enum IdentifierParseError {
    /// The remote URL does not start with the host prefix.
    MissingHostPrefix,
    /// The text is not two non-empty segments joined by one `/`.
    NotOwnerSlashName,
}

pub open spec fn no_slash(s: Seq<char>) -> bool {
    forall|j: int| 0 <= j < s.len() ==> s[j] != '/'
}

/// `s` is `owner/name` with the `/` at position `i`.
pub open spec fn splits_at(s: Seq<char>, i: int) -> bool {
    &&& 0 < i < s.len() - 1
    &&& s[i] == '/'
    &&& no_slash(s.subrange(0, i))
    &&& no_slash(s.subrange(i + 1, s.len() as int))
}

/// `s` is exactly two non-empty segments joined by `/`.
pub open spec fn is_user_repo(s: Seq<char>) -> bool {
    exists|i: int| splits_at(s, i)
}

pub open spec fn slash_of(s: Seq<char>) -> int {
    choose|i: int| splits_at(s, i)
}

/// The owner segment of an identifier.
pub open spec fn user_of(s: Seq<char>) -> Seq<char> {
    s.subrange(0, slash_of(s))
}

/// The name segment of an identifier.
pub open spec fn repo_of(s: Seq<char>) -> Seq<char> {
    s.subrange(slash_of(s) + 1, s.len() as int)
}

pub open spec fn has_prefix(s: Seq<char>, p: Seq<char>) -> bool {
    p.len() <= s.len() && s.subrange(0, p.len() as int) == p
}

pub open spec fn has_suffix(s: Seq<char>, p: Seq<char>) -> bool {
    p.len() <= s.len() && s.subrange(s.len() - p.len(), s.len() as int) == p
}

/// `s` without one trailing `.git`, if it has one.
pub open spec fn strip_git(s: Seq<char>) -> Seq<char> {
    if has_suffix(s, GIT_SUFFIX@) {
        s.subrange(0, s.len() - GIT_SUFFIX@.len())
    } else {
        s
    }
}

/// What a remote URL names: the text after the host prefix, less an optional
/// `.git`, when that is an identifier.
pub open spec fn parse_url(url: Seq<char>) -> Result<Seq<char>, IdentifierParseError> {
    if !has_prefix(url, HOST_PREFIX@) {
        Err(IdentifierParseError::MissingHostPrefix)
    } else {
        let id = strip_git(url.subrange(HOST_PREFIX@.len() as int, url.len() as int));
        if is_user_repo(id) {
            Ok(id)
        } else {
            Err(IdentifierParseError::NotOwnerSlashName)
        }
    }
}

/// The remote URL of `user/repo`.
pub open spec fn link_of(user: Seq<char>, repo: Seq<char>) -> Seq<char> {
    HOST_PREFIX@ + user + seq!['/'] + repo + GIT_SUFFIX@
}

/// Whether `s` starts with `p`.
pub fn starts_with(s: &str, p: &str) -> (r: bool)
    ensures
        r == has_prefix(s@, p@),
{
    let n = s.unicode_len();
    let m = p.unicode_len();
    if m > n {
        return false;
    }
    let mut i: usize = 0;
    while i < m
        invariant
            n == s@.len(),
            m == p@.len(),
            m <= n,
            i <= m,
            forall|j: int| 0 <= j < i ==> s@[j] == p@[j],
        decreases m - i,
    {
        if s.get_char(i) != p.get_char(i) {
            assert(s@.subrange(0, m as int)[i as int] != p@[i as int]);
            return false;
        }
        i = i + 1;
    }
    assert(s@.subrange(0, m as int) =~= p@);
    true
}

/// Whether `s` ends with `p`.
pub fn ends_with(s: &str, p: &str) -> (r: bool)
    ensures
        r == has_suffix(s@, p@),
{
    let n = s.unicode_len();
    let m = p.unicode_len();
    if m > n {
        return false;
    }
    let d = n - m;
    let mut i: usize = 0;
    while i < m
        invariant
            n == s@.len(),
            m == p@.len(),
            m <= n,
            d == n - m,
            i <= m,
            forall|j: int| 0 <= j < i ==> s@[d + j] == p@[j],
        decreases m - i,
    {
        if s.get_char(d + i) != p.get_char(i) {
            assert(s@.subrange(d as int, n as int)[i as int] != p@[i as int]);
            return false;
        }
        i = i + 1;
    }
    assert(s@.subrange(d as int, n as int) =~= p@);
    true
}

/// Position of the `/` of an identifier, or the reason it is none.
fn find_slash(s: &str) -> (r: Result<usize, IdentifierParseError>)
    ensures
        r matches Ok(i) ==> splits_at(s@, i as int),
        r is Ok <==> is_user_repo(s@),
        r matches Err(e) ==> e == IdentifierParseError::NotOwnerSlashName,
{
    let n = s.unicode_len();
    let mut i: usize = 0;
    while i < n && s.get_char(i) != '/'
        invariant
            n == s@.len(),
            i <= n,
            forall|j: int| 0 <= j < i ==> s@[j] != '/',
        decreases n - i,
    {
        i = i + 1;
    }
    if i == 0 || i >= n || i == n - 1 {
        proof {
            if is_user_repo(s@) {
                let k = choose|k: int| splits_at(s@, k);
                assert(s@.subrange(0, k)[0] != '/');
                if i < n {
                    assert(i == k) by {
                        if i < k {
                            assert(s@.subrange(0, k)[i as int] == '/');
                        }
                    }
                }
            }
        }
        return Err(IdentifierParseError::NotOwnerSlashName);
    }
    let mut j: usize = i + 1;
    while j < n
        invariant
            n == s@.len(),
            0 < i < j <= n,
            s@[i as int] == '/',
            forall|t: int| 0 <= t < i ==> s@[t] != '/',
            forall|t: int| i < t < j ==> s@[t] != '/',
        decreases n - j,
    {
        if s.get_char(j) == '/' {
            proof {
                if is_user_repo(s@) {
                    let k = choose|k: int| splits_at(s@, k);
                    if k < i {
                        assert(s@.subrange(k + 1, s@.len() as int)[i - k - 1] == '/');
                    } else if k > i {
                        assert(s@.subrange(0, k)[i as int] == '/');
                    } else {
                        assert(s@.subrange(k + 1, s@.len() as int)[j - k - 1] == '/');
                    }
                }
            }
            return Err(IdentifierParseError::NotOwnerSlashName);
        }
        j = j + 1;
    }
    assert(splits_at(s@, i as int));
    Ok(i)
}

/// Where `splits_at` holds, the position is the one the spec functions use.
pub proof fn lemma_slash_unique(s: Seq<char>, i: int)
    requires
        splits_at(s, i),
    ensures
        slash_of(s) == i,
        user_of(s) == s.subrange(0, i),
        repo_of(s) == s.subrange(i + 1, s.len() as int),
{
    let k = slash_of(s);
    assert(splits_at(s, k));
    if k < i {
        assert(s.subrange(0, i)[k] == '/');
    } else if k > i {
        assert(s.subrange(0, k)[i] == '/');
    }
}

/// Splits an identifier into its owner and name.
pub fn split_user_repo(user_repo: &str) -> (r: Result<(String, String), IdentifierParseError>)
    ensures
        r is Ok <==> is_user_repo(user_repo@),
        r matches Ok((u, n)) ==> u@ == user_of(user_repo@) && n@ == repo_of(user_repo@),
        r matches Err(e) ==> e == IdentifierParseError::NotOwnerSlashName,
{
    let i = find_slash(user_repo)?;
    let n = user_repo.unicode_len();
    let user = user_repo.substring_char(0, i).to_owned();
    let repo = user_repo.substring_char(i + 1, n).to_owned();
    proof {
        lemma_slash_unique(user_repo@, i as int);
    }
    Ok((user, repo))
}

/// The identifier that a remote URL names.
pub fn user_repo_from_url(url: &str) -> (r: Result<String, IdentifierParseError>)
    ensures
        r matches Ok(s) ==> parse_url(url@) == Ok::<Seq<char>, IdentifierParseError>(s@),
        r matches Err(e) ==> parse_url(url@) == Err::<Seq<char>, IdentifierParseError>(e),
{
    if !starts_with(url, HOST_PREFIX) {
        return Err(IdentifierParseError::MissingHostPrefix);
    }
    let n = url.unicode_len();
    let h = HOST_PREFIX.unicode_len();
    let rest = url.substring_char(h, n);
    let id = if ends_with(rest, GIT_SUFFIX) {
        let m = rest.unicode_len();
        rest.substring_char(0, m - GIT_SUFFIX.unicode_len())
    } else {
        rest
    };
    find_slash(id)?;
    Ok(id.to_owned())
}

/// The remote URL of `user/repo`.
pub fn git_link(user: &str, repo: &str) -> (r: String)
    ensures
        r@ == link_of(user@, repo@),
{
    let mut link = HOST_PREFIX.to_owned();
    link.append(user);
    link.append("/");
    link.append(repo);
    link.append(GIT_SUFFIX);
    proof {
        reveal_strlit("/");
    }
    assert(link@ =~= link_of(user@, repo@));
    link
}

/// A remote URL made of the host prefix, `owner`, `/`, `name` and an optional
/// `.git` names exactly `owner/name`, whose segments are `owner` and `name`
/// (without the `.git`, a name that itself ends in `.git` loses it); a URL
/// without the host prefix is refused.
pub proof fn lemma_url_names_user_repo(user: Seq<char>, repo: Seq<char>, url: Seq<char>)
    requires
        user.len() > 0,
        repo.len() > 0,
        no_slash(user),
        no_slash(repo),
    ensures
        parse_url(link_of(user, repo)) == Ok::<Seq<char>, IdentifierParseError>(
            user + seq!['/'] + repo,
        ),
        !has_suffix(repo, GIT_SUFFIX@) ==> parse_url(HOST_PREFIX@ + user + seq!['/'] + repo) == Ok::<
            Seq<char>,
            IdentifierParseError,
        >(user + seq!['/'] + repo),
        user_of(user + seq!['/'] + repo) == user,
        repo_of(user + seq!['/'] + repo) == repo,
        !has_prefix(url, HOST_PREFIX@) ==> parse_url(url) == Err::<Seq<char>, IdentifierParseError>(
            IdentifierParseError::MissingHostPrefix,
        ),
{
    reveal_strlit(".git");
    let h = HOST_PREFIX@;
    let id = user + seq!['/'] + repo;
    let i = user.len() as int;
    assert(id.subrange(0, i) =~= user);
    assert(id.subrange(i + 1, id.len() as int) =~= repo);
    assert(splits_at(id, i));
    lemma_slash_unique(id, i);
    let l = link_of(user, repo);
    assert(l =~= h + (id + GIT_SUFFIX@));
    assert(l.subrange(0, h.len() as int) =~= h);
    let rest = l.subrange(h.len() as int, l.len() as int);
    assert(rest =~= id + GIT_SUFFIX@);
    assert(rest.subrange(rest.len() - 4, rest.len() as int) =~= GIT_SUFFIX@);
    assert(rest.subrange(0, rest.len() - 4) =~= id);
    let plain = h + user + seq!['/'] + repo;
    assert(plain =~= h + id);
    assert(plain.subrange(0, h.len() as int) =~= h);
    assert(plain.subrange(h.len() as int, plain.len() as int) =~= id);
    if !has_suffix(repo, GIT_SUFFIX@) && has_suffix(id, GIT_SUFFIX@) {
        let tail = id.subrange(id.len() - 4, id.len() as int);
        if repo.len() >= 4 {
            assert(tail =~= repo.subrange(repo.len() - 4, repo.len() as int));
        } else {
            let j = 3 - repo.len();
            assert(tail[j] == '/');
        }
    }
}

/// Where the checkout of `user/repo` lives: `repos/<user>/<repo>`.
pub open spec fn path_of(user: Seq<char>, repo: Seq<char>) -> Seq<char> {
    REPOS@ + seq!['/'] + user + seq!['/'] + repo
}

/// The checkout path of `user/repo`, relative to the tracking repository.
pub fn checkout_path(user: &str, repo: &str) -> (r: String)
    ensures
        r@ == path_of(user@, repo@),
{
    let mut path = REPOS.to_owned();
    path.append("/");
    path.append(user);
    path.append("/");
    path.append(repo);
    proof {
        reveal_strlit("/");
    }
    assert(path@ =~= path_of(user@, repo@));
    path
}

} // verus!
