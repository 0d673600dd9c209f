//! What the documentation builder computes for one workspace: the name each
//! component's documentation folder gets, the URL of each, and whether it
//! was produced.
use crate::identifier::has_prefix;
use crate::keys::{entries_map, keys_sorted, keys_unique, lemma_insert_entry_map, lemma_same_entries_map, lemma_sorted_unique};
use crate::ordered::{opt_view, url_entries, urls_insert, urls_new, urls_sort, ComponentUrls};
use vstd::prelude::*;
use vstd::string::{StrSliceExecFns, StringExecFns};

verus! {

/// The views of a sequence of strings.
pub open spec fn views(v: Seq<String>) -> Seq<Seq<char>> {
    v.map_values(|s: String| s@)
}

/// A component's slug: its name with every `-` turned into `_`.
pub open spec fn slug_of(name: Seq<char>) -> Seq<char> {
    Seq::new(name.len(), |i: int| if name[i] == '-' { '_' } else { name[i] })
}

/// `s` without its trailing `/` characters.
pub open spec fn trim_slashes(s: Seq<char>) -> Seq<char>
    decreases s.len(),
{
    if s.len() > 0 && s.last() == '/' {
        trim_slashes(s.drop_last())
    } else {
        s
    }
}

/// The URL of a component's documentation.
pub open spec fn url_of(prefix: Seq<char>, rel: Seq<char>, slug: Seq<char>) -> Seq<char> {
    prefix + seq!['/'] + rel + seq!['/'] + slug
}

/// The outcome for component `name`: its URL when the build left a folder
/// named by its slug, else missing (also when the output could not be listed).
pub open spec fn outcome_of(
    name: Seq<char>,
    dirs: Option<Seq<Seq<char>>>,
    prefix: Seq<char>,
    rel: Seq<char>,
) -> Option<Seq<char>> {
    match dirs {
        Some(d) => if d.contains(slug_of(name)) {
            Some(url_of(prefix, rel, slug_of(name)))
        } else {
            None
        },
        None => None,
    }
}

/// The outcome of every component, by name.
pub open spec fn outcomes_map(
    names: Seq<Seq<char>>,
    dirs: Option<Seq<Seq<char>>>,
    prefix: Seq<char>,
    rel: Seq<char>,
) -> Map<Seq<char>, Option<Seq<char>>> {
    Map::new(|k: Seq<char>| names.contains(k), |k: Seq<char>| outcome_of(k, dirs, prefix, rel))
}

/// `path` relative to `base`, when it lies below it.
pub open spec fn relative_of(path: Seq<char>, base: Seq<char>) -> Option<Seq<char>> {
    if has_prefix(path, base + seq!['/']) {
        Some(path.subrange(base.len() as int + 1, path.len() as int))
    } else {
        None
    }
}

/// The crate name under which the documentation of package `name` appears.
pub fn crate_name(name: &str) -> (r: String)
    ensures
        r@ == slug_of(name@),
{
    let n = name.unicode_len();
    let mut out = String::new();
    let mut i: usize = 0;
    while i < n
        invariant
            n == name@.len(),
            i <= n,
            out@ == slug_of(name@).subrange(0, i as int),
        decreases n - i,
    {
        if name.get_char(i) == '-' {
            out.append("_");
        } else {
            out.append(name.substring_char(i, i + 1));
        }
        proof {
            reveal_strlit("_");
        }
        assert(out@ =~= slug_of(name@).subrange(0, i + 1));
        i = i + 1;
    }
    assert(slug_of(name@).subrange(0, n as int) =~= slug_of(name@));
    out
}

/// The URL prefix with its trailing `/` characters removed.
pub fn trim_url_prefix(s: &str) -> (r: String)
    ensures
        r@ == trim_slashes(s@),
{
    let mut e = s.unicode_len();
    assert(s@.subrange(0, e as int) =~= s@);
    while e > 0 && s.get_char(e - 1) == '/'
        invariant
            e <= s@.len(),
            trim_slashes(s@) == trim_slashes(s@.subrange(0, e as int)),
        decreases e,
    {
        assert(s@.subrange(0, e as int).drop_last() =~= s@.subrange(0, e - 1));
        e = e - 1;
    }
    s.substring_char(0, e).to_owned()
}

/// `path` relative to `base`, when it lies below it.
pub fn relative_path(path: &str, base: &str) -> (r: Option<String>)
    ensures
        opt_view(r) == relative_of(path@, base@),
{
    let mut dir = base.to_owned();
    dir.append("/");
    proof {
        reveal_strlit("/");
    }
    assert(dir@ =~= base@ + seq!['/']);
    if crate::identifier::starts_with(path, dir.as_str()) {
        let n = path.unicode_len();
        Some(path.substring_char(dir.unicode_len(), n).to_owned())
    } else {
        None
    }
}

/// The URL of a component's documentation.
pub fn doc_url(prefix: &str, rel: &str, slug: &str) -> (r: String)
    ensures
        r@ == url_of(prefix@, rel@, slug@),
{
    let mut url = prefix.to_owned();
    url.append("/");
    url.append(rel);
    url.append("/");
    url.append(slug);
    proof {
        reveal_strlit("/");
    }
    assert(url@ =~= url_of(prefix@, rel@, slug@));
    url
}

/// Whether `v` holds a string equal to `s`.
pub fn contains_str(v: &Vec<String>, s: &String) -> (r: bool)
    ensures
        r == views(v@).contains(s@),
{
    let mut i: usize = 0;
    while i < v.len()
        invariant
            i <= v@.len(),
            forall|j: int| 0 <= j < i ==> v@[j]@ != s@,
        decreases v@.len() - i,
    {
        if v[i] == *s {
            assert(views(v@)[i as int] == s@);
            return true;
        }
        i = i + 1;
    }
    assert forall|j: int| 0 <= j < views(v@).len() implies views(v@)[j] != s@ by {
        assert(views(v@)[j] == v@[j]@);
    }
    false
}

/// The documentation outcome of each package of a workspace, sorted by
/// package name: the URL where the output listing `dirs` holds the package's
/// slug, missing where it does not or where the output could not be listed.
pub fn workspace_urls(
    packages: &Vec<String>,
    dirs: Option<&Vec<String>>,
    url_prefix: &str,
    rel: &str,
) -> (r: ComponentUrls)
    ensures
        keys_sorted(url_entries(r)),
        entries_map(url_entries(r)) == outcomes_map(
            views(packages@),
            match dirs {
                Some(d) => Some(views(d@)),
                None => None,
            },
            url_prefix@,
            rel@,
        ),
{
    let ghost d = match dirs {
        Some(d) => Some(views(d@)),
        None => None,
    };
    let ghost names = views(packages@);
    let mut urls = urls_new();
    let mut i: usize = 0;
    assert(entries_map(url_entries(urls)) =~= outcomes_map(names.subrange(0, 0), d, url_prefix@, rel@));
    while i < packages.len()
        invariant
            i <= packages@.len(),
            names == views(packages@),
            d == match dirs {
                Some(l) => Some(views(l@)),
                None => None,
            },
            keys_unique(url_entries(urls)),
            entries_map(url_entries(urls)) == outcomes_map(names.subrange(0, i as int), d, url_prefix@, rel@),
        decreases packages@.len() - i,
    {
        let name = packages[i].as_str();
        let krate = crate_name(name);
        let url = match dirs {
            Some(listing) => if contains_str(listing, &krate) {
                Some(doc_url(url_prefix, rel, krate.as_str()))
            } else {
                None
            },
            None => None,
        };
        assert(opt_view(url) == outcome_of(name@, d, url_prefix@, rel@));
        let ghost before = url_entries(urls);
        urls_insert(&mut urls, name.to_owned(), url);
        proof {
            lemma_insert_entry_map(before, name@, opt_view(url));
            assert(names[i as int] == name@);
            let prev = names.subrange(0, i as int);
            assert(names.subrange(0, i + 1) =~= prev.push(name@));
            assert forall|k: Seq<char>| #![auto] prev.push(name@).contains(k) <==> (prev.contains(k) || k == name@) by {
                if prev.push(name@).contains(k) && k != name@ {
                    let j = choose|j: int| 0 <= j < prev.len() + 1 && prev.push(name@)[j] == k;
                    assert(prev[j] == k);
                }
                if prev.contains(k) {
                    let j = choose|j: int| 0 <= j < prev.len() && prev[j] == k;
                    assert(prev.push(name@)[j] == k);
                }
                if k == name@ {
                    assert(prev.push(name@)[prev.len() as int] == k);
                }
            }
            let m1 = outcomes_map(prev, d, url_prefix@, rel@).insert(name@, outcome_of(name@, d, url_prefix@, rel@));
            let m2 = outcomes_map(prev.push(name@), d, url_prefix@, rel@);
            assert forall|k: Seq<char>|
                #![trigger m1.contains_key(k)]
                #![trigger m2.contains_key(k)]
                m1.contains_key(k) == m2.contains_key(k) && (m1.contains_key(k) ==> m1[k] == m2[k]) by {
                assert(prev.push(name@).contains(k) <==> (prev.contains(k) || k == name@));
            }
            assert(m1 =~= m2);
            assert(entries_map(url_entries(urls)) == m1);
        }
        i = i + 1;
    }
    assert(names.subrange(0, i as int) =~= names);
    let ghost unsorted = url_entries(urls);
    urls_sort(&mut urls);
    proof {
        lemma_sorted_unique(url_entries(urls));
        lemma_same_entries_map(unsorted, url_entries(urls));
    }
    urls
}

} // verus!
