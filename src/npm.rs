//! Packages of the registry: the repository that a package's metadata names.

use vstd::prelude::*;
use crate::github::{github_identity, Github, RepoView};
use crate::json::{json_str_at, str_at};
use crate::text::{chars_of, has_prefix, has_suffix, matches_at, same, string_of};
use crate::weburl::{parse_url, url_domain, url_parses, url_path, url_scheme};

verus! {

/// The JSON pointer of the repository URL in a package's metadata.
pub open spec fn repository_pointer() -> Seq<char> {
    "/repository/url"@
}

/// The address of the metadata document of the package that `input` designates, when
/// it is an http or https URL of a package page on the registry's site.
pub open spec fn registry_document_url(input: Seq<char>) -> Option<Seq<char>> {
    let path = url_path(input);
    if url_parses(input) && url_domain(input) == Some("www.npmjs.com"@) && (url_scheme(input)
        == "https"@ || url_scheme(input) == "http"@) && has_prefix(path, "/package/"@)
        && path.len() > 9 {
        Some("https://registry.npmjs.org/"@ + path.subrange(9, path.len() as int))
    } else {
        None
    }
}

/// A repository URL without the `git+` prefix and the `.git` suffix that package
/// metadata may decorate it with.
pub open spec fn strip_vcs_decorations(s: Seq<char>) -> Seq<char> {
    let a = if has_prefix(s, "git+"@) {
        s.subrange(4, s.len() as int)
    } else {
        s
    };
    if has_suffix(a, ".git"@) {
        a.subrange(0, a.len() - 4)
    } else {
        a
    }
}

/// The repository that a package's metadata document names, if it names one on the
/// hosting platform.
pub open spec fn npm_identity(metadata: Seq<char>) -> Option<RepoView> {
    match json_str_at(metadata, repository_pointer()) {
        Some(raw) => match github_identity(strip_vcs_decorations(raw)) {
            Some(id) => Some(
                RepoView { owner: id.0, name: id.1, link: strip_vcs_decorations(raw) },
            ),
            None => None,
        },
        None => None,
    }
}

/// A repository URL written `git+<u>.git` in a package's metadata resolves as `<u>`
/// itself: the identity keeps neither decoration.
pub proof fn lemma_decorated_repository_url(metadata: Seq<char>, u: Seq<char>)
    requires
        json_str_at(metadata, repository_pointer()) == Some("git+"@ + u + ".git"@),
    ensures
        strip_vcs_decorations("git+"@ + u + ".git"@) == u,
        npm_identity(metadata) == match github_identity(u) {
            Some(id) => Some(RepoView { owner: id.0, name: id.1, link: u }),
            None => None,
        },
{
    reveal_strlit("git+");
    reveal_strlit(".git");
    let s = "git+"@ + u + ".git"@;
    assert(s.subrange(0, 4) =~= "git+"@);
    let a = s.subrange(4, s.len() as int);
    assert(a =~= u + ".git"@);
    assert(a.subrange(a.len() - 4, a.len() as int) =~= ".git"@);
    assert(a.subrange(0, a.len() - 4) =~= u);
}

/// A package of the registry, resolved to the repository it is developed in.
pub struct Npm {
    gh: Github,
}

impl View for Npm {
    type V = RepoView;

    closed spec fn view(&self) -> RepoView {
        self.gh@
    }
}

/// `s` without the `git+` prefix and the `.git` suffix, where they are present.
pub fn strip_decorations(s: &str) -> (r: String)
    ensures
        r@ == strip_vcs_decorations(s@),
{
    let cs = chars_of(s);
    let prefix = chars_of("git+");
    let suffix = chars_of(".git");
    proof {
        reveal_strlit("git+");
        reveal_strlit(".git");
    }
    let n = cs.len();
    let start: usize = if matches_at(cs.as_slice(), prefix.as_slice(), 0) {
        4
    } else {
        0
    };
    assert(start == 4 <==> has_prefix(s@, "git+"@));
    let ghost a = if start == 4 {
        s@.subrange(4, s@.len() as int)
    } else {
        s@
    };
    let end: usize = if n >= start + 4 && matches_at(cs.as_slice(), suffix.as_slice(), n - 4) {
        n - 4
    } else {
        n
    };
    proof {
        assert(a =~= cs@.subrange(start as int, n as int));
        if n >= start + 4 {
            assert(a.subrange(a.len() - 4, a.len() as int) =~= cs@.subrange(
                n - 4,
                n as int,
            ));
            assert(a.subrange(0, a.len() - 4) =~= cs@.subrange(start as int, n - 4));
        }
    }
    string_of(cs.as_slice(), start, end)
}

impl Npm {
    /// The address of the metadata document of the package that `url` designates, or
    /// `None` when `url` is not a package page of the registry.
    pub fn registry_url(url: &str) -> (r: Option<String>)
        ensures
            r.deep_view() == registry_document_url(url@),
    {
        let parts = match parse_url(url) {
            Some(p) => p,
            None => return None,
        };
        let domain = match &parts.domain {
            Some(d) => chars_of(d.as_str()),
            None => return None,
        };
        if !same(domain.as_slice(), chars_of("www.npmjs.com").as_slice()) {
            return None;
        }
        let scheme = chars_of(parts.scheme.as_str());
        if !same(scheme.as_slice(), chars_of("https").as_slice()) && !same(
            scheme.as_slice(),
            chars_of("http").as_slice(),
        ) {
            return None;
        }
        let path = chars_of(parts.path.as_str());
        let key = chars_of("/package/");
        proof {
            reveal_strlit("/package/");
        }
        if !matches_at(path.as_slice(), key.as_slice(), 0) || path.len() <= 9 {
            return None;
        }
        let mut r = String::from_str("https://registry.npmjs.org/");
        let rest = string_of(path.as_slice(), 9, path.len());
        r.append(rest.as_str());
        Some(r)
    }

    /// The package that `url` designates, resolved through `metadata`, the registry's
    /// document about it (fetched from `registry_url(url)`). `None` when `url` is no
    /// package page, or the document names no repository of the hosting platform.
    pub fn with_url(url: &str, metadata: &str) -> (r: Option<Npm>)
        ensures
            registry_document_url(url@) is None ==> r is None,
            registry_document_url(url@) is Some ==> match npm_identity(metadata@) {
                Some(id) => r is Some && r->0@ == id,
                None => r is None,
            },
    {
        if Npm::registry_url(url).is_none() {
            return None;
        }
        let raw = match str_at(metadata, "/repository/url") {
            Some(s) => s,
            None => return None,
        };
        let cleaned = strip_decorations(raw.as_str());
        match Github::with_url(cleaned.as_str()) {
            Some(gh) => Some(Npm { gh }),
            None => None,
        }
    }

    /// The repository the package is developed in.
    pub fn github(&self) -> (r: &Github)
        ensures
            r@ == self@,
    {
        &self.gh
    }
}

} // verus!
