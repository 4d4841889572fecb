//! Repositories of the hosting platform: identity from a URL, and the parsing
//! of what its API answers.

use vstd::prelude::*;
use crate::json::array_len;
use crate::pagination::{last_page, page_count};
use crate::text::{
    chars_of, find_char, find_char_from, lemma_find_char_from_bounds, same, string_of,
};
use crate::weburl::{parse_url, url_domain, url_parses, url_path, url_scheme};

verus! {

/// What identifies a repository: its owner, its name, and the URL it was read from.
pub struct RepoView {
    pub owner: Seq<char>,
    pub name: Seq<char>,
    pub link: Seq<char>,
}

/// A repository of the hosting platform.
pub struct Github {
    owner: String,
    repo: String,
    link: String,
}

impl View for Github {
    type V = RepoView;

    closed spec fn view(&self) -> RepoView {
        RepoView { owner: self.owner@, name: self.repo@, link: self.link@ }
    }
}

/// The owner and name in a URL path: the two segments that follow the first `/`,
/// both non-empty; further segments are ignored.
pub open spec fn repo_path_parts(path: Seq<char>) -> Option<(Seq<char>, Seq<char>)> {
    let i = find_char_from(path, '/', 0);
    let j = find_char_from(path, '/', i + 1);
    let k = find_char_from(path, '/', j + 1);
    if j >= path.len() || i + 1 >= j || j + 1 >= k {
        None
    } else {
        Some((path.subrange(i + 1, j), path.subrange(j + 1, k)))
    }
}

/// The owner and name of the repository that `input` designates, when it is an
/// http or https URL on the hosting platform's domain.
pub open spec fn github_identity(input: Seq<char>) -> Option<(Seq<char>, Seq<char>)> {
    if url_parses(input) && url_domain(input) == Some("github.com"@) && (url_scheme(input)
        == "https"@ || url_scheme(input) == "http"@) {
        repo_path_parts(url_path(input))
    } else {
        None
    }
}

impl Github {
    /// The number of pages that a listing request at one item per page would walk,
    /// from the response's pagination header (`link`), when it has one, and its body.
    /// `None` when the response does not say.
    pub fn rest_page_count(link: Option<&str>, body: &str) -> (r: Option<u32>)
        ensures
            r == page_count(
                match link {
                    Some(h) => Some(h@),
                    None => None,
                },
                body@,
            ),
    {
        match link {
            None => match array_len(body) {
                Some(n) => Some(if n == 0 { 0 } else { 1 }),
                None => None,
            },
            Some(h) => last_page(h),
        }
    }

    /// The repository that `url` designates, or `None` when it designates none.
    pub fn with_url(url: &str) -> (r: Option<Github>)
        ensures
            match github_identity(url@) {
                Some(id) => r is Some && r->0@ == (RepoView {
                    owner: id.0,
                    name: id.1,
                    link: url@,
                }),
                None => r is None,
            },
    {
        let parts = match parse_url(url) {
            Some(p) => p,
            None => return None,
        };
        let domain = match &parts.domain {
            Some(d) => chars_of(d.as_str()),
            None => return None,
        };
        if !same(domain.as_slice(), chars_of("github.com").as_slice()) {
            return None;
        }
        let scheme = chars_of(parts.scheme.as_str());
        if !same(scheme.as_slice(), chars_of("https").as_slice()) && !same(
            scheme.as_slice(),
            chars_of("http").as_slice(),
        ) {
            return None;
        }
        let path = chars_of(parts.path.as_str());
        let n = path.len();
        let i = find_char(path.as_slice(), '/', 0);
        proof {
            lemma_find_char_from_bounds(path@, '/', 0);
        }
        if i == n {
            return None;
        }
        let j = find_char(path.as_slice(), '/', i + 1);
        proof {
            lemma_find_char_from_bounds(path@, '/', i + 1);
        }
        if j == n || i + 1 >= j {
            return None;
        }
        let k = find_char(path.as_slice(), '/', j + 1);
        proof {
            lemma_find_char_from_bounds(path@, '/', j + 1);
        }
        if j + 1 >= k {
            return None;
        }
        let owner = string_of(path.as_slice(), i + 1, j);
        let repo = string_of(path.as_slice(), j + 1, k);
        let link = String::from_str(url);
        Some(Github { owner, repo, link })
    }

    /// The owner of the repository.
    pub fn owner(&self) -> (r: &str)
        ensures
            r@ == self@.owner,
    {
        self.owner.as_str()
    }

    /// The name of the repository.
    pub fn repo(&self) -> (r: &str)
        ensures
            r@ == self@.name,
    {
        self.repo.as_str()
    }

    /// The URL the repository was read from.
    pub fn link(&self) -> (r: &str)
        ensures
            r@ == self@.link,
    {
        self.link.as_str()
    }
}

/// The query-graph document that asks for the number of users that can be mentioned
/// in the repository.
pub open spec fn bus_factor_query_text(v: RepoView) -> Seq<char> {
    "{\"query\" : \"query { repository(owner:\\\""@ + v.owner + "\\\", name:\\\""@ + v.name
        + "\\\") { mentionableUsers { totalCount } } }\" }"@
}

/// The query-graph document that asks for the number of the repository's pull
/// requests updated on or after the day `since` (written `YYYY-MM-DD`).
pub open spec fn responsiveness_query_text(v: RepoView, since: Seq<char>) -> Seq<char> {
    "{\"query\" : \"query { search(query: \\\"repo:"@ + v.owner + "/"@ + v.name
        + " is:pr updated:>="@ + since + "\\\" type:ISSUE) { issueCount } }\" }"@
}

/// The REST address of `path` under the repository.
pub open spec fn rest_url_text(v: RepoView, path: Seq<char>) -> Seq<char> {
    "https://api.github.com/repos/"@ + v.owner + "/"@ + v.name + "/"@ + path
}

impl Github {
    /// The query-graph document that asks for the number of users that can be
    /// mentioned in the repository.
    pub fn bus_factor_query(&self) -> (r: String)
        ensures
            r@ == bus_factor_query_text(self@),
    {
        let mut q = String::from_str("{\"query\" : \"query { repository(owner:\\\"");
        q.append(self.owner.as_str());
        q.append("\\\", name:\\\"");
        q.append(self.repo.as_str());
        q.append("\\\") { mentionableUsers { totalCount } } }\" }");
        q
    }

    /// The query-graph document that asks for the number of the repository's pull
    /// requests updated on or after the day `since`.
    pub fn responsiveness_query(&self, since: &str) -> (r: String)
        ensures
            r@ == responsiveness_query_text(self@, since@),
    {
        let mut q = String::from_str("{\"query\" : \"query { search(query: \\\"repo:");
        q.append(self.owner.as_str());
        q.append("/");
        q.append(self.repo.as_str());
        q.append(" is:pr updated:>=");
        q.append(since);
        q.append("\\\" type:ISSUE) { issueCount } }\" }");
        q
    }

    /// The REST address of `path` under the repository.
    pub fn rest_url(&self, path: &str) -> (r: String)
        ensures
            r@ == rest_url_text(self@, path@),
    {
        let mut u = String::from_str("https://api.github.com/repos/");
        u.append(self.owner.as_str());
        u.append("/");
        u.append(self.repo.as_str());
        u.append("/");
        u.append(path);
        u
    }
}

} // verus!
