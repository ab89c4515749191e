//! Classification of repository URLs into taxonomy categories.
//!
//! Parsing the URL is the business of the `url` crate; everything the
//! classification reads from the parse — the host and the path — is
//! handed back as plain strings, and the decision itself is verified.

use vstd::prelude::*;

verus! {

/// The category of a repository URL value.
#[derive(Debug, PartialEq, Eq)]
pub enum RepoUrlType {
    GithubUnnormalized,
    GithubUserOrOrganization,
    GithubRepository,
    GithubTreeish,
    OtherServiceRepository,
    InvalidUrl,
}

/// What `url::Url::parse` extracts from a URL string: its host and its
/// path, or nothing where the string does not parse as an absolute URL
/// or has no host.  A function of the string alone.
pub uninterp spec fn url_host_path(s: Seq<char>) -> Option<(Seq<char>, Seq<char>)>;

/// Relies on `url::Url::parse`, `Url::host_str` and `Url::path`: the
/// host and path of the parsed URL, or `None` where parsing fails or
/// the URL has no host.
#[verifier::external_body]
fn parse_host_path(s: &str) -> (r: Option<(String, String)>)
    ensures
        r.deep_view() == url_host_path(s@),
{
    match url::Url::parse(s) {
        Ok(u) => match u.host_str() {
            Some(h) => Some((h.to_string(), u.path().to_string())),
            None => None,
        },
        Err(_) => None,
    }
}

/// How often `c` occurs in `s`.
pub open spec fn count_char(s: Seq<char>, c: char) -> nat
    decreases s.len(),
{
    if s.len() == 0 {
        0
    } else {
        count_char(s.drop_last(), c) + if s.last() == c {
            1nat
        } else {
            0nat
        }
    }
}

/// Counts the occurrences of `c` in `s`.
pub fn count_char_occurrences(s: &str, c: char) -> (r: usize)
    ensures
        r == count_char(s@, c),
{
    let n = s.unicode_len();
    let mut count: usize = 0;
    let mut i: usize = 0;
    proof {
        assert(s@.take(0) =~= Seq::<char>::empty());
    }
    while i < n
        invariant
            i <= n,
            n == s@.len(),
            count <= i,
            count == count_char(s@.take(i as int), c),
        decreases n - i,
    {
        let ci = s.get_char(i);
        proof {
            assert(s@.take(i + 1).drop_last() =~= s@.take(i as int));
            assert(s@.take(i + 1).last() == s@[i as int]);
        }
        if ci == c {
            count = count + 1;
        }
        i = i + 1;
    }
    proof {
        assert(s@.take(n as int) =~= s@);
    }
    count
}

/// The category of a URL string `u` whose parse yielded `hp`: a GitHub
/// host is classified by trailing slash and by the number of path
/// segments, any other host with a successful parse is another
/// service's repository, and a failed parse is invalid.
pub open spec fn spec_classify(u: Seq<char>, hp: Option<(Seq<char>, Seq<char>)>) -> RepoUrlType {
    match hp {
        None => RepoUrlType::InvalidUrl,
        Some(parts) => {
            if parts.0 == "github.com"@ || parts.0 == "www.github.com"@ {
                if u.len() > 0 && u.last() == '/' {
                    RepoUrlType::GithubUnnormalized
                } else {
                    let slashes = count_char(parts.1, '/');
                    if slashes == 2 {
                        RepoUrlType::GithubRepository
                    } else if slashes == 1 {
                        RepoUrlType::GithubUserOrOrganization
                    } else {
                        RepoUrlType::GithubTreeish
                    }
                }
            } else {
                RepoUrlType::OtherServiceRepository
            }
        },
    }
}

/// The category of a URL string: total, every string falls in exactly
/// one category.
pub open spec fn classify_url(u: Seq<char>) -> RepoUrlType {
    spec_classify(u, url_host_path(u))
}

/// A category that passes validation; the other four are flagged.
pub open spec fn url_type_accepted(t: RepoUrlType) -> bool {
    t is GithubRepository || t is OtherServiceRepository
}

/// Classifies a URL string given the host and path that its parse
/// yielded.
pub fn classify_with_parts(url: &str, host_path: &Option<(String, String)>) -> (r: RepoUrlType)
    ensures
        r == spec_classify(url@, host_path.deep_view()),
{
    match host_path {
        None => RepoUrlType::InvalidUrl,
        Some(parts) => {
            let github = String::from_str("github.com");
            let www_github = String::from_str("www.github.com");
            if parts.0 == github || parts.0 == www_github {
                let len = url.unicode_len();
                if len > 0 && url.get_char(len - 1) == '/' {
                    RepoUrlType::GithubUnnormalized
                } else {
                    let slashes = count_char_occurrences(parts.1.as_str(), '/');
                    if slashes == 2 {
                        RepoUrlType::GithubRepository
                    } else if slashes == 1 {
                        RepoUrlType::GithubUserOrOrganization
                    } else {
                        RepoUrlType::GithubTreeish
                    }
                }
            } else {
                RepoUrlType::OtherServiceRepository
            }
        },
    }
}

/// Classifies a repository URL string into exactly one category.
pub fn parse_repo_url_type(url: &str) -> (r: RepoUrlType)
    ensures
        r == classify_url(url@),
{
    let host_path = parse_host_path(url);
    classify_with_parts(url, &host_path)
}

/// Decides whether a category passes validation.
pub fn url_type_is_accepted(t: &RepoUrlType) -> (r: bool)
    ensures
        r == url_type_accepted(*t),
{
    match t {
        RepoUrlType::GithubRepository => true,
        RepoUrlType::OtherServiceRepository => true,
        _ => false,
    }
}

} // verus!
