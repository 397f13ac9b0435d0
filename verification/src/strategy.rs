//! The README-location tactics a provider tries in priority order: an
//! API call built from the domain's URL template, a raw-content URL
//! that assumes the default branch is literally `master` (a known gap),
//! and an HTML scrape of the page itself.

use vstd::prelude::*;
use vstd::string::*;

use crate::bytes::{append_bytes, contains_bytes, contains_spec, replace_bytes, replace_spec,
    slice_to_vec_u8, split_byte, split_spec, trim_trailing, trim_trailing_spec, views_of};
use crate::domain::DomainConfig;

verus! {

/// The closed set of tactics, dispatched by tag; the cached "working
/// strategy" of a provider is stored as one of these tags.
#[derive(Debug, Clone, Copy, PartialEq, Eq, Structural)]
pub enum StrategyKind {
    Api,
    RawGit,
    HtmlScrape,
}

/// The owner/repo part of a repository URL: after trailing slashes are
/// dropped, the fourth and fifth slash-separated parts, joined — absent
/// when the URL has fewer than two path segments beyond the host.
pub open spec fn repo_path_of(url: Seq<u8>) -> Option<Seq<u8>> {
    let t = trim_trailing_spec(url, 47);
    let parts = split_spec(t, 47);
    if parts.len() < 5 {
        None
    } else {
        Some(parts[3] + seq![47u8] + parts[4])
    }
}

/// Extracts the owner/repo path from a repository URL.
pub fn extract_repo_path(url: &[u8]) -> (r: Option<Vec<u8>>)
    ensures
        (match r {
            Some(v) => Some(v@),
            None => None,
        }) == repo_path_of(url@),
{
    let t = trim_trailing(url, 47);
    let parts = split_byte(t.as_slice(), 47);
    if parts.len() < 5 {
        return None;
    }
    let mut out = slice_to_vec_u8(parts[3].as_slice());
    out.push(47);
    append_bytes(&mut out, parts[4].as_slice());
    proof {
        let pv = views_of(parts@);
        assert(pv[3] == parts@[3]@ && pv[4] == parts@[4]@);
        assert(out@ =~= pv[3] + seq![47u8] + pv[4]);
    }
    Some(out)
}

/// What the API tactic derives: the owner/repo path substituted into the
/// domain's template, behind `https://` and the domain.
pub open spec fn api_derive_spec(pattern: Seq<u8>, domain: Seq<u8>, url: Seq<u8>) -> Option<
    Seq<u8>,
> {
    match repo_path_of(url) {
        Some(rp) => Some(
            "https://".spec_bytes() + domain + replace_spec(pattern, "{repo}".spec_bytes(), rp),
        ),
        None => None,
    }
}

/// What the raw-content tactic derives: a raw.githubusercontent.com URL
/// for the `master` branch — absent unless the repo path is exactly an
/// owner and a repo.
pub open spec fn rawgit_derive_spec(url: Seq<u8>) -> Option<Seq<u8>> {
    match repo_path_of(url) {
        Some(rp) => {
            if split_spec(rp, 47).len() == 2 {
                Some(
                    "https://raw.githubusercontent.com/".spec_bytes() + rp
                        + "/master/README.md".spec_bytes(),
                )
            } else {
                None
            }
        },
        None => None,
    }
}

/// The API tactic, configured with the domain's URL template.
#[derive(Debug)]
pub struct ApiStrategy {
    pub api_pattern: Vec<u8>,
}

impl ApiStrategy {
    pub fn new(api_pattern: Vec<u8>) -> (r: ApiStrategy)
        ensures
            r.api_pattern@ == api_pattern@,
    {
        ApiStrategy { api_pattern }
    }

    /// Derives the API URL for a repository URL on `domain`.
    pub fn get_readme_url(&self, domain: &[u8], url: &[u8]) -> (r: Option<Vec<u8>>)
        ensures
            (match r {
                Some(v) => Some(v@),
                None => None,
            }) == api_derive_spec(self.api_pattern@, domain@, url@),
    {
        match extract_repo_path(url) {
            Some(rp) => {
                let replaced = replace_bytes(
                    self.api_pattern.as_slice(),
                    "{repo}".as_bytes(),
                    rp.as_slice(),
                );
                let mut out = "https://".as_bytes_vec();
                append_bytes(&mut out, domain);
                append_bytes(&mut out, replaced.as_slice());
                Some(out)
            },
            None => None,
        }
    }
}

/// The raw-content tactic.
#[derive(Debug)]
pub struct RawGitStrategy;

impl RawGitStrategy {
    /// Derives the raw-content URL for a repository URL.
    pub fn get_readme_url(&self, url: &[u8]) -> (r: Option<Vec<u8>>)
        ensures
            (match r {
                Some(v) => Some(v@),
                None => None,
            }) == rawgit_derive_spec(url@),
    {
        match extract_repo_path(url) {
            Some(rp) => {
                let parts = split_byte(rp.as_slice(), 47);
                if parts.len() != 2 {
                    return None;
                }
                let mut out = "https://raw.githubusercontent.com/".as_bytes_vec();
                append_bytes(&mut out, rp.as_slice());
                append_bytes(&mut out, "/master/README.md".as_bytes());
                Some(out)
            },
            None => None,
        }
    }
}

/// The HTML-scrape tactic.
#[derive(Debug)]
pub struct HtmlScrapeStrategy;

impl HtmlScrapeStrategy {
    /// Derivation always succeeds: the page itself is fetched.
    pub fn get_readme_url(&self, url: &[u8]) -> (r: Vec<u8>)
        ensures
            r@ == url@,
    {
        slice_to_vec_u8(url)
    }

    /// The crude success signal of the scrape: the fetched body holds
    /// the literal substring `README`.  Only on a match is the page
    /// fetched again and returned.
    pub fn body_indicates_readme(&self, body: &[u8]) -> (r: bool)
        ensures
            r == contains_spec(body@, "README".spec_bytes()),
    {
        contains_bytes(body, "README".as_bytes())
    }
}

/// What one tactic derives for a URL, given the domain and its optional
/// API template.
pub open spec fn derive_url_spec(
    kind: StrategyKind,
    api_pattern: Option<Seq<u8>>,
    domain: Seq<u8>,
    url: Seq<u8>,
) -> Option<Seq<u8>> {
    match kind {
        StrategyKind::Api => match api_pattern {
            Some(p) => api_derive_spec(p, domain, url),
            None => None,
        },
        StrategyKind::RawGit => rawgit_derive_spec(url),
        StrategyKind::HtmlScrape => Some(url),
    }
}

/// The view of an optional byte vector.
pub open spec fn opt_bytes_view(p: Option<Vec<u8>>) -> Option<Seq<u8>> {
    match p {
        Some(v) => Some(v@),
        None => None,
    }
}

/// Derives the README URL one tactic yields for `url`.
pub fn derive_url(
    kind: StrategyKind,
    api_pattern: &Option<Vec<u8>>,
    domain: &[u8],
    url: &[u8],
) -> (r: Option<Vec<u8>>)
    ensures
        opt_bytes_view(r) == derive_url_spec(
            kind,
            match *api_pattern {
                Some(p) => Some(p@),
                None => None,
            },
            domain@,
            url@,
        ),
{
    match kind {
        StrategyKind::Api => {
            match api_pattern {
                Some(p) => {
                    let s = ApiStrategy::new(slice_to_vec_u8(p.as_slice()));
                    s.get_readme_url(domain, url)
                },
                None => None,
            }
        },
        StrategyKind::RawGit => {
            let s = RawGitStrategy;
            s.get_readme_url(url)
        },
        StrategyKind::HtmlScrape => {
            let s = HtmlScrapeStrategy;
            Some(s.get_readme_url(url))
        },
    }
}

/// The tactic order a configuration yields: the API tactic first when
/// the domain has an API template, then raw-content, then HTML scrape.
pub open spec fn strategies_for(has_api: bool) -> Seq<StrategyKind> {
    if has_api {
        seq![StrategyKind::Api, StrategyKind::RawGit, StrategyKind::HtmlScrape]
    } else {
        seq![StrategyKind::RawGit, StrategyKind::HtmlScrape]
    }
}

/// Builds the tactic chain for a domain configuration.
pub fn create_strategies(config: &DomainConfig) -> (r: Vec<StrategyKind>)
    ensures
        r@ == strategies_for(config.api_pattern is Some),
{
    let mut r: Vec<StrategyKind> = Vec::new();
    if config.api_pattern.is_some() {
        r.push(StrategyKind::Api);
    }
    r.push(StrategyKind::RawGit);
    r.push(StrategyKind::HtmlScrape);
    proof {
        assert(r@ =~= strategies_for(config.api_pattern is Some));
    }
    r
}

} // verus!
