//! Per-host configuration: the credential environment variable, the
//! optional API URL template, and the header spellings the host uses for
//! its quota fields.  Known hosts come from a small static table;
//! unknown hosts get a synthesized default.

use vstd::prelude::*;
use vstd::string::*;

use crate::bytes::{append_bytes, bytes_eq, first_byte, slice_to_vec_u8};

verus! {

/// How a host writes its quota-reset header value.
#[derive(Debug, Clone, Copy, PartialEq, Eq, Structural)]
pub enum TimestampFormat {
    UnixEpoch,
    Iso8601,
}

/// The header names one host uses for its quota fields.
#[derive(Debug)]
pub struct RateLimitHeaders {
    pub remaining: Vec<u8>,
    pub limit: Vec<u8>,
    pub reset: Vec<u8>,
    pub format: TimestampFormat,
}

/// One host's configuration.  The API pattern, when present, holds a
/// `{repo}` placeholder for the owner/repo path.
#[derive(Debug)]
pub struct DomainConfig {
    pub env_var: Vec<u8>,
    pub api_pattern: Option<Vec<u8>>,
    pub rate_limit_headers: RateLimitHeaders,
}

/// The plain-value content of a configuration: environment variable,
/// API pattern, the three header names, and the timestamp format.
pub open spec fn config_view(c: DomainConfig) -> (
    Seq<u8>,
    Option<Seq<u8>>,
    Seq<u8>,
    Seq<u8>,
    Seq<u8>,
    TimestampFormat,
) {
    (
        c.env_var@,
        match c.api_pattern {
            Some(p) => Some(p@),
            None => None,
        },
        c.rate_limit_headers.remaining@,
        c.rate_limit_headers.limit@,
        c.rate_limit_headers.reset@,
        c.rate_limit_headers.format,
    )
}

/// Copies a configuration.
pub fn clone_config(c: &DomainConfig) -> (r: DomainConfig)
    ensures
        config_view(r) == config_view(*c),
{
    DomainConfig {
        env_var: slice_to_vec_u8(c.env_var.as_slice()),
        api_pattern: match &c.api_pattern {
            Some(p) => Some(slice_to_vec_u8(p.as_slice())),
            None => None,
        },
        rate_limit_headers: RateLimitHeaders {
            remaining: slice_to_vec_u8(c.rate_limit_headers.remaining.as_slice()),
            limit: slice_to_vec_u8(c.rate_limit_headers.limit.as_slice()),
            reset: slice_to_vec_u8(c.rate_limit_headers.reset.as_slice()),
            format: c.rate_limit_headers.format,
        },
    }
}

pub open spec fn github_config_view() -> (
    Seq<u8>,
    Option<Seq<u8>>,
    Seq<u8>,
    Seq<u8>,
    Seq<u8>,
    TimestampFormat,
) {
    (
        "GITHUB_TOKEN".spec_bytes(),
        Some("/repos/{repo}/readme".spec_bytes()),
        "x-ratelimit-remaining".spec_bytes(),
        "x-ratelimit-limit".spec_bytes(),
        "x-ratelimit-reset".spec_bytes(),
        TimestampFormat::UnixEpoch,
    )
}

pub open spec fn gitlab_config_view() -> (
    Seq<u8>,
    Option<Seq<u8>>,
    Seq<u8>,
    Seq<u8>,
    Seq<u8>,
    TimestampFormat,
) {
    (
        "GITLAB_TOKEN".spec_bytes(),
        Some("/api/v4/projects/{encoded_repo}/repository/files/README.md/raw".spec_bytes()),
        "RateLimit-Remaining".spec_bytes(),
        "RateLimit-Limit".spec_bytes(),
        "RateLimit-Reset".spec_bytes(),
        TimestampFormat::UnixEpoch,
    )
}

pub open spec fn huggingface_config_view() -> (
    Seq<u8>,
    Option<Seq<u8>>,
    Seq<u8>,
    Seq<u8>,
    Seq<u8>,
    TimestampFormat,
) {
    (
        "HUGGINGFACE_TOKEN".spec_bytes(),
        None,
        "X-RateLimit-Remaining".spec_bytes(),
        "X-RateLimit-Limit".spec_bytes(),
        "X-RateLimit-Reset".spec_bytes(),
        TimestampFormat::UnixEpoch,
    )
}

pub open spec fn codeberg_config_view() -> (
    Seq<u8>,
    Option<Seq<u8>>,
    Seq<u8>,
    Seq<u8>,
    Seq<u8>,
    TimestampFormat,
) {
    (
        "CODEBERG_TOKEN".spec_bytes(),
        Some("/api/v1/repos/{repo}/readme".spec_bytes()),
        "RateLimit-Remaining".spec_bytes(),
        "RateLimit-Limit".spec_bytes(),
        "RateLimit-Reset".spec_bytes(),
        TimestampFormat::UnixEpoch,
    )
}

/// The static table of known hosts, in a fixed order.
pub open spec fn known_domains_spec() -> Seq<
    (Seq<u8>, (Seq<u8>, Option<Seq<u8>>, Seq<u8>, Seq<u8>, Seq<u8>, TimestampFormat)),
> {
    seq![
        ("github.com".spec_bytes(), github_config_view()),
        ("gitlab.com".spec_bytes(), gitlab_config_view()),
        ("huggingface.co".spec_bytes(), huggingface_config_view()),
        ("codeberg.org".spec_bytes(), codeberg_config_view()),
    ]
}

/// The views of a domain table.
pub open spec fn domain_table_views(ds: Seq<(Vec<u8>, DomainConfig)>) -> Seq<
    (Seq<u8>, (Seq<u8>, Option<Seq<u8>>, Seq<u8>, Seq<u8>, Seq<u8>, TimestampFormat)),
> {
    ds.map_values(|e: (Vec<u8>, DomainConfig)| (e.0@, config_view(e.1)))
}

/// The configurations of the known hosts, in a fixed order.
pub fn get_domain_configs() -> (r: Vec<(Vec<u8>, DomainConfig)>)
    ensures
        domain_table_views(r@) == known_domains_spec(),
{
    let mut r: Vec<(Vec<u8>, DomainConfig)> = Vec::new();
    r.push(
        (
            "github.com".as_bytes_vec(),
            DomainConfig {
                env_var: "GITHUB_TOKEN".as_bytes_vec(),
                api_pattern: Some("/repos/{repo}/readme".as_bytes_vec()),
                rate_limit_headers: RateLimitHeaders {
                    remaining: "x-ratelimit-remaining".as_bytes_vec(),
                    limit: "x-ratelimit-limit".as_bytes_vec(),
                    reset: "x-ratelimit-reset".as_bytes_vec(),
                    format: TimestampFormat::UnixEpoch,
                },
            },
        ),
    );
    r.push(
        (
            "gitlab.com".as_bytes_vec(),
            DomainConfig {
                env_var: "GITLAB_TOKEN".as_bytes_vec(),
                api_pattern: Some(
                    "/api/v4/projects/{encoded_repo}/repository/files/README.md/raw".as_bytes_vec(),
                ),
                rate_limit_headers: RateLimitHeaders {
                    remaining: "RateLimit-Remaining".as_bytes_vec(),
                    limit: "RateLimit-Limit".as_bytes_vec(),
                    reset: "RateLimit-Reset".as_bytes_vec(),
                    format: TimestampFormat::UnixEpoch,
                },
            },
        ),
    );
    r.push(
        (
            "huggingface.co".as_bytes_vec(),
            DomainConfig {
                env_var: "HUGGINGFACE_TOKEN".as_bytes_vec(),
                api_pattern: None,
                rate_limit_headers: RateLimitHeaders {
                    remaining: "X-RateLimit-Remaining".as_bytes_vec(),
                    limit: "X-RateLimit-Limit".as_bytes_vec(),
                    reset: "X-RateLimit-Reset".as_bytes_vec(),
                    format: TimestampFormat::UnixEpoch,
                },
            },
        ),
    );
    r.push(
        (
            "codeberg.org".as_bytes_vec(),
            DomainConfig {
                env_var: "CODEBERG_TOKEN".as_bytes_vec(),
                api_pattern: Some("/api/v1/repos/{repo}/readme".as_bytes_vec()),
                rate_limit_headers: RateLimitHeaders {
                    remaining: "RateLimit-Remaining".as_bytes_vec(),
                    limit: "RateLimit-Limit".as_bytes_vec(),
                    reset: "RateLimit-Reset".as_bytes_vec(),
                    format: TimestampFormat::UnixEpoch,
                },
            },
        ),
    );
    proof {
        assert(domain_table_views(r@) =~= known_domains_spec());
    }
    r
}

/// How an environment-variable byte is derived from a hostname byte:
/// letters are uppercased and hyphens become underscores, so the name
/// stays a well-formed variable name.
pub open spec fn env_byte(b: u8) -> u8 {
    if 97 <= b <= 122 {
        (b - 32) as u8
    } else if b == 45 {
        95u8
    } else {
        b
    }
}

/// The hostname's first label: everything before the first dot.
pub open spec fn first_label(host: Seq<u8>) -> Seq<u8> {
    match first_byte(host, 46) {
        Some(i) => host.subrange(0, i),
        None => host,
    }
}

/// The synthesized environment-variable name for an unknown host: its
/// first label, uppercased, suffixed with `_TOKEN`.
pub open spec fn default_env_var(host: Seq<u8>) -> Seq<u8> {
    first_label(host).map_values(|b: u8| env_byte(b)) + "_TOKEN".spec_bytes()
}

/// The synthesized configuration of an unknown host: the derived
/// environment variable, no API template (so only the raw-content and
/// HTML-scrape strategies apply), and the common `x-ratelimit-*` header
/// spellings with Unix-second reset times.
pub open spec fn default_config_view(host: Seq<u8>) -> (
    Seq<u8>,
    Option<Seq<u8>>,
    Seq<u8>,
    Seq<u8>,
    Seq<u8>,
    TimestampFormat,
) {
    (
        default_env_var(host),
        None,
        "x-ratelimit-remaining".spec_bytes(),
        "x-ratelimit-limit".spec_bytes(),
        "x-ratelimit-reset".spec_bytes(),
        TimestampFormat::UnixEpoch,
    )
}

#[verifier::loop_isolation(false)]
fn derive_env_var(host: &[u8]) -> (r: Vec<u8>)
    ensures
        r@ == default_env_var(host@),
{
    let n = host.len();
    let mut end: usize = 0;
    while end < n && host[end] != 46
        invariant
            0 <= end <= n,
            n == host@.len(),
            forall|j: int| 0 <= j < end ==> host@[j] != 46,
        decreases n - end,
    {
        end += 1;
    }
    proof {
        if end < n {
            crate::bytes::lemma_first_byte_at(host@, 46, end as int);
        } else {
            crate::bytes::lemma_first_byte_none(host@, 46);
            assert(host@.subrange(0, n as int) =~= host@);
        }
    }
    let mut r: Vec<u8> = Vec::new();
    let mut i: usize = 0;
    while i < end
        invariant
            0 <= i <= end <= n,
            n == host@.len(),
            r@.len() == i,
            forall|j: int| 0 <= j < i ==> r@[j] == env_byte(host@[j]),
        decreases end - i,
    {
        let b = host[i];
        let c = if 97 <= b && b <= 122 {
            b - 32
        } else if b == 45 {
            95
        } else {
            b
        };
        r.push(c);
        i += 1;
    }
    proof {
        assert(r@ =~= first_label(host@).map_values(|b: u8| env_byte(b)));
    }
    append_bytes(&mut r, "_TOKEN".as_bytes());
    r
}

/// First table entry whose hostname equals `host`, if any.
pub open spec fn find_domain(ds: Seq<(Vec<u8>, DomainConfig)>, host: Seq<u8>) -> Option<int>
    decreases ds.len(),
{
    if ds.len() == 0 {
        None
    } else if ds[0].0@ == host {
        Some(0)
    } else {
        match find_domain(ds.drop_first(), host) {
            Some(i) => Some(i + 1),
            None => None,
        }
    }
}
/// What the registry answers for a host: the table entry when the host
/// is known, the synthesized default otherwise — never an error.
pub open spec fn config_for_host_spec(ds: Seq<(Vec<u8>, DomainConfig)>, host: Seq<u8>) -> (
    Seq<u8>,
    Option<Seq<u8>>,
    Seq<u8>,
    Seq<u8>,
    Seq<u8>,
    TimestampFormat,
) {
    match find_domain(ds, host) {
        Some(i) => config_view(ds[i].1),
        None => default_config_view(host),
    }
}

/// Looks a host up in the table, synthesizing a default configuration
/// for an unknown host.
#[verifier::loop_isolation(false)]
pub fn config_for_host(domains: &Vec<(Vec<u8>, DomainConfig)>, host: &[u8]) -> (r: DomainConfig)
    ensures
        config_view(r) == config_for_host_spec(domains@, host@),
{
    let n = domains.len();
    let mut i: usize = 0;
    while i < n
        invariant
            0 <= i <= n,
            n == domains@.len(),
            forall|j: int| 0 <= j < i ==> (#[trigger] domains@[j]).0@ != host@,
        decreases n - i,
    {
        if bytes_eq(domains[i].0.as_slice(), host) {
            proof {
                lemma_find_domain_at(domains@, host@, i as int);
            }
            return clone_config(&domains[i].1);
        }
        i += 1;
    }
    proof {
        lemma_find_domain_none(domains@, host@);
    }
    let env_var = derive_env_var(host);
    DomainConfig {
        env_var,
        api_pattern: None,
        rate_limit_headers: RateLimitHeaders {
            remaining: "x-ratelimit-remaining".as_bytes_vec(),
            limit: "x-ratelimit-limit".as_bytes_vec(),
            reset: "x-ratelimit-reset".as_bytes_vec(),
            format: TimestampFormat::UnixEpoch,
        },
    }
}

proof fn lemma_find_domain_at(ds: Seq<(Vec<u8>, DomainConfig)>, host: Seq<u8>, k: int)
    requires
        0 <= k < ds.len(),
        ds[k].0@ == host,
        forall|j: int| 0 <= j < k ==> ds[j].0@ != host,
    ensures
        find_domain(ds, host) == Some(k),
    decreases k,
{
    if k > 0 {
        let t = ds.drop_first();
        assert(forall|j: int| 0 <= j < t.len() ==> t[j] == ds[j + 1]);
        lemma_find_domain_at(t, host, k - 1);
    }
}

proof fn lemma_find_domain_none(ds: Seq<(Vec<u8>, DomainConfig)>, host: Seq<u8>)
    requires
        forall|j: int| 0 <= j < ds.len() ==> (#[trigger] ds[j]).0@ != host,
    ensures
        find_domain(ds, host) is None,
    decreases ds.len(),
{
    if ds.len() > 0 {
        let t = ds.drop_first();
        assert(forall|j: int| 0 <= j < t.len() ==> t[j] == ds[j + 1]);
        lemma_find_domain_none(t, host);
    }
}

} // verus!
