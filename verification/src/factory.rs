//! The process-wide provider cache: one `Provider` per hostname, built
//! on first sight from the domain registry (unknown hosts get a
//! synthesized configuration, never an error) and reused afterwards.
//! Callers hold providers by index into the cache.

use vstd::prelude::*;

use crate::domain::{
    config_for_host, config_for_host_spec, domain_table_views, known_domains_spec, DomainConfig,
};
use crate::provider::Provider;
use crate::strategy::{opt_bytes_view, strategies_for};

verus! {

/// Why a provider could not be produced for a URL.
#[derive(Debug, Clone, Copy, PartialEq, Eq, Structural)]
pub enum FactoryError {
    /// The URL does not parse, or has no host.
    InvalidUrl,
}

/// The hostname a URL names, if the URL parses and has one.
pub uninterp spec fn host_of(url: Seq<u8>) -> Option<Seq<u8>>;

/// Relies on url's `Url::parse` and `Url::host_str`: parsing is a
/// function of the input characters alone; the wrapper hands back the
/// host part, or nothing when the URL does not parse or has no host.
#[verifier::external_body]
fn url_host(url: &[u8]) -> (r: Option<Vec<u8>>)
    ensures
        (match r {
            Some(h) => Some(h@),
            None => None,
        }) == host_of(url@),
{
    match core::str::from_utf8(url) {
        Ok(s) => match url::Url::parse(s) {
            Ok(u) => match u.host_str() {
                Some(h) => Some(h.as_bytes().to_vec()),
                None => None,
            },
            Err(_) => None,
        },
        Err(_) => None,
    }
}

/// The provider cache and the domain registry it draws on.
#[derive(Debug)]
pub struct ProviderFactory {
    pub domains: Vec<(Vec<u8>, DomainConfig)>,
    pub providers: Vec<(Vec<u8>, Provider)>,
}

/// At most one cached provider per hostname.
pub open spec fn factory_wf(f: ProviderFactory) -> bool {
    forall|i: int, j: int|
        0 <= i < j < f.providers@.len() ==> (#[trigger] f.providers@[i]).0@ != (
        #[trigger] f.providers@[j]).0@
}

/// First cache entry for `host`, if any.
pub open spec fn find_provider(ps: Seq<(Vec<u8>, Provider)>, host: Seq<u8>) -> Option<int>
    decreases ps.len(),
{
    if ps.len() == 0 {
        None
    } else if ps[0].0@ == host {
        Some(0)
    } else {
        match find_provider(ps.drop_first(), host) {
            Some(i) => Some(i + 1),
            None => None,
        }
    }
}
proof fn lemma_find_provider_at(ps: Seq<(Vec<u8>, Provider)>, host: Seq<u8>, k: int)
    requires
        0 <= k < ps.len(),
        ps[k].0@ == host,
        forall|j: int| 0 <= j < k ==> ps[j].0@ != host,
    ensures
        find_provider(ps, host) == Some(k),
    decreases k,
{
    if k > 0 {
        let t = ps.drop_first();
        assert(forall|j: int| 0 <= j < t.len() ==> t[j] == ps[j + 1]);
        lemma_find_provider_at(t, host, k - 1);
    }
}

proof fn lemma_find_provider_none(ps: Seq<(Vec<u8>, Provider)>, host: Seq<u8>)
    requires
        forall|j: int| 0 <= j < ps.len() ==> (#[trigger] ps[j]).0@ != host,
    ensures
        find_provider(ps, host) is None,
    decreases ps.len(),
{
    if ps.len() > 0 {
        let t = ps.drop_first();
        assert(forall|j: int| 0 <= j < t.len() ==> t[j] == ps[j + 1]);
        lemma_find_provider_none(t, host);
    }
}

/// What one lookup leaves behind and hands out: either the index of the
/// already-cached provider with everything untouched, or a provider for
/// `host` built from the registry and appended at the returned index.
pub open spec fn lookup_post(
    f0: ProviderFactory,
    f1: ProviderFactory,
    host: Seq<u8>,
    idx: int,
) -> bool {
    match find_provider(f0.providers@, host) {
        Some(i) => idx == i && f1 == f0,
        None => {
            &&& idx == f0.providers@.len()
            &&& f1.domains == f0.domains
            &&& f1.providers@.len() == f0.providers@.len() + 1
            &&& forall|j: int|
                0 <= j < f0.providers@.len() ==> f1.providers@[j] == f0.providers@[j]
            &&& f1.providers@[idx].0@ == host
            &&& {
                let p = f1.providers@[idx].1;
                let cfg = config_for_host_spec(f0.domains@, host);
                &&& p.domain@ == host
                &&& crate::domain::config_view(p.config) == cfg
                &&& p.strategies@ == strategies_for(cfg.1 is Some)
                &&& p.working_strategy is None
                &&& p.token_limiter.tokens@.len() == 0
                &&& p.token_limiter.cursor == 0
                &&& p.token_limiter.env_var@ == cfg.0
                &&& p.requests_per_second == if cfg.1 is Some {
                    60u32
                } else {
                    10u32
                }
            }
        },
    }
}

impl ProviderFactory {
    /// A fresh cache over the static domain registry.
    pub fn new() -> (r: ProviderFactory)
        ensures
            domain_table_views(r.domains@) == known_domains_spec(),
            r.providers@.len() == 0,
            factory_wf(r),
    {
        ProviderFactory { domains: crate::domain::get_domain_configs(), providers: Vec::new() }
    }

    /// Returns the cached provider for `host`, creating and caching one
    /// on first sight; the result indexes into `providers`.
    #[verifier::loop_isolation(false)]
    pub fn get_provider_for_host(&mut self, host: Vec<u8>) -> (idx: usize)
        requires
            factory_wf(*old(self)),
        ensures
            factory_wf(*final(self)),
            idx < final(self).providers@.len(),
            lookup_post(*old(self), *final(self), host@, idx as int),
    {
        let n = self.providers.len();
        let mut i: usize = 0;
        while i < n
            invariant
                0 <= i <= n,
                n == self.providers@.len(),
                forall|j: int| 0 <= j < i ==> (#[trigger] self.providers@[j]).0@ != host@,
            decreases n - i,
        {
            if crate::bytes::bytes_eq(self.providers[i].0.as_slice(), host.as_slice()) {
                proof {
                    lemma_find_provider_at(self.providers@, host@, i as int);
                }
                return i;
            }
            i += 1;
        }
        proof {
            lemma_find_provider_none(self.providers@, host@);
        }
        let config = config_for_host(&self.domains, host.as_slice());
        let key = crate::bytes::slice_to_vec_u8(host.as_slice());
        let provider = Provider::new(host, config);
        let ghost before = self.providers@;
        self.providers.push((key, provider));
        proof {
            assert forall|a: int, b: int|
                0 <= a < b < self.providers@.len() implies (#[trigger] self.providers@[a]).0@ != (
            #[trigger] self.providers@[b]).0@ by {
                if b < before.len() {
                    assert(self.providers@[a] == before[a]);
                    assert(self.providers@[b] == before[b]);
                } else {
                    assert(self.providers@[a] == before[a]);
                    assert(self.providers@[b].0@ == host@);
                }
            }
        }
        n
    }

    /// Parses the hostname out of `url` and returns its provider,
    /// caching it on first sight.  Fails only for a URL that does not
    /// parse or has no host.
    pub fn get_provider(&mut self, url: &[u8]) -> (r: Result<usize, FactoryError>)
        requires
            factory_wf(*old(self)),
        ensures
            factory_wf(*final(self)),
            match host_of(url@) {
                None => r == Err::<usize, FactoryError>(FactoryError::InvalidUrl) && *final(self)
                    == *old(self),
                Some(h) => r matches Ok(idx) && idx < final(self).providers@.len() && lookup_post(
                    *old(self),
                    *final(self),
                    h,
                    idx as int,
                ),
            },
    {
        match url_host(url) {
            Some(host) => Ok(self.get_provider_for_host(host)),
            None => Err(FactoryError::InvalidUrl),
        }
    }
}

impl Default for ProviderFactory {
    /// The same fresh cache `new` builds.
    fn default() -> (r: ProviderFactory)
        ensures
            domain_table_views(r.domains@) == known_domains_spec(),
            r.providers@.len() == 0,
            factory_wf(r),
    {
        ProviderFactory::new()
    }
}

} // verus!
