//! The per-domain orchestrator: resolves a README URL through the
//! strategy chain (remembering the last strategy that worked), selects
//! credentials from its token pool, and books quota state from each
//! response's status and headers.  The HTTP calls themselves happen
//! outside; the functions here decide and record.

use vstd::prelude::*;
use vstd::string::*;

use crate::bytes::{bytes_eq, parse_i64_spec, parse_u32_spec, slice_to_vec_u8};
use crate::domain::{config_view, DomainConfig, TimestampFormat};
use crate::headers::{find_header, find_header_spec, header_views, rfc3339_secs};
use crate::strategy::{
    create_strategies, derive_url, derive_url_spec, opt_bytes_view, strategies_for, StrategyKind,
};
use crate::token::{
    pool_after_invalid, pool_after_rate_limit, pool_after_update, TokenRateLimiter,
};

verus! {

/// What can go wrong inside the orchestrator's own decisions.
#[derive(Debug, Clone, Copy, PartialEq, Eq, Structural)]
pub enum ProviderError {
    /// Every strategy's derivation came up empty for the URL.
    StrategyExhausted,
    /// The response carried quota headers that do not parse.
    HeaderParse,
}

/// One domain's orchestrator.
#[derive(Debug)]
pub struct Provider {
    pub domain: Vec<u8>,
    pub config: DomainConfig,
    pub strategies: Vec<StrategyKind>,
    pub working_strategy: Option<StrategyKind>,
    pub token_limiter: TokenRateLimiter,
    pub requests_per_second: u32,
}

/// The domain's API template as a plain value.
pub open spec fn api_pattern_view(c: DomainConfig) -> Option<Seq<u8>> {
    match c.api_pattern {
        Some(p) => Some(p@),
        None => None,
    }
}

impl Provider {
    /// Builds a provider for one domain: the strategy chain from the
    /// configuration, an empty token pool on the domain's environment
    /// variable, and a request-rate budget that is higher for API-backed
    /// domains.
    pub fn new(domain: Vec<u8>, config: DomainConfig) -> (r: Provider)
        ensures
            r.domain@ == domain@,
            config_view(r.config) == config_view(config),
            r.strategies@ == strategies_for(config.api_pattern is Some),
            r.working_strategy is None,
            r.token_limiter.tokens@.len() == 0,
            r.token_limiter.cursor == 0,
            r.token_limiter.env_var@ == config.env_var@,
            r.requests_per_second == if config.api_pattern is Some {
                60u32
            } else {
                10u32
            },
    {
        let strategies = create_strategies(&config);
        let requests_per_second = if config.api_pattern.is_some() {
            60
        } else {
            10
        };
        let token_limiter = TokenRateLimiter::new(slice_to_vec_u8(config.env_var.as_slice()));
        Provider {
            domain,
            config,
            strategies,
            working_strategy: None,
            token_limiter,
            requests_per_second,
        }
    }
}

/// Index of the first strategy in the chain whose derivation succeeds,
/// at position `k` or beyond.
pub open spec fn first_deriving(
    chain: Seq<StrategyKind>,
    pat: Option<Seq<u8>>,
    domain: Seq<u8>,
    url: Seq<u8>,
    k: int,
) -> Option<int>
    decreases chain.len() - k,
{
    if k < 0 || k >= chain.len() {
        None
    } else if derive_url_spec(chain[k], pat, domain, url) is Some {
        Some(k)
    } else {
        first_deriving(chain, pat, domain, url, k + 1)
    }
}

pub proof fn lemma_first_deriving_props(
    chain: Seq<StrategyKind>,
    pat: Option<Seq<u8>>,
    domain: Seq<u8>,
    url: Seq<u8>,
    k: int,
)
    ensures
        first_deriving(chain, pat, domain, url, k) matches Some(j) ==> k <= j < chain.len()
            && derive_url_spec(chain[j], pat, domain, url) is Some,
    decreases chain.len() - k,
{
    if k < 0 || k >= chain.len() {
    } else if derive_url_spec(chain[k], pat, domain, url) is Some {
    } else {
        lemma_first_deriving_props(chain, pat, domain, url, k + 1);
    }
}

/// What falling back to the full chain yields.
pub open spec fn fallback_result(p: Provider, url: Seq<u8>) -> Option<Seq<u8>> {
    match first_deriving(p.strategies@, api_pattern_view(p.config), p.domain@, url, 0) {
        Some(k) => derive_url_spec(p.strategies@[k], api_pattern_view(p.config), p.domain@, url),
        None => None,
    }
}

/// The working-strategy slot after falling back to the full chain: set
/// to the first deriving strategy on success, untouched on failure.
pub open spec fn fallback_working(p: Provider, url: Seq<u8>) -> Option<StrategyKind> {
    match first_deriving(p.strategies@, api_pattern_view(p.config), p.domain@, url, 0) {
        Some(k) => Some(p.strategies@[k]),
        None => p.working_strategy,
    }
}

/// What a resolution returns: the cached working strategy's derivation
/// when it succeeds, else the first success along the full chain.
pub open spec fn resolve_result(p: Provider, url: Seq<u8>) -> Option<Seq<u8>> {
    match p.working_strategy {
        Some(s) => {
            if derive_url_spec(s, api_pattern_view(p.config), p.domain@, url) is Some {
                derive_url_spec(s, api_pattern_view(p.config), p.domain@, url)
            } else {
                fallback_result(p, url)
            }
        },
        None => fallback_result(p, url),
    }
}

/// Where the working-strategy slot stands after a resolution.
pub open spec fn resolve_working(p: Provider, url: Seq<u8>) -> Option<StrategyKind> {
    match p.working_strategy {
        Some(s) => {
            if derive_url_spec(s, api_pattern_view(p.config), p.domain@, url) is Some {
                Some(s)
            } else {
                fallback_working(p, url)
            }
        },
        None => fallback_working(p, url),
    }
}

impl Provider {
    /// Resolves the README URL for `url`: the cached working strategy is
    /// tried first and answers alone when it derives; otherwise the full
    /// chain is walked in priority order and the first success is cached
    /// as the new working strategy.  Fails only when every derivation
    /// comes up empty.
    #[verifier::loop_isolation(false)]
    pub fn get_readme_url(&mut self, url: &[u8]) -> (r: Result<Vec<u8>, ProviderError>)
        ensures
            final(self).domain == old(self).domain,
            final(self).config == old(self).config,
            final(self).strategies == old(self).strategies,
            final(self).token_limiter == old(self).token_limiter,
            final(self).requests_per_second == old(self).requests_per_second,
            (match r {
                Ok(v) => Some(v@),
                Err(_) => None,
            }) == resolve_result(*old(self), url@),
            final(self).working_strategy == resolve_working(*old(self), url@),
            r is Err ==> r == Err::<Vec<u8>, ProviderError>(ProviderError::StrategyExhausted),
    {
        let ghost p0 = *self;
        match self.working_strategy {
            Some(s) => {
                match derive_url(s, &self.config.api_pattern, self.domain.as_slice(), url) {
                    Some(u) => {
                        return Ok(u);
                    },
                    None => {},
                }
            },
            None => {},
        }
        let n = self.strategies.len();
        let ghost chain = self.strategies@;
        let ghost pat = api_pattern_view(self.config);
        let mut k: usize = 0;
        while k < n
            invariant
                0 <= k <= n,
                n == chain.len(),
                *self == p0,
                chain == self.strategies@,
                pat == api_pattern_view(self.config),
                first_deriving(chain, pat, p0.domain@, url@, 0) == first_deriving(
                    chain,
                    pat,
                    p0.domain@,
                    url@,
                    k as int,
                ),
            decreases n - k,
        {
            match derive_url(
                self.strategies[k],
                &self.config.api_pattern,
                self.domain.as_slice(),
                url,
            ) {
                Some(u) => {
                    self.working_strategy = Some(self.strategies[k]);
                    proof {
                        assert(first_deriving(chain, pat, p0.domain@, url@, k as int) == Some(
                            k as int,
                        ));
                    }
                    return Ok(u);
                },
                None => {},
            }
            k += 1;
        }
        assert(first_deriving(chain, pat, p0.domain@, url@, 0) is None);
        Err(ProviderError::StrategyExhausted)
    }

    /// Whether the token pool still has to be filled from the
    /// environment.
    pub fn needs_token_load(&self) -> (r: bool)
        ensures
            r == (self.token_limiter.tokens@.len() == 0),
    {
        self.token_limiter.token_count() == 0
    }

    /// The strategy a fetch will use: the cached working strategy when
    /// set, else the chain's first entry.
    pub fn active_strategy(&self) -> (r: Option<StrategyKind>)
        ensures
            r == (match self.working_strategy {
                Some(s) => Some(s),
                None => {
                    if self.strategies@.len() > 0 {
                        Some(self.strategies@[0])
                    } else {
                        None::<StrategyKind>
                    }
                },
            }),
    {
        match self.working_strategy {
            Some(s) => Some(s),
            None => {
                if self.strategies.len() > 0 {
                    Some(self.strategies[0])
                } else {
                    None
                }
            },
        }
    }

}

/// What the validation endpoint for a domain is, where one is known: a
/// cheap authenticated "who am I" request used to probe each token.
pub open spec fn validation_url_spec(domain: Seq<u8>) -> Option<Seq<u8>> {
    if domain == "github.com".spec_bytes() {
        Some("https://api.github.com/user".spec_bytes())
    } else if domain == "gitlab.com".spec_bytes() {
        Some("https://gitlab.com/api/v4/user".spec_bytes())
    } else if domain == "codeberg.org".spec_bytes() {
        Some("https://codeberg.org/api/v1/user".spec_bytes())
    } else if domain == "huggingface.co".spec_bytes() {
        Some("https://huggingface.co/api/whoami".spec_bytes())
    } else {
        None
    }
}

impl Provider {
    /// The domain's token-validation endpoint, where one is known.
    pub fn get_validation_url(&self) -> (r: Option<Vec<u8>>)
        ensures
            opt_bytes_view(r) == validation_url_spec(self.domain@),
    {
        if bytes_eq(self.domain.as_slice(), "github.com".as_bytes()) {
            Some("https://api.github.com/user".as_bytes_vec())
        } else if bytes_eq(self.domain.as_slice(), "gitlab.com".as_bytes()) {
            Some("https://gitlab.com/api/v4/user".as_bytes_vec())
        } else if bytes_eq(self.domain.as_slice(), "codeberg.org".as_bytes()) {
            Some("https://codeberg.org/api/v1/user".as_bytes_vec())
        } else if bytes_eq(self.domain.as_slice(), "huggingface.co".as_bytes()) {
            Some("https://huggingface.co/api/whoami".as_bytes_vec())
        } else {
            None
        }
    }
}

/// The reset timestamp a header value denotes under the domain's
/// configured format: Unix-second integers, or RFC 3339 text.
pub open spec fn reset_ts_spec(v: Seq<u8>, format: TimestampFormat) -> Option<i64> {
    match format {
        TimestampFormat::UnixEpoch => parse_i64_spec(v),
        TimestampFormat::Iso8601 => rfc3339_secs(v),
    }
}

/// The token pool after the bookkeeping for one response with `status`
/// and headers `hv`, used by a request that carried the token named
/// `tok`: a parsable quota snapshot is recorded first; then a 401 marks
/// the token invalid, and a 429 — or a 403 beside a reset header —
/// marks it rate-limited.
pub open spec fn pool_after_response(
    ts: Seq<crate::token::Token>,
    c: DomainConfig,
    status: u16,
    hv: Seq<(Seq<u8>, Seq<u8>)>,
    tok: Seq<u8>,
    now: i64,
) -> Seq<crate::token::Token> {
    let rem_s = find_header_spec(hv, c.rate_limit_headers.remaining@);
    let lim_s = find_header_spec(hv, c.rate_limit_headers.limit@);
    let rst_s = find_header_spec(hv, c.rate_limit_headers.reset@);
    let after_update = if rem_s is Some && lim_s is Some {
        pool_after_update(
            ts,
            tok,
            parse_u32_spec(rem_s->Some_0)->Some_0,
            parse_u32_spec(lim_s->Some_0)->Some_0,
            match rst_s {
                Some(v) => Some(reset_ts_spec(v, c.rate_limit_headers.format)->Some_0),
                None => None,
            },
        )
    } else {
        ts
    };
    if status == 401 {
        pool_after_invalid(after_update, tok)
    } else if status == 429 || (status == 403 && rst_s is Some) {
        pool_after_rate_limit(
            after_update,
            tok,
            match rst_s {
                Some(v) => reset_ts_spec(v, c.rate_limit_headers.format),
                None => None,
            },
            now,
        )
    } else {
        after_update
    }
}

/// Whether the bookkeeping for a response fails: quota headers are
/// present but the remaining or limit count, or a present reset value,
/// does not parse.
pub open spec fn response_headers_malformed(
    c: DomainConfig,
    hv: Seq<(Seq<u8>, Seq<u8>)>,
) -> bool {
    let rem_s = find_header_spec(hv, c.rate_limit_headers.remaining@);
    let lim_s = find_header_spec(hv, c.rate_limit_headers.limit@);
    let rst_s = find_header_spec(hv, c.rate_limit_headers.reset@);
    rem_s is Some && lim_s is Some && (parse_u32_spec(rem_s->Some_0) is None || parse_u32_spec(
        lim_s->Some_0,
    ) is None || (rst_s matches Some(v) && reset_ts_spec(v, c.rate_limit_headers.format) is None))
}

impl Provider {
    /// Books one response's outcome into the token pool.  With no token
    /// on the request nothing changes; otherwise a parsable quota
    /// snapshot is recorded, a 401 marks the token invalid, and a 429 —
    /// or a 403 beside a reset header — marks it rate-limited with the
    /// detected reset time.  Fails only when quota headers are present
    /// but malformed, leaving the pool untouched.
    pub fn update_token_state(
        &mut self,
        status: u16,
        headers: &Vec<(Vec<u8>, Vec<u8>)>,
        token: Option<&Vec<u8>>,
        now: i64,
    ) -> (r: Result<(), ProviderError>)
        requires
            now <= i64::MAX - 60,
        ensures
            final(self).domain == old(self).domain,
            final(self).config == old(self).config,
            final(self).strategies == old(self).strategies,
            final(self).working_strategy == old(self).working_strategy,
            final(self).requests_per_second == old(self).requests_per_second,
            final(self).token_limiter.cursor == old(self).token_limiter.cursor,
            final(self).token_limiter.env_var@ == old(self).token_limiter.env_var@,
            match token {
                None => r is Ok && final(self).token_limiter.tokens@ == old(self).token_limiter.tokens@,
                Some(tok) => {
                    if response_headers_malformed(old(self).config, header_views(headers@)) {
                        r == Err::<(), ProviderError>(ProviderError::HeaderParse) && final(self).token_limiter.tokens@ == old(self).token_limiter.tokens@
                    } else {
                        r is Ok && final(self).token_limiter.tokens@ == pool_after_response(
                            old(self).token_limiter.tokens@,
                            old(self).config,
                            status,
                            header_views(headers@),
                            tok@,
                            now,
                        )
                    }
                },
            },
    {
        let token_value = match token {
            Some(t) => t,
            None => {
                return Ok(());
            },
        };
        let rem_s = find_header(headers, self.config.rate_limit_headers.remaining.as_slice());
        let lim_s = find_header(headers, self.config.rate_limit_headers.limit.as_slice());
        let rst_s = find_header(headers, self.config.rate_limit_headers.reset.as_slice());
        let mut reset_parsed: Option<i64> = None;
        if rem_s.is_some() && lim_s.is_some() {
            let rem = match crate::bytes::parse_u32(rem_s.as_ref().unwrap().as_slice()) {
                Some(x) => x,
                None => {
                    return Err(ProviderError::HeaderParse);
                },
            };
            let lim = match crate::bytes::parse_u32(lim_s.as_ref().unwrap().as_slice()) {
                Some(x) => x,
                None => {
                    return Err(ProviderError::HeaderParse);
                },
            };
            match &rst_s {
                Some(v) => {
                    match self.parse_reset_ts(v.as_slice()) {
                        Some(t) => {
                            reset_parsed = Some(t);
                        },
                        None => {
                            return Err(ProviderError::HeaderParse);
                        },
                    }
                },
                None => {},
            }
            self.token_limiter.update_token(token_value.as_slice(), rem, lim, reset_parsed);
        } else {
            match &rst_s {
                Some(v) => {
                    reset_parsed = self.parse_reset_ts(v.as_slice());
                },
                None => {},
            }
        }
        if status == 401 {
            self.token_limiter.mark_invalid(token_value.as_slice());
        } else if status == 429 || (status == 403 && rst_s.is_some()) {
            self.token_limiter.mark_rate_limited(token_value.as_slice(), reset_parsed, now);
        }
        Ok(())
    }

    /// Reads a reset header value under the domain's configured format.
    fn parse_reset_ts(&self, v: &[u8]) -> (r: Option<i64>)
        ensures
            r == reset_ts_spec(v@, self.config.rate_limit_headers.format),
    {
        match self.config.rate_limit_headers.format {
            TimestampFormat::UnixEpoch => crate::bytes::parse_i64(v),
            TimestampFormat::Iso8601 => crate::headers::parse_rfc3339(v),
        }
    }
}

/// Once a resolution has succeeded, the strategy it went through is
/// cached, and a later call for any URL that this strategy can derive
/// answers through it directly — the cached strategy is tried before
/// any other, and the cache is kept.
pub proof fn lemma_working_strategy_reused(p: Provider, url1: Seq<u8>, url2: Seq<u8>)
    requires
        resolve_result(p, url1) is Some,
    ensures
        resolve_working(p, url1) is Some,
        ({
            let p2 = Provider { working_strategy: resolve_working(p, url1), ..p };
            match resolve_working(p, url1) {
                Some(s) => derive_url_spec(s, api_pattern_view(p.config), p.domain@, url2)
                    matches Some(u) ==> resolve_result(p2, url2) == Some(u) && resolve_working(
                    p2,
                    url2,
                ) == Some(s),
                None => true,
            }
        }),
{
    match p.working_strategy {
        Some(s) => {
            if derive_url_spec(s, api_pattern_view(p.config), p.domain@, url1) is Some {
            } else {
                lemma_first_deriving_props(
                    p.strategies@,
                    api_pattern_view(p.config),
                    p.domain@,
                    url1,
                    0,
                );
            }
        },
        None => {
            lemma_first_deriving_props(
                p.strategies@,
                api_pattern_view(p.config),
                p.domain@,
                url1,
                0,
            );
        },
    }
}

} // verus!
