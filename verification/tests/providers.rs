use archive_list::factory::ProviderFactory;
use archive_list::provider::ProviderError;
use archive_list::strategy::{ApiStrategy, HtmlScrapeStrategy, RawGitStrategy, StrategyKind};

#[test]
fn test_provider_factory_creates_provider_for_known_domains() {
    let mut factory = ProviderFactory::new();

    let github_result = factory.get_provider(b"https://github.com/rust-lang/rust");
    assert!(github_result.is_ok(), "GitHub provider creation should succeed");

    let gitlab_result = factory.get_provider(b"https://gitlab.com/gitlab-org/gitlab");
    assert!(gitlab_result.is_ok(), "GitLab provider creation should succeed");

    let hf_result = factory.get_provider(b"https://huggingface.co/gpt2/model");
    assert!(hf_result.is_ok(), "HuggingFace provider creation should succeed");

    let codeberg_result = factory.get_provider(b"https://codeberg.org/user/repo");
    assert!(codeberg_result.is_ok(), "Codeberg provider creation should succeed");
}

#[test]
fn test_provider_caches_provider() {
    let mut factory = ProviderFactory::new();

    let provider1 = factory.get_provider(b"https://github.com/rust-lang/rust").unwrap();
    let provider2 = factory.get_provider(b"https://github.com/another/repo").unwrap();

    assert_eq!(
        factory.providers[provider1].1.domain, factory.providers[provider2].1.domain,
        "Cached providers should have same domain"
    );
    assert_eq!(provider1, provider2, "Should return same cached instance");
}

#[test]
fn test_unknown_domain_gets_synthesized_config() {
    let mut factory = ProviderFactory::new();

    let idx = factory
        .get_provider(b"https://unknown-domain.com/repo")
        .expect("unknown hosts get a default configuration, never an error");
    let provider = &factory.providers[idx].1;

    assert_eq!(provider.domain, b"unknown-domain.com".to_vec());
    assert_eq!(provider.config.env_var, b"UNKNOWN_DOMAIN_TOKEN".to_vec());
    assert!(provider.config.api_pattern.is_none());
}

#[test]
fn test_unparseable_url_is_rejected() {
    let mut factory = ProviderFactory::new();
    assert!(factory.get_provider(b"not a url at all").is_err());
}

#[test]
fn test_strategy_discovery_finds_working_strategy() {
    let mut factory = ProviderFactory::new();

    let idx = factory.get_provider(b"https://github.com/rust-lang/rust").unwrap();
    let provider = &mut factory.providers[idx].1;

    let result = provider.get_readme_url(b"https://github.com/rust-lang/rust");

    assert!(result.is_ok(), "Strategy discovery should find working strategy for GitHub");

    let readme_url = String::from_utf8(result.unwrap()).unwrap();
    assert!(
        readme_url.contains("api.github.com") || readme_url.contains("github.com"),
        "URL should be valid GitHub URL"
    );
}

#[test]
fn test_working_strategy_is_reused() {
    let mut factory = ProviderFactory::new();

    let idx = factory.get_provider(b"https://github.com/rust-lang/rust").unwrap();
    let provider = &mut factory.providers[idx].1;

    let _ = provider.get_readme_url(b"https://github.com/rust-lang/rust").unwrap();
    let cached = provider.working_strategy;
    assert_eq!(cached, Some(StrategyKind::Api));

    let result2 = provider.get_readme_url(b"https://github.com/rust-lang/cargo");

    assert!(result2.is_ok(), "Cached strategy should work for second call");
    assert_eq!(provider.working_strategy, cached);
}

#[test]
fn test_token_loading_from_env() {
    let mut factory = ProviderFactory::new();
    let idx = factory.get_provider(b"https://github.com/rust-lang/rust").unwrap();
    let provider = &mut factory.providers[idx].1;

    assert_eq!(provider.config.env_var, b"GITHUB_TOKEN".to_vec());
    provider.token_limiter.load_tokens(b"token1,token2,token3");

    assert_eq!(provider.token_limiter.token_count(), 3, "Should load 3 tokens");
    assert_eq!(
        provider.token_limiter.tokens[0].value,
        b"token1".to_vec(),
        "First token should be token1"
    );
    assert_eq!(
        provider.token_limiter.tokens[1].value,
        b"token2".to_vec(),
        "Second token should be token2"
    );
    assert_eq!(
        provider.token_limiter.tokens[2].value,
        b"token3".to_vec(),
        "Third token should be token3"
    );
}

#[test]
fn test_api_strategy_derives_url() {
    let s = ApiStrategy::new(b"/repos/{repo}/readme".to_vec());
    let url = s.get_readme_url(b"github.com", b"https://github.com/rust-lang/rust");
    assert_eq!(
        url,
        Some(b"https://github.com/repos/rust-lang/rust/readme".to_vec())
    );

    // too few path segments: no derivation
    assert_eq!(s.get_readme_url(b"github.com", b"https://github.com/"), None);
}

#[test]
fn test_rawgit_strategy_derives_master_url() {
    let s = RawGitStrategy;
    let url = s.get_readme_url(b"https://github.com/rust-lang/rust");
    assert_eq!(
        url,
        Some(b"https://raw.githubusercontent.com/rust-lang/rust/master/README.md".to_vec())
    );
}

#[test]
fn test_html_scrape_strategy() {
    let s = HtmlScrapeStrategy;
    assert_eq!(
        s.get_readme_url(b"https://example.org/x/y"),
        b"https://example.org/x/y".to_vec()
    );
    assert!(s.body_indicates_readme(b"<html>README.md listing</html>"));
    assert!(!s.body_indicates_readme(b"<html>nothing here</html>"));
}

#[test]
fn test_update_token_state_success_snapshot() {
    let now: i64 = 1_700_000_000;
    let mut factory = ProviderFactory::new();
    let idx = factory.get_provider(b"https://github.com/rust-lang/rust").unwrap();
    let provider = &mut factory.providers[idx].1;
    provider.token_limiter.load_tokens(b"tok");

    let headers = vec![
        (b"x-ratelimit-remaining".to_vec(), b"4999".to_vec()),
        (b"x-ratelimit-limit".to_vec(), b"5000".to_vec()),
        (b"x-ratelimit-reset".to_vec(), b"1704067200".to_vec()),
    ];
    let tok = b"tok".to_vec();
    let r = provider.update_token_state(200, &headers, Some(&tok), now);
    assert!(r.is_ok());
    assert_eq!(provider.token_limiter.tokens[0].valid, Some(true));
    assert_eq!(provider.token_limiter.tokens[0].remaining, Some(4999));
    assert_eq!(provider.token_limiter.tokens[0].limit, 5000);
    assert_eq!(provider.token_limiter.tokens[0].reset_at, Some(1704067200));
}

#[test]
fn test_update_token_state_unauthorized_marks_invalid() {
    let now: i64 = 1_700_000_000;
    let mut factory = ProviderFactory::new();
    let idx = factory.get_provider(b"https://github.com/rust-lang/rust").unwrap();
    let provider = &mut factory.providers[idx].1;
    provider.token_limiter.load_tokens(b"tok");

    let headers: Vec<(Vec<u8>, Vec<u8>)> = Vec::new();
    let tok = b"tok".to_vec();
    let r = provider.update_token_state(401, &headers, Some(&tok), now);
    assert!(r.is_ok());
    assert_eq!(provider.token_limiter.tokens[0].valid, Some(false));
    assert_eq!(provider.token_limiter.tokens[0].remaining, Some(0));
}

#[test]
fn test_update_token_state_rate_limited() {
    let now: i64 = 1_700_000_000;
    let mut factory = ProviderFactory::new();
    let idx = factory.get_provider(b"https://github.com/rust-lang/rust").unwrap();
    let provider = &mut factory.providers[idx].1;
    provider.token_limiter.load_tokens(b"tok");

    // 429 with no reset header: conservative one-minute backoff
    let headers: Vec<(Vec<u8>, Vec<u8>)> = Vec::new();
    let tok = b"tok".to_vec();
    let r = provider.update_token_state(429, &headers, Some(&tok), now);
    assert!(r.is_ok());
    assert_eq!(provider.token_limiter.tokens[0].valid, Some(true));
    assert_eq!(provider.token_limiter.tokens[0].remaining, Some(0));
    assert_eq!(provider.token_limiter.tokens[0].reset_at, Some(now + 60));
}

#[test]
fn test_update_token_state_malformed_headers() {
    let now: i64 = 1_700_000_000;
    let mut factory = ProviderFactory::new();
    let idx = factory.get_provider(b"https://github.com/rust-lang/rust").unwrap();
    let provider = &mut factory.providers[idx].1;
    provider.token_limiter.load_tokens(b"tok");

    let headers = vec![
        (b"x-ratelimit-remaining".to_vec(), b"many".to_vec()),
        (b"x-ratelimit-limit".to_vec(), b"5000".to_vec()),
    ];
    let tok = b"tok".to_vec();
    let r = provider.update_token_state(200, &headers, Some(&tok), now);
    assert_eq!(r, Err(ProviderError::HeaderParse));
    // the pool is untouched
    assert_eq!(provider.token_limiter.tokens[0].valid, None);
}

#[test]
fn test_unknown_host_falls_back_to_html_scrape() {
    let mut factory = ProviderFactory::new();
    // an unknown host has no API template, and a bare repo URL has too
    // few path segments for the raw-content tactic, so the HTML scrape
    // answers with the URL itself and becomes the working strategy
    let idx = factory.get_provider(b"https://unknown-domain.com/repo").unwrap();
    let provider = &mut factory.providers[idx].1;
    let r = provider.get_readme_url(b"https://unknown-domain.com/repo");
    assert_eq!(r, Ok(b"https://unknown-domain.com/repo".to_vec()));
    assert_eq!(provider.working_strategy, Some(StrategyKind::HtmlScrape));
}

#[test]
fn test_validation_urls() {
    let mut factory = ProviderFactory::new();
    let idx = factory.get_provider(b"https://github.com/a/b").unwrap();
    assert_eq!(
        factory.providers[idx].1.get_validation_url(),
        Some(b"https://api.github.com/user".to_vec())
    );
    let idx2 = factory.get_provider(b"https://unknown-domain.com/a/b").unwrap();
    assert_eq!(factory.providers[idx2].1.get_validation_url(), None);
}
