use archive_list::token::{Token, TokenRateLimiter};

#[test]
fn test_token_creation() {
    let token = Token::new(b"test_token".to_vec());

    assert_eq!(token.value, b"test_token".to_vec());
    assert_eq!(token.valid, None);
    assert_eq!(token.remaining, None);
    assert_eq!(token.limit, 0);
    assert_eq!(token.reset_at, None);
}

#[test]
fn test_token_is_available() {
    let mut token = Token::new(b"test_token".to_vec());

    // Uninitialized token is not available
    assert!(!token.is_available());

    // Valid token with no remaining info is available
    token.valid = Some(true);
    assert!(token.is_available());

    // Valid token with remaining > 0 is available
    token.remaining = Some(10);
    assert!(token.is_available());

    // Valid token with remaining = 0 is not available
    token.remaining = Some(0);
    assert!(!token.is_available());

    // Invalid token is not available
    token.valid = Some(false);
    token.remaining = Some(10);
    assert!(!token.is_available());
}

#[test]
fn test_rate_limiter_loads_tokens() {
    let mut limiter = TokenRateLimiter::new(b"TEST_TOKEN".to_vec());
    limiter.load_tokens(b"token1,token2,token3");

    assert_eq!(limiter.token_count(), 3);
}

#[test]
fn test_token_list_trims_and_drops_blanks() {
    let mut limiter = TokenRateLimiter::new(b"TEST_TOKEN".to_vec());
    limiter.load_tokens(b"a, b ,,c");

    assert_eq!(limiter.token_count(), 3);
    assert_eq!(limiter.tokens[0].value, b"a".to_vec());
    assert_eq!(limiter.tokens[1].value, b"b".to_vec());
    assert_eq!(limiter.tokens[2].value, b"c".to_vec());
}

#[test]
fn test_rate_limiter_round_robin() {
    let now: i64 = 1_000_000;
    let mut limiter = TokenRateLimiter::new(b"TEST_TOKEN".to_vec());
    limiter.load_tokens(b"token1,token2,token3");

    // Initialize tokens via update
    limiter.update_token(b"token1", 100, 5000, None);
    limiter.update_token(b"token2", 100, 5000, None);
    limiter.update_token(b"token3", 100, 5000, None);

    // Round-robin should cycle through tokens
    let token1 = limiter.get_next_token(now);
    let token2 = limiter.get_next_token(now);
    let token3 = limiter.get_next_token(now);
    let token4 = limiter.get_next_token(now);

    // Check order (may wrap around)
    let tokens = vec![token1, token2, token3, token4];
    assert_eq!(tokens.len(), 4);
    assert!(tokens.contains(&Some(b"token1".to_vec())));
    assert!(tokens.contains(&Some(b"token2".to_vec())));
    assert!(tokens.contains(&Some(b"token3".to_vec())));
}

#[test]
fn test_round_robin_each_token_once_before_repeat() {
    let now: i64 = 1_000_000;
    let mut limiter = TokenRateLimiter::new(b"TEST_TOKEN".to_vec());
    limiter.load_tokens(b"token1,token2,token3");
    limiter.update_token(b"token1", 100, 5000, None);
    limiter.update_token(b"token2", 100, 5000, None);
    limiter.update_token(b"token3", 100, 5000, None);

    let first = limiter.get_next_token(now).unwrap();
    let second = limiter.get_next_token(now).unwrap();
    let third = limiter.get_next_token(now).unwrap();

    assert_ne!(first, second);
    assert_ne!(first, third);
    assert_ne!(second, third);
}

#[test]
fn test_rate_limiter_skips_invalid_tokens() {
    let now: i64 = 1_000_000;
    let mut limiter = TokenRateLimiter::new(b"TEST_TOKEN".to_vec());
    limiter.load_tokens(b"token1,token2,token3");

    // Mark token2 as invalid by setting remaining to 0
    limiter.update_token(b"token1", 10, 5000, None);
    limiter.update_token(b"token2", 0, 5000, None);
    limiter.mark_invalid(b"token2");
    limiter.update_token(b"token3", 10, 5000, None);

    let token1 = limiter.get_next_token(now);
    let token2 = limiter.get_next_token(now);
    let token3 = limiter.get_next_token(now);

    // Should get 3 tokens, none should be token2 (invalid)
    let tokens = vec![token1, token2, token3];
    assert_eq!(tokens.len(), 3);
    assert!(tokens.iter().all(|t| t.is_some()));
    assert!(!tokens.contains(&Some(b"token2".to_vec())));
}

#[test]
fn test_rate_limiter_skips_exhausted_tokens() {
    let now: i64 = 1_000_000;
    let mut limiter = TokenRateLimiter::new(b"TEST_TOKEN".to_vec());
    limiter.load_tokens(b"token1,token2,token3");

    // Mark token2 as exhausted
    limiter.update_token(b"token1", 10, 5000, None);
    limiter.update_token(b"token2", 0, 5000, None);
    limiter.update_token(b"token3", 10, 5000, None);

    let token1 = limiter.get_next_token(now);
    let token2 = limiter.get_next_token(now);
    let token3 = limiter.get_next_token(now);

    // Should skip token2 (exhausted)
    assert_eq!(token1, Some(b"token1".to_vec()));
    assert_eq!(token2, Some(b"token3".to_vec()));
    assert_eq!(token3, Some(b"token1".to_vec()));
}

#[test]
fn test_rate_limiter_update_token() {
    let now: i64 = 1_000_000;
    let mut limiter = TokenRateLimiter::new(b"TEST_TOKEN".to_vec());
    limiter.load_tokens(b"token1");

    // Update token state
    limiter.update_token(b"token1", 100, 5000, Some(now + 3600));

    // Token should not be exhausted (has remaining > 0)
    assert!(!limiter.all_tokens_exhausted());
}

#[test]
fn test_rate_limiter_reset_logic() {
    let now: i64 = 1_000_000;
    let mut limiter = TokenRateLimiter::new(b"TEST_TOKEN".to_vec());
    limiter.load_tokens(b"token1");

    // Set reset time in the past
    let past = now - 3600;
    limiter.update_token(b"token1", 0, 5000, Some(past));

    // Check that token is exhausted
    assert!(limiter.all_tokens_exhausted());

    // Trigger reset check (happens automatically in get_next_token)
    limiter.get_next_token(now);

    // Token should now be available
    assert!(!limiter.all_tokens_exhausted());
}

#[test]
fn test_rate_limited_token_with_past_reset_is_selected_next() {
    let now: i64 = 1_000_000;
    let mut limiter = TokenRateLimiter::new(b"TEST_TOKEN".to_vec());
    limiter.load_tokens(b"token1");
    limiter.update_token(b"token1", 50, 5000, None);
    limiter.mark_rate_limited(b"token1", Some(now - 10), now - 20);

    assert!(limiter.all_tokens_exhausted());

    // The very next selection runs the reset pass and hands it out again.
    assert_eq!(limiter.get_next_token(now), Some(b"token1".to_vec()));
}

#[test]
fn test_rate_limiter_mark_invalid() {
    let now: i64 = 1_000_000;
    let mut limiter = TokenRateLimiter::new(b"TEST_TOKEN".to_vec());
    limiter.load_tokens(b"token1");

    limiter.update_token(b"token1", 100, 5000, None);

    // Should not be exhausted
    assert!(!limiter.all_tokens_exhausted());

    limiter.mark_invalid(b"token1");

    // Should now be exhausted (token invalid)
    assert!(limiter.all_tokens_exhausted());

    // A reset pass never revives an invalid token.
    assert_eq!(limiter.get_next_token(now), None);
    assert!(limiter.all_tokens_exhausted());
}

#[test]
fn test_rate_limiter_all_tokens_exhausted() {
    let mut limiter = TokenRateLimiter::new(b"TEST_TOKEN".to_vec());
    limiter.load_tokens(b"token1,token2");

    // Exhausted initially (tokens are uninitialized)
    assert!(limiter.all_tokens_exhausted());

    // Initialize tokens
    limiter.update_token(b"token1", 10, 5000, None);
    limiter.update_token(b"token2", 20, 5000, None);

    // Now not exhausted
    assert!(!limiter.all_tokens_exhausted());

    // Exhaust both tokens
    limiter.update_token(b"token1", 0, 5000, None);
    limiter.update_token(b"token2", 0, 5000, None);

    // Now exhausted again
    assert!(limiter.all_tokens_exhausted());
}

#[test]
fn test_all_exhausted_empty_pool_and_unknown_validity() {
    let limiter = TokenRateLimiter::new(b"TEST_TOKEN".to_vec());
    // Zero tokens: exhausted.
    assert!(limiter.all_tokens_exhausted());

    let mut loaded = TokenRateLimiter::new(b"TEST_TOKEN".to_vec());
    loaded.load_tokens(b"token1,token2");
    // Every validity unknown: exhausted, and no selection yet.
    assert!(loaded.all_tokens_exhausted());
    assert_eq!(loaded.get_next_token(0), None);
}

#[test]
fn test_apply_validation_results() {
    let mut limiter = TokenRateLimiter::new(b"TEST_TOKEN".to_vec());
    limiter.load_tokens(b"token1,token2");

    let results = vec![Some((42u32, 5000u32, Some(7_000_000i64))), None];
    limiter.apply_validation_results(&results);

    assert_eq!(limiter.tokens[0].valid, Some(true));
    assert_eq!(limiter.tokens[0].remaining, Some(42));
    assert_eq!(limiter.tokens[0].limit, 5000);
    assert_eq!(limiter.tokens[0].reset_at, Some(7_000_000));
    assert_eq!(limiter.tokens[1].valid, Some(false));
    assert_eq!(limiter.tokens[1].remaining, Some(0));
}

#[test]
fn test_mark_rate_limited_default_backoff() {
    let now: i64 = 1_000_000;
    let mut limiter = TokenRateLimiter::new(b"TEST_TOKEN".to_vec());
    limiter.load_tokens(b"token1");
    limiter.update_token(b"token1", 10, 5000, None);

    limiter.mark_rate_limited(b"token1", None, now);

    assert_eq!(limiter.tokens[0].remaining, Some(0));
    assert_eq!(limiter.tokens[0].valid, Some(true));
    assert_eq!(limiter.tokens[0].reset_at, Some(now + 60));
}
