use archive_list::config::{AppConfig, ConfigError, ConfigManager};
use archive_list::dispatch::{effective_url, url_to_path};
use archive_list::failure::{classify_failure, format_failure_record, FailureCode};
use archive_list::hosts::{
    codeberg_api_url, github_api_url, gitlab_api_url, huggingface_api_url, parse_codeberg_url,
    parse_github_url, parse_gitlab_url, parse_huggingface_url, CodebergProvider, GitHubProvider,
    GitLabProvider, HuggingFaceProvider,
};

#[test]
fn test_effective_url_trims_and_skips() {
    assert_eq!(
        effective_url(b"  https://github.com/a/b  "),
        Some(b"https://github.com/a/b".to_vec())
    );
    assert_eq!(effective_url(b"   "), None);
    assert_eq!(effective_url(b"# a comment"), None);
    assert_eq!(effective_url(b""), None);
}

#[test]
fn test_url_to_path_strips_scheme() {
    assert_eq!(
        url_to_path(b"https://github.com/rust-lang/rust"),
        b"github.com/rust-lang/rust".to_vec()
    );
    assert_eq!(url_to_path(b"http://example.org/x"), b"example.org/x".to_vec());
    assert_eq!(url_to_path(b"example.org/x"), b"example.org/x".to_vec());
}

#[test]
fn test_classify_failure() {
    assert_eq!(classify_failure(b"server said 404"), FailureCode::NoReadme);
    assert_eq!(classify_failure(b"repo Not Found"), FailureCode::NoRepo);
    assert_eq!(classify_failure(b"connection reset"), FailureCode::Unknown);
}

#[test]
fn test_failure_codes_and_record() {
    assert_eq!(FailureCode::NoReadme.code(), "NO-README");
    assert_eq!(FailureCode::NoRepo.code(), "NO-REPO");
    assert_eq!(FailureCode::RateLimit.code(), "RATE-LIMIT");
    assert_eq!(FailureCode::NoTokens.code(), "NO-TOKENS");
    assert_eq!(FailureCode::InvalidProvider.code(), "INVALID-PROVIDER");
    assert_eq!(FailureCode::Unknown.code(), "UNKNOWN");
    assert_eq!(
        format_failure_record(b"https://x.org/a", FailureCode::NoTokens),
        b"https://x.org/a NO-TOKENS\n".to_vec()
    );
}

#[test]
fn test_config_load_fresh_run() {
    let mgr = ConfigManager::new();
    assert_eq!(mgr.load(None), Ok(AppConfig { lines_from_bottom: 0 }));
}

#[test]
fn test_config_round_trip() {
    let mgr = ConfigManager::new();
    let text = mgr.save(&AppConfig { lines_from_bottom: 42 });
    assert_eq!(text, b"lines_from_bottom = 42\n".to_vec());
    let back = mgr.load(Some(&text)).unwrap();
    assert_eq!(back.lines_from_bottom, 42);
}

#[test]
fn test_config_rejects_bad_text() {
    let mgr = ConfigManager::new();
    assert_eq!(
        mgr.load(Some(&b"something_else = 3\n".to_vec())),
        Err(ConfigError::MissingKey)
    );
    assert_eq!(
        mgr.load(Some(&b"lines_from_bottom = soon\n".to_vec())),
        Err(ConfigError::BadValue)
    );
}

#[test]
fn test_detects() {
    assert!(GitHubProvider::detect(b"https://github.com/a/b"));
    assert!(!GitHubProvider::detect(b"https://example.org/github.com"));
    assert!(GitLabProvider::detect(b"https://gitlab.com/a/b"));
    assert!(HuggingFaceProvider::detect(b"https://huggingface.co/gpt2"));
    assert!(CodebergProvider::detect(b"https://codeberg.org/a/b"));
    assert!(!CodebergProvider::detect(b"https://github.com/a/b"));
}

#[test]
fn test_parse_github_url() {
    let repo = parse_github_url(b"https://github.com/rust-lang/rust").unwrap();
    assert_eq!(repo, b"rust-lang/rust".to_vec());
    assert!(parse_github_url(b"https://github.com/").is_err());
    assert_eq!(
        github_api_url(&repo),
        b"https://api.github.com/repos/rust-lang/rust/readme".to_vec()
    );
}

#[test]
fn test_parse_gitlab_url_percent_encodes() {
    let (base, project) = parse_gitlab_url(b"https://gitlab.com/group/sub/proj").unwrap();
    assert_eq!(base, b"https://gitlab.com".to_vec());
    assert_eq!(project, b"group%2Fsub%2Fproj".to_vec());
    assert_eq!(
        gitlab_api_url(&base, &project),
        b"https://gitlab.com/api/v4/projects/group%2Fsub%2Fproj/repository/files/README.md/raw"
            .to_vec()
    );
}

#[test]
fn test_parse_huggingface_url() {
    let model = parse_huggingface_url(b"https://huggingface.co/models/openai/gpt2").unwrap();
    assert_eq!(model, b"openai/gpt2".to_vec());
    assert_eq!(
        huggingface_api_url(b"gpt2"),
        b"https://huggingface.co/api/models/gpt2/raw/README.md".to_vec()
    );
}

#[test]
fn test_parse_codeberg_url() {
    let (owner, repo) = parse_codeberg_url(b"https://codeberg.org/user/repo").unwrap();
    assert_eq!(owner, b"user".to_vec());
    assert_eq!(repo, b"repo".to_vec());
    assert_eq!(
        codeberg_api_url(&owner, &repo),
        b"https://codeberg.org/api/v1/repos/user/repo/readme".to_vec()
    );
}
