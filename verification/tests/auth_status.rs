use crab_code::auth_status::{
    check_providers, checked_providers, login_source, logout_env_var, provider_status, status_line, status_source,
    ProviderStatus,
};

#[test]
fn check_providers_returns_two() {
    let providers = check_providers(None, &[None, None], &[None, None]);
    assert_eq!(providers.len(), 2);
    assert_eq!(providers[0].provider, "anthropic");
    assert_eq!(providers[1].provider, "openai");
    assert_eq!(checked_providers(), vec![("anthropic", "ANTHROPIC_API_KEY"), ("openai", "OPENAI_API_KEY")]);
}

#[test]
fn provider_status_no_key() {
    let status = ProviderStatus { provider: "test", env_var: "TEST_KEY", has_env: false, has_token_file: false };
    assert!(!status.is_configured());
}

#[test]
fn empty_environment_value_does_not_count() {
    let s = provider_status("openai", "OPENAI_API_KEY", Some(""), None, None);
    assert!(!s.has_env);
    let s = provider_status("openai", "OPENAI_API_KEY", Some("sk-x"), None, None);
    assert!(s.has_env);
    assert!(s.is_configured());
}

#[test]
fn stored_token_counts_only_for_the_active_provider() {
    let s = provider_status("openai", "OPENAI_API_KEY", None, None, Some("tok"));
    assert!(!s.has_token_file);
    let s = provider_status("anthropic", "ANTHROPIC_API_KEY", None, None, Some("tok"));
    assert!(s.has_token_file);
    let s = provider_status("openai", "OPENAI_API_KEY", None, Some("openai"), Some("tok"));
    assert!(s.has_token_file);
    let s = provider_status("openai", "OPENAI_API_KEY", None, Some("openai"), Some(""));
    assert!(!s.has_token_file);
}

#[test]
fn run_status_text_and_json_details() {
    let providers = check_providers(Some("anthropic"), &[Some("k"), None], &[Some("t"), Some("t")]);
    assert_eq!(status_source(&providers[0]), "tokens.json");
    assert_eq!(status_source(&providers[1]), "none");
    let (icon, detail) = status_line(&providers[0]);
    assert_eq!(icon, "ok");
    assert_eq!(detail, "configured (auth/tokens.json, env=ANTHROPIC_API_KEY)");
    let (icon, detail) = status_line(&providers[1]);
    assert_eq!(icon, "--");
    assert_eq!(detail, "not configured (set OPENAI_API_KEY)");
    let env_only = provider_status("openai", "OPENAI_API_KEY", Some("k"), None, None);
    assert_eq!(status_source(&env_only), "env");
    assert_eq!(status_line(&env_only).1, "configured (env=OPENAI_API_KEY)");
    assert_eq!(login_source(&env_only), "env var");
    assert_eq!(login_source(&providers[0]), "auth/tokens.json");
}

#[test]
fn logout_env_var_by_provider() {
    assert_eq!(logout_env_var("openai"), "OPENAI_API_KEY");
    assert_eq!(logout_env_var("ollama"), "OPENAI_API_KEY");
    assert_eq!(logout_env_var("vllm"), "OPENAI_API_KEY");
    assert_eq!(logout_env_var("deepseek"), "DEEPSEEK_API_KEY");
    assert_eq!(logout_env_var("anthropic"), "ANTHROPIC_API_KEY");
    assert_eq!(logout_env_var("bedrock"), "ANTHROPIC_API_KEY");
}
