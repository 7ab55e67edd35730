use pengagent::config::{glob_match, Config, ConfigError, EnvValues};

#[test]
fn glob_exact() {
    assert!(glob_match("gateway", "gateway"));
    assert!(!glob_match("gateway", "gateway2"));
}

#[test]
fn glob_prefix_star() {
    assert!(glob_match("adapter-*", "adapter-mc"));
    assert!(glob_match("adapter-*", "adapter-modded"));
    assert!(!glob_match("adapter-*", "modded"));
}

#[test]
fn glob_suffix_star() {
    assert!(glob_match("*-mc", "adapter-mc"));
    assert!(!glob_match("*-mc", "mc-adapter"));
}

#[test]
fn glob_all() {
    assert!(glob_match("*", "anything"));
}

#[test]
fn glob_star_in_the_middle() {
    assert!(glob_match("a*c", "abc"));
    assert!(glob_match("a*c", "ac"));
    assert!(!glob_match("a*c", "ab"));
    // the prefix and suffix must not overlap
    assert!(!glob_match("ab*ba", "aba"));
    assert!(glob_match("ab*ba", "abba"));
}

#[test]
fn glob_every_star_is_a_wildcard() {
    assert!(glob_match("*mc*", "adapter-mc-1"));
    assert!(glob_match("*mc*", "mc"));
    assert!(!glob_match("*mc*", "adapter-m-c"));
    assert!(glob_match("a*b*", "axbx"));
    assert!(glob_match("a*b*c", "a1b2c"));
    assert!(!glob_match("a*b*c", "a1c2b"));
    assert!(glob_match("**", ""));
    assert!(glob_match("*-*-*", "a-b-c"));
}

#[test]
fn glob_star_matches_empty_name() {
    assert!(glob_match("*", ""));
    assert!(!glob_match("x", ""));
    assert!(glob_match("", ""));
}

#[test]
fn glob_non_ascii() {
    assert!(glob_match("컨테이너-*", "컨테이너-하나"));
    assert!(!glob_match("컨테이너-*", "컨테이너"));
}

#[test]
fn pattern_matches_itself() {
    for p in ["gateway", "adapter-*", "*-mc", "*", "a*b*c", ""] {
        assert!(glob_match(p, p));
    }
}

fn env_with_token(token: Option<&str>) -> EnvValues {
    EnvValues {
        token: token.map(|t| t.to_string()),
        bind: None,
        ops_repo_path: None,
        compose_file: None,
        restart_whitelist: None,
        metrics_url: None,
        docker_proxy_url: None,
        audit_db: None,
    }
}

#[test]
fn missing_token_is_refused() {
    assert_eq!(Config::from_env(env_with_token(None)).err(), Some(ConfigError::MissingToken));
}

#[test]
fn empty_token_is_refused() {
    assert_eq!(Config::from_env(env_with_token(Some(""))).err(), Some(ConfigError::EmptyToken));
}

#[test]
fn short_token_is_refused_with_its_length() {
    assert_eq!(
        Config::from_env(env_with_token(Some("short"))).err(),
        Some(ConfigError::ShortToken { len: 5 })
    );
    assert_eq!(
        Config::from_env(env_with_token(Some("0123456789abcde"))).err(),
        Some(ConfigError::ShortToken { len: 15 })
    );
}

#[test]
fn token_length_counts_bytes() {
    // five Hangul syllables: 5 characters, 15 bytes
    assert_eq!(
        Config::from_env(env_with_token(Some("가나다라마"))).err(),
        Some(ConfigError::ShortToken { len: 15 })
    );
    // six Hangul syllables: 18 bytes, enough
    assert!(Config::from_env(env_with_token(Some("가나다라마바"))).is_ok());
}

#[test]
fn defaults_apply() {
    let cfg = Config::from_env(env_with_token(Some("0123456789abcdef"))).unwrap();
    assert_eq!(cfg.token, "0123456789abcdef");
    assert_eq!(cfg.bind, "0.0.0.0:9000");
    assert_eq!(cfg.ops_repo_path, None);
    assert_eq!(cfg.compose_file, "docker-compose.yml");
    assert!(cfg.restart_whitelist.is_empty());
    assert_eq!(cfg.metrics_url, "http://localhost:9100/metrics");
    assert_eq!(cfg.docker_proxy_url, "http://localhost:2375");
    assert_eq!(cfg.audit_db, "/var/lib/pengagent/audit.db");
}

#[test]
fn given_values_are_kept() {
    let env = EnvValues {
        token: Some("secret-test-token".to_string()),
        bind: Some("100.64.0.1:9000".to_string()),
        ops_repo_path: Some("/srv/ops".to_string()),
        compose_file: Some("compose.yml".to_string()),
        restart_whitelist: Some("gateway,adapter-*,caddy".to_string()),
        metrics_url: Some("http://node:9100/metrics".to_string()),
        docker_proxy_url: Some("http://proxy:2375".to_string()),
        audit_db: Some(":memory:".to_string()),
    };
    let cfg = Config::from_env(env).unwrap();
    assert_eq!(cfg.bind, "100.64.0.1:9000");
    assert_eq!(cfg.ops_repo_path, Some("/srv/ops".to_string()));
    assert_eq!(cfg.compose_file, "compose.yml");
    assert_eq!(cfg.restart_whitelist, vec!["gateway", "adapter-*", "caddy"]);
    assert_eq!(cfg.metrics_url, "http://node:9100/metrics");
    assert_eq!(cfg.docker_proxy_url, "http://proxy:2375");
    assert_eq!(cfg.audit_db, ":memory:");
}

#[test]
fn empty_ops_repo_path_is_none() {
    let mut env = env_with_token(Some("0123456789abcdef"));
    env.ops_repo_path = Some(String::new());
    assert_eq!(Config::from_env(env).unwrap().ops_repo_path, None);
}

#[test]
fn whitelist_is_trimmed_and_empty_entries_dropped() {
    let mut env = env_with_token(Some("0123456789abcdef"));
    env.restart_whitelist = Some(" gateway , adapter-*,,\t,caddy \u{3000}, ".to_string());
    let cfg = Config::from_env(env).unwrap();
    assert_eq!(cfg.restart_whitelist, vec!["gateway", "adapter-*", "caddy"]);
}

#[test]
fn whitelist_of_only_commas_is_empty() {
    let mut env = env_with_token(Some("0123456789abcdef"));
    env.restart_whitelist = Some(",, ,".to_string());
    assert!(Config::from_env(env).unwrap().restart_whitelist.is_empty());
}

fn cfg_with_whitelist(patterns: &[&str]) -> Config {
    Config {
        bind: "127.0.0.1:0".to_string(),
        token: "secret-test-token".to_string(),
        ops_repo_path: None,
        compose_file: "docker-compose.yml".to_string(),
        restart_whitelist: patterns.iter().map(|p| p.to_string()).collect(),
        metrics_url: String::new(),
        docker_proxy_url: String::new(),
        audit_db: ":memory:".to_string(),
    }
}

#[test]
fn empty_whitelist_allows_nothing() {
    let cfg = cfg_with_whitelist(&[]);
    assert!(!cfg.is_restart_allowed("gateway"));
    assert!(!cfg.is_restart_allowed(""));
}

#[test]
fn whitelist_allows_matching_containers() {
    let cfg = cfg_with_whitelist(&["gateway", "adapter-*", "caddy"]);
    assert!(cfg.is_restart_allowed("gateway"));
    assert!(cfg.is_restart_allowed("adapter-minecraft"));
    assert!(cfg.is_restart_allowed("caddy"));
    assert!(!cfg.is_restart_allowed("postgres"));
    assert!(!cfg.is_restart_allowed("gateway2"));
}

#[test]
fn star_in_whitelist_allows_all() {
    let cfg = cfg_with_whitelist(&["gateway", "*"]);
    assert!(cfg.is_restart_allowed("postgres"));
    assert!(cfg.is_restart_allowed("anything"));
}
