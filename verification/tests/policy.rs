use proxy_twister::config::{Config, Profile, Rule, Switch};
use proxy_twister::error::ProxyError;
use proxy_twister::server::{compile_rules, select_among, select_profile, Policy};
use proxy_twister::utils::Pattern;

fn rule(pattern: &str, profile: &str) -> Rule {
    Rule { pattern: pattern.to_string(), profile: profile.to_string() }
}

fn sample() -> Config {
    Config {
        switch: Switch {
            default: "direct".to_string(),
            rules: vec![rule("*.example.com", "A"), rule("*", "B")],
        },
        profiles: vec![
            ("direct".to_string(), Profile::Direct),
            ("A".to_string(), Profile::Http { host: "127.0.0.1".to_string(), port: 8080 }),
            ("B".to_string(), Profile::Socks5 { host: "10.0.0.1".to_string(), port: 1080 }),
        ],
    }
}

#[test]
fn pattern_precedence() {
    let config = sample();
    assert_eq!(select_profile(&config, "a.example.com"), "A");
    assert_eq!(select_profile(&config, "example.com"), "A");
    assert_eq!(select_profile(&config, "foo.test"), "B");
    let policy = Policy::new(sample());
    assert_eq!(policy.select("a.example.com"), "A");
    assert_eq!(policy.select("example.com"), "A");
    assert_eq!(policy.select("foo.test"), "B");
}

#[test]
fn first_matching_rule_wins() {
    let config = Config {
        switch: Switch {
            default: "d".to_string(),
            rules: vec![rule("*", "first"), rule("*.example.com", "second"), rule("*", "third")],
        },
        profiles: vec![],
    };
    assert_eq!(select_profile(&config, "a.example.com"), "first");
    assert_eq!(Policy::new(config).select("a.example.com"), "first");
}

#[test]
fn default_when_no_rule_matches() {
    let config = Config {
        switch: Switch {
            default: "fallback".to_string(),
            rules: vec![rule("*.local", "A"), rule("test.*", "B")],
        },
        profiles: vec![],
    };
    assert_eq!(select_profile(&config, "localhost"), "fallback");
    assert_eq!(select_profile(&config, "127.0.0.1"), "fallback");
    assert_eq!(select_profile(&config, "x.local"), "A");
    assert_eq!(select_profile(&config, "test.anything"), "B");
    let policy = Policy::new(config);
    assert_eq!(policy.select("localhost"), "fallback");
    assert_eq!(policy.select("test.anything"), "B");
}

#[test]
fn default_when_there_are_no_rules() {
    let config = Config {
        switch: Switch { default: "direct".to_string(), rules: vec![] },
        profiles: vec![("direct".to_string(), Profile::Direct)],
    };
    assert_eq!(select_profile(&config, "anything"), "direct");
    assert_eq!(select_profile(&config, ""), "direct");
    let policy = Policy::new(config);
    assert_eq!(policy.select("anything"), "direct");
    assert_eq!(policy.resolve("anything"), Ok(Profile::Direct));
}

#[test]
fn selected_name_is_a_rule_name_or_the_default() {
    let config = sample();
    for host in ["", "a", "example.com", "x.example.com", "EXAMPLE.COM", "weird host", "a\nb"] {
        let name = select_profile(&config, host);
        assert!(name == "direct" || name == "A" || name == "B");
        assert_eq!(Policy::new(sample()).select(host), name);
    }
}

#[test]
fn profiles_are_found_by_name() {
    let config = sample();
    assert_eq!(config.profile("direct"), Some(&Profile::Direct));
    assert_eq!(
        config.profile("A"),
        Some(&Profile::Http { host: "127.0.0.1".to_string(), port: 8080 })
    );
    assert_eq!(config.profile("missing"), None);
    assert_eq!(config.profile(""), None);
    assert_eq!(config.profile("a"), None);
}

#[test]
fn first_profile_of_a_name_counts() {
    let config = Config {
        switch: Switch { default: "p".to_string(), rules: vec![] },
        profiles: vec![
            ("p".to_string(), Profile::Direct),
            ("p".to_string(), Profile::Http { host: "h".to_string(), port: 1 }),
        ],
    };
    assert_eq!(config.profile("p"), Some(&Profile::Direct));
}

#[test]
fn resolve_lowercases_the_host() {
    let policy = Policy::new(sample());
    assert_eq!(
        policy.resolve("WWW.Example.COM"),
        Ok(Profile::Http { host: "127.0.0.1".to_string(), port: 8080 })
    );
    // The rules themselves compare literally.
    assert_eq!(policy.select("WWW.Example.COM"), "B");
}

#[test]
fn resolve_reports_a_dangling_name() {
    let config = Config {
        switch: Switch { default: "nowhere".to_string(), rules: vec![rule("*.example.com", "A")] },
        profiles: vec![("A".to_string(), Profile::Direct)],
    };
    let policy = Policy::new(config);
    assert_eq!(policy.resolve("foo.test"), Err(ProxyError::PolicyMiss));
    assert_eq!(policy.resolve("x.example.com"), Ok(Profile::Direct));
}

#[test]
fn policy_keeps_its_config() {
    let policy = Policy::new(sample());
    assert_eq!(policy.config(), &sample());
}

#[test]
fn profile_clone_is_equal() {
    let p = Profile::Socks5 { host: "h".to_string(), port: 9 };
    assert_eq!(p.clone(), p);
    let r = rule("*.x", "y");
    assert_eq!(r.clone(), r);
}

#[test]
fn profile_parts_must_go_together() {
    let h = || Some("127.0.0.1".to_string());
    assert_eq!(Profile::from_parts("direct", None, None), Ok(Profile::Direct));
    assert_eq!(
        Profile::from_parts("http", h(), Some(8080)),
        Ok(Profile::Http { host: "127.0.0.1".to_string(), port: 8080 })
    );
    assert_eq!(
        Profile::from_parts("socks5", h(), Some(1)),
        Ok(Profile::Socks5 { host: "127.0.0.1".to_string(), port: 1 })
    );
    assert_eq!(
        Profile::from_parts("socks5", h(), Some(65535)),
        Ok(Profile::Socks5 { host: "127.0.0.1".to_string(), port: 65535 })
    );
    for (scheme, host, port) in [
        ("direct", h(), None),
        ("direct", None, Some(80)),
        ("direct", h(), Some(80)),
        ("http", None, Some(80)),
        ("http", h(), None),
        ("http", None, None),
        ("http", h(), Some(0)),
        ("socks5", h(), Some(0)),
        ("socks5", None, None),
        ("socks4", h(), Some(1080)),
        ("HTTP", h(), Some(80)),
        ("", None, None),
    ] {
        assert_eq!(Profile::from_parts(scheme, host, port), Err(ProxyError::ConfigParse));
    }
}

#[test]
fn pattern_shows_its_expression() {
    let p = proxy_twister::utils::Pattern::compile("*.example.com").expect("compiles");
    assert_eq!(p.as_str(), r"^(.*\.)?example\.com$");
}

#[test]
fn first_match_wins_among_compiled_rules() {
    let switch = Switch {
        default: "D".to_string(),
        rules: vec![rule("*.example.com", "A"), rule("*", "B")],
    };
    let matchers = compile_rules(&switch);
    assert_eq!(matchers.len(), 2);
    assert!(matchers.iter().all(|m| m.is_some()));
    assert_eq!(matchers[0].as_ref().expect("compiled").as_str(), r"^(.*\.)?example\.com$");
    assert_eq!(select_among(&switch, &matchers, "a.example.com"), "A");
    assert_eq!(select_among(&switch, &matchers, "example.com"), "A");
    assert_eq!(select_among(&switch, &matchers, "foo.test"), "B");

    let other = Switch {
        default: "D".to_string(),
        rules: vec![rule("*", "B"), rule("*.example.com", "A")],
    };
    let matchers = compile_rules(&other);
    assert_eq!(select_among(&other, &matchers, "a.example.com"), "B");
}

#[test]
fn missing_matcher_passes_its_rule_over() {
    let switch = Switch {
        default: "D".to_string(),
        rules: vec![rule("*", "first"), rule("*", "second")],
    };
    let matchers = vec![None, Pattern::compile("*")];
    assert_eq!(select_among(&switch, &matchers, "host"), "second");
    let none: Vec<Option<Pattern>> = vec![None, None];
    assert_eq!(select_among(&switch, &none, "host"), "D");
    let empty = Switch { default: "D".to_string(), rules: vec![] };
    assert_eq!(select_among(&empty, &vec![], "host"), "D");
}

#[test]
fn default_only_when_no_rule_matches() {
    let config = Config {
        switch: Switch {
            default: "D".to_string(),
            rules: vec![rule("*.example.com", "A"), rule("*", "B")],
        },
        profiles: vec![],
    };
    assert_eq!(select_profile(&config, "a.example.com"), "A");
    assert_eq!(select_profile(&config, "example.com"), "A");
    assert_eq!(select_profile(&config, "foo.test"), "B");
    let narrow = Config {
        switch: Switch { default: "D".to_string(), rules: vec![rule("*.example.com", "A")] },
        profiles: vec![],
    };
    assert_eq!(select_profile(&narrow, "foo.test"), "D");
}

#[test]
fn refused_pattern_passes_its_rule_over() {
    let huge = "a".repeat(2_000_000);
    let config = Config {
        switch: Switch {
            default: "D".to_string(),
            rules: vec![rule(&huge, "never"), rule("*.example.com", "A")],
        },
        profiles: vec![],
    };
    let matchers = compile_rules(&config.switch);
    assert!(matchers[0].is_none());
    assert!(matchers[1].is_some());
    assert_eq!(select_profile(&config, &huge), "D");
    assert_eq!(select_profile(&config, "x.example.com"), "A");
    let policy = Policy::new(config);
    assert_eq!(policy.select(&huge), "D");
    assert_eq!(policy.select("x.example.com"), "A");
}
