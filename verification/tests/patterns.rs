use proxy_twister::utils::{match_outcome, matches_pattern, wildcard_to_regex, Pattern};

#[test]
fn test_wildcard_matching() {
    assert!(matches_pattern("abc.discord.gg", "*.discord.gg"));
    assert!(matches_pattern("xyz.discord.com", "*.discord.com"));
    assert!(!matches_pattern("test.instagram.com", "*.discord.com"));

    // Test that root domains match with wildcard patterns
    assert!(matches_pattern("discord.gg", "*.discord.gg"));
    assert!(matches_pattern("example.com", "*.example.com"));

    // Test that regular patterns still work
    assert!(matches_pattern("exact.match", "exact.match"));
    assert!(matches_pattern("test.wildcard.match", "test.*.match"));
    assert!(!matches_pattern("wrong.wildcard.com", "test.*.com"));
}

#[test]
fn wildcard_expression_for_subdomain_form() {
    assert_eq!(wildcard_to_regex("*.example.com"), r"^(.*\.)?example\.com$");
    assert_eq!(wildcard_to_regex("*.a*b"), r"^(.*\.)?a\*b$");
    assert_eq!(wildcard_to_regex("*."), r"^(.*\.)?$");
}

#[test]
fn wildcard_expression_for_general_form() {
    assert_eq!(wildcard_to_regex("test.*.match"), r"^test\..*\.match$");
    assert_eq!(wildcard_to_regex("*"), "^.*$");
    assert_eq!(wildcard_to_regex(""), "^$");
    assert_eq!(wildcard_to_regex(r"a\*b"), r"^a\\.*b$");
    assert_eq!(wildcard_to_regex("a+b(c)"), r"^a\+b\(c\)$");
    assert_eq!(wildcard_to_regex("*x"), "^.*x$");
}

#[test]
fn meta_characters_are_taken_literally() {
    assert!(matches_pattern("a+b", "a+b"));
    assert!(!matches_pattern("aab", "a+b"));
    assert!(matches_pattern("a.b", "a.b"));
    assert!(!matches_pattern("axb", "a.b"));
    assert!(matches_pattern("[x]", "[x]"));
    assert!(!matches_pattern("x", "[x]"));
}

#[test]
fn subdomain_pattern_takes_suffix_and_subdomains_only() {
    assert!(matches_pattern("example.com", "*.example.com"));
    assert!(matches_pattern("x.example.com", "*.example.com"));
    assert!(matches_pattern("a.b.example.com", "*.example.com"));
    assert!(!matches_pattern("example.com.other", "*.example.com"));
    assert!(!matches_pattern("badexample.com", "*.example.com"));
    assert!(!matches_pattern("example.org", "*.example.com"));
}

#[test]
fn suffix_that_repeats_itself_matches_its_own_extension() {
    // "other.other" is a subdomain of "other".
    assert!(matches_pattern("other.other", "*.other"));
}

#[test]
fn star_in_subdomain_suffix_is_literal() {
    assert!(matches_pattern("x.a*b", "*.a*b"));
    assert!(!matches_pattern("x.aXb", "*.a*b"));
}

#[test]
fn matching_is_anchored_at_both_ends() {
    assert!(!matches_pattern("xexact.match", "exact.match"));
    assert!(!matches_pattern("exact.matchx", "exact.match"));
    assert!(matches_pattern("test.match", "test*match"));
    assert!(matches_pattern("testmatch", "test*match"));
}

#[test]
fn empty_host_matches_only_empty_patterns() {
    assert!(matches_pattern("", ""));
    assert!(matches_pattern("", "*"));
    assert!(!matches_pattern("", "a"));
    assert!(!matches_pattern("", "*.example.com"));
    assert!(!matches_pattern("a", ""));
}

#[test]
fn hosts_are_compared_literally() {
    assert!(!matches_pattern("EXAMPLE.com", "example.com"));
    assert!(!matches_pattern("a.Example.com", "*.example.com"));
}

#[test]
fn compiled_pattern_matches_like_the_one_off_check() {
    let p = Pattern::compile("*.example.com").expect("compiles");
    assert!(p.matches("a.example.com"));
    assert!(p.matches("example.com"));
    assert!(!p.matches("foo.test"));
    let q = Pattern::compile("test.*.match").expect("compiles");
    assert!(q.matches("test.wildcard.match"));
    assert!(!q.matches("wrong.wildcard.com"));
}

#[test]
fn missing_pattern_matches_nothing() {
    assert!(!match_outcome(&None, "example.com"));
    assert!(!match_outcome(&None, ""));
    let compiled = Pattern::compile("*");
    assert!(match_outcome(&compiled, "example.com"));
}

#[test]
fn pattern_that_the_engine_refuses_takes_no_host() {
    let huge = "a".repeat(2_000_000);
    assert!(Pattern::compile(&huge).is_none());
    assert!(!matches_pattern(&huge, &huge));
    // The answer is the same every time.
    assert!(Pattern::compile(&huge).is_none());
    assert!(Pattern::compile("*.example.com").is_some());
    assert!(Pattern::compile("*.example.com").is_some());
}
