//! The Ruler: construction, the four index mutators, rule parsing and
//! withdrawal, and end-to-end filtering scenarios.
use tivilsta::Ruler;

fn sorted(mut v: Vec<String>) -> Vec<String> {
    v.sort();
    v
}

fn strings(items: &[&str]) -> Vec<String> {
    items.iter().map(|s| s.to_string()).collect()
}

#[test]
fn test_new_ruler_gen_complement_true() {
    let ruler = Ruler::new(true);

    assert_eq!(ruler.handle_complement(), true)
}

#[test]
fn test_new_ruler_gen_complement_false() {
    let ruler = Ruler::new(false);

    assert_eq!(ruler.handle_complement(), false)
}

#[test]
fn test_reduce() {
    let ruler = Ruler::new(false);

    assert_eq!(
        ruler.reduce(&"www.example.org".to_string()),
        "example.org".to_string()
    )
}

#[test]
fn test_reduce_no_www() {
    let ruler = Ruler::new(false);

    assert_eq!(
        ruler.reduce(&"example.org".to_string()),
        "example.org".to_string()
    )
}

#[test]
fn test_reduce_multiple_www() {
    let ruler = Ruler::new(false);

    assert_eq!(
        ruler.reduce(&"www.www.example.org".to_string()),
        "www.example.org".to_string()
    )
}

#[test]
fn test_search_keys() {
    let ruler = Ruler::new(false);

    assert_eq!(
        ruler.search_keys(&"example.org".to_string()),
        ("exam".to_string(), "org".to_string())
    )
}

#[test]
fn test_search_keys_long_extension() {
    let ruler = Ruler::new(false);

    assert_eq!(
        ruler.search_keys(&"example.example".to_string()),
        ("exam".to_string(), "ple".to_string())
    )
}

#[test]
fn test_push_strict() {
    let mut ruler = Ruler::new(false);

    // Ensure that it's really empty :)
    assert!(ruler.strict_bucket("exam").is_none());

    ruler.push_strict(&"www.example.org".to_string());

    assert_eq!(
        sorted(ruler.strict_bucket("exam").unwrap().clone()),
        strings(&["www.example.org"])
    );

    // Let's add another one.

    ruler.push_strict(&"example.net".to_string());

    assert_eq!(
        sorted(ruler.strict_bucket("exam").unwrap().clone()),
        strings(&["example.net", "www.example.org"])
    );
}

#[test]
fn test_pull_strict() {
    let mut ruler = Ruler::new(false);

    // Ensure that it's really empty :)
    assert!(ruler.strict_bucket("exam").is_none());

    // Add some data into it :)
    ruler.push_strict(&"www.example.org".to_string());
    ruler.push_strict(&"example.net".to_string());

    ruler.pull_strict(&"www.example.org".to_string());

    assert_eq!(
        sorted(ruler.strict_bucket("exam").unwrap().clone()),
        strings(&["example.net"])
    );

    // Let's remove another one.
    ruler.pull_strict(&"example.net".to_string());

    assert_eq!(
        sorted(ruler.strict_bucket("exam").unwrap().clone()),
        Vec::<String>::new()
    );
}

#[test]
fn test_push_present() {
    let mut ruler = Ruler::new(false);

    // Ensure that it's really empty :)
    assert!(ruler.present_bucket("exam").is_none());

    ruler.push_present(&"www.example.net".to_string());

    assert_eq!(
        sorted(ruler.present_bucket("exam").unwrap().clone()),
        strings(&["www.example.net"])
    );

    // Let's add another one.

    ruler.push_present(&"example.com".to_string());

    assert_eq!(
        sorted(ruler.present_bucket("exam").unwrap().clone()),
        strings(&["example.com", "www.example.net"])
    );
}

#[test]
fn test_pull_present() {
    let mut ruler = Ruler::new(false);

    // Ensure that it's really empty :)
    assert!(ruler.present_bucket("exam").is_none());

    // Add some data into it :)
    ruler.push_present(&"www.example.net".to_string());
    ruler.push_present(&"example.org".to_string());

    ruler.pull_present(&"www.example.net".to_string());

    assert_eq!(
        sorted(ruler.present_bucket("exam").unwrap().clone()),
        strings(&["example.org"])
    );

    // Let's remove another one.
    ruler.pull_present(&"example.org".to_string());

    assert_eq!(
        sorted(ruler.present_bucket("exam").unwrap().clone()),
        Vec::<String>::new()
    );
}

#[test]
fn test_push_ends() {
    let mut ruler = Ruler::new(false);

    // Ensure that it's really empty :)
    assert!(ruler.ends_bucket("ple").is_none());

    ruler.push_ends(&"www.example.example".to_string());

    assert_eq!(
        sorted(ruler.ends_bucket("ple").unwrap().clone()),
        strings(&["www.example.example"])
    );

    // Let's add another one.

    ruler.push_ends(&"example.com".to_string());

    assert_eq!(
        sorted(ruler.ends_bucket("com").unwrap().clone()),
        strings(&["example.com"])
    );

    // Let's add another one.

    ruler.push_ends(&"example.co".to_string());

    assert_eq!(
        sorted(ruler.ends_bucket(".co").unwrap().clone()),
        strings(&["example.co"])
    );

    assert_eq!(ruler.ends_bucket("com").is_some(), true);
    assert_eq!(ruler.ends_bucket("ple").is_some(), true);
    assert_eq!(ruler.ends_bucket(".co").is_some(), true);
}

#[test]
fn test_pull_ends() {
    let mut ruler = Ruler::new(false);

    // Ensure that it's really empty :)
    assert!(ruler.ends_bucket("ple").is_none());

    // Add some data into it :)
    ruler.push_ends(&"www.example.example".to_string());
    ruler.push_ends(&"example.com".to_string());
    ruler.push_ends(&"example.co".to_string());

    assert_eq!(ruler.ends_bucket("com").is_some(), true);
    assert_eq!(ruler.ends_bucket("ple").is_some(), true);
    assert_eq!(ruler.ends_bucket(".co").is_some(), true);

    ruler.pull_ends(&"www.example.example".to_string());

    assert_eq!(
        sorted(ruler.ends_bucket("ple").unwrap().clone()),
        Vec::<String>::new()
    );

    assert_eq!(
        sorted(ruler.ends_bucket("com").unwrap().clone()),
        strings(&["example.com"])
    );

    assert_eq!(
        sorted(ruler.ends_bucket(".co").unwrap().clone()),
        strings(&["example.co"])
    );

    // Let's remove another one.
    ruler.pull_ends(&"example.com".to_string());

    assert_eq!(
        sorted(ruler.ends_bucket("com").unwrap().clone()),
        Vec::<String>::new()
    );

    assert_eq!(ruler.ends_bucket("com").is_some(), true);
    assert_eq!(ruler.ends_bucket("ple").is_some(), true);
    assert_eq!(ruler.ends_bucket(".co").is_some(), true);
}

#[test]
fn test_push_regex() {
    let mut ruler = Ruler::new(false);

    // Ensure that it's really empty :)
    assert_eq!(ruler.regex_string().as_str(), "");
    assert_eq!(ruler.compiled_pattern(), "");

    ruler.push_regex(&"^(www.)?example.com$".to_string());

    let expected = "^(www.)?example.com$".to_string();

    assert_eq!(ruler.regex_string(), &expected);
    assert_eq!(ruler.compiled_pattern(), &expected[..]);

    // Let's add another one.
    ruler.push_regex(&"^(api.)?example.org$".to_string());

    let expected = "^(www.)?example.com$|^(api.)?example.org$".to_string();

    assert_eq!(ruler.regex_string(), &expected);
    assert_eq!(ruler.compiled_pattern(), &expected[..]);
}

#[test]
fn test_pull_regex() {
    let mut ruler = Ruler::new(false);

    // Ensure that it's really empty :)
    assert_eq!(ruler.regex_string().as_str(), "");
    assert_eq!(ruler.compiled_pattern(), "");

    // Add some data into it :)
    ruler.push_regex(&"^(www.)?example.com$".to_string());
    ruler.push_regex(&"^(api.)?example.org$".to_string());

    ruler.pull_regex(&"^(www.)?example.com$".to_string());

    let expected = "^(api.)?example.org$".to_string();

    assert_eq!(ruler.regex_string(), &expected);
    assert_eq!(ruler.compiled_pattern(), &expected[..]);

    // Let's remove another one.
    ruler.pull_regex(&"^(api.)?example.org$".to_string());

    let expected = "".to_string();

    assert_eq!(ruler.regex_string(), &expected);
    assert_eq!(ruler.compiled_pattern(), &expected[..]);
}

#[test]
fn test_parse_all() {
    let mut ruler = Ruler::new(false);

    let given = &"example.org".to_string();

    assert_eq!(ruler.parse_all(given), false);
    assert!(ruler.ends_keys().is_empty());
    assert!(ruler.strict_keys().is_empty());
    assert!(ruler.present_keys().is_empty());
    assert_eq!(ruler.regex_string().as_str(), "");

    // Let's add a new one.
    let given = &"ALL example.org".to_string();

    assert_eq!(ruler.parse_all(given), true);
    assert_eq!(sorted(ruler.ends_keys()), strings(&["org"]));
    assert_eq!(
        sorted(ruler.ends_bucket("org").unwrap().clone()),
        strings(&[".example.org"])
    );
    assert_eq!(sorted(ruler.strict_keys()), strings(&["exam"]));
    assert_eq!(
        sorted(ruler.strict_bucket("exam").unwrap().clone()),
        strings(&["example.org"])
    );
    assert!(ruler.present_keys().is_empty());
    assert_eq!(ruler.regex_string().as_str(), "");

    // Let's add another one but the marker is in lowercase.
    let given = &"all .example.net".to_string();

    assert_eq!(ruler.parse_all(given), true);
    assert_eq!(sorted(ruler.ends_keys()), strings(&["net", "org"]));
    assert_eq!(
        sorted(ruler.ends_bucket("net").unwrap().clone()),
        strings(&[".example.net"])
    );
    assert_eq!(sorted(ruler.strict_keys()), strings(&["exam"]));
    assert_eq!(
        sorted(ruler.strict_bucket("exam").unwrap().clone()),
        strings(&["example.net", "example.org"])
    );
    assert!(ruler.present_keys().is_empty());
    assert_eq!(ruler.regex_string().as_str(), "");

    // Let's add another one but this time with the complement generation.
    ruler.set_handle_complement(true);

    let given = &"ALL .example.de".to_string();

    assert_eq!(ruler.parse_all(given), true);
    assert_eq!(sorted(ruler.ends_keys()), strings(&[".de", "net", "org"]));
    assert_eq!(
        sorted(ruler.ends_bucket(".de").unwrap().clone()),
        strings(&[".example.de"])
    );
    assert_eq!(sorted(ruler.strict_keys()), strings(&["exam"]));
    assert_eq!(
        sorted(ruler.strict_bucket("exam").unwrap().clone()),
        strings(&[
            "example.de",
            "example.net",
            "example.org",
            "www.example.de"
        ])
    );
    assert!(ruler.present_keys().is_empty());
    assert_eq!(ruler.regex_string().as_str(), "");
}

#[test]
fn test_unparse_all() {
    let mut ruler = Ruler::new(false);

    let given = &"ALL example.com".to_string();

    // Fill ruler with some data
    ruler.parse_all(&"ALL .hello.com".to_string());
    ruler.parse_all(&"ALL .github.com".to_string());
    ruler.parse_all(&"ALL .example.com".to_string());

    assert_eq!(ruler.unparse_all(given), true);
    assert_eq!(sorted(ruler.ends_keys()), strings(&["com"]));
    assert_eq!(
        sorted(ruler.ends_bucket("com").unwrap().clone()),
        strings(&[".github.com", ".hello.com"])
    );
    assert_eq!(sorted(ruler.strict_keys()), strings(&["exam", "gith", "hell"]));
    assert_eq!(
        sorted(ruler.strict_bucket("hell").unwrap().clone()),
        strings(&["hello.com"])
    );
    assert_eq!(
        sorted(ruler.strict_bucket("gith").unwrap().clone()),
        strings(&["github.com"])
    );
    assert_eq!(
        sorted(ruler.strict_bucket("exam").unwrap().clone()),
        Vec::<String>::new()
    );
    assert!(ruler.present_keys().is_empty());
    assert_eq!(ruler.regex_string().as_str(), "");

    // Let's remove another one but this time with the complement generation.
    ruler.set_handle_complement(true);

    ruler.parse_all(&"ALL .hello.com".to_string());

    assert_eq!(
        sorted(ruler.strict_bucket("hell").unwrap().clone()),
        strings(&["hello.com", "www.hello.com"])
    );

    let given = &"ALL .hello.world".to_string();

    assert_eq!(ruler.unparse_all(given), true);
    assert_eq!(sorted(ruler.ends_keys()), strings(&["com"]));
    assert_eq!(
        sorted(ruler.ends_bucket("com").unwrap().clone()),
        strings(&[".github.com", ".hello.com"])
    );
    assert_eq!(sorted(ruler.strict_keys()), strings(&["exam", "gith", "hell"]));
    assert_eq!(
        sorted(ruler.strict_bucket("hell").unwrap().clone()),
        strings(&["hello.com", "www.hello.com"])
    );
    assert_eq!(
        sorted(ruler.strict_bucket("gith").unwrap().clone()),
        strings(&["github.com"])
    );
    assert_eq!(
        sorted(ruler.strict_bucket("exam").unwrap().clone()),
        Vec::<String>::new()
    );
    assert!(ruler.present_keys().is_empty());
    assert_eq!(ruler.regex_string().as_str(), "");
}

#[test]
fn parse_vec_and_unparse_vec_round_trip() {
    let mut ruler = Ruler::new(false);

    let my_subjects: Vec<String> = vec![
        String::from("example.com"),
        String::from("example.org"),
        String::from("api.example.org"),
        String::from("test.example.com"),
    ];

    let whitelisting_rules: Vec<String> = vec![
        String::from("api.example.org"),
        String::from("ALL .com"),
    ];

    // Check that no rule is loaded.
    for subject in &my_subjects {
        assert_eq!(ruler.is_whitelisted(subject), false);
    }

    ruler.parse_vec(&whitelisting_rules);

    assert_eq!(ruler.is_whitelisted(&String::from("example.com")), true);
    assert_eq!(ruler.is_whitelisted(&String::from("example.org")), false);
    assert_eq!(ruler.is_whitelisted(&String::from("api.example.org")), true);
    assert_eq!(ruler.is_whitelisted(&String::from("test.example.com")), true);

    ruler.unparse_vec(&whitelisting_rules);

    for subject in &my_subjects {
        assert_eq!(ruler.is_whitelisted(subject), false);
    }
}

#[test]
fn parse_twice_equals_parse_once() {
    let mut once = Ruler::new(true);
    let mut twice = Ruler::new(true);

    once.parse(&"ALL .example.org".to_string());
    twice.parse(&"ALL .example.org".to_string());
    twice.parse(&"ALL .example.org".to_string());

    for q in ["a.example.org", "example.org", "www.example.org", "other.org"] {
        assert_eq!(
            once.is_whitelisted(&q.to_string()),
            twice.is_whitelisted(&q.to_string())
        );
    }
    assert_eq!(
        sorted(once.strict_bucket("exam").unwrap().clone()),
        sorted(twice.strict_bucket("exam").unwrap().clone())
    );
    assert_eq!(
        sorted(once.ends_bucket("org").unwrap().clone()),
        sorted(twice.ends_bucket("org").unwrap().clone())
    );
}

#[test]
fn complement_symmetry_both_directions() {
    let mut ruler = Ruler::new(true);
    ruler.parse(&"example.org".to_string());
    assert!(ruler.is_whitelisted(&"example.org".to_string()));
    assert!(ruler.is_whitelisted(&"www.example.org".to_string()));

    let mut reverse = Ruler::new(true);
    reverse.parse(&"www.example.org".to_string());
    assert!(reverse.is_whitelisted(&"example.org".to_string()));
    assert!(reverse.is_whitelisted(&"www.example.org".to_string()));
}

#[test]
fn suffix_rule_is_dot_anchored() {
    let mut ruler = Ruler::new(false);
    ruler.parse(&"ALL .example.org".to_string());

    assert!(ruler.is_whitelisted(&"a.example.org".to_string()));
    assert!(ruler.is_whitelisted(&"example.org".to_string()));
    assert!(!ruler.is_whitelisted(&"bexample.org".to_string()));
}

#[test]
fn url_and_its_netloc_answer_alike() {
    let mut ruler = Ruler::new(false);
    ruler.parse(&"ALL .example.org".to_string());

    assert_eq!(
        ruler.is_whitelisted(&"https://x.example.org/path?q=1".to_string()),
        ruler.is_whitelisted(&"x.example.org".to_string())
    );
    assert!(ruler.is_whitelisted(&"https://x.example.org/path?q=1".to_string()));
}

#[test]
fn bucket_members_carry_their_key() {
    let mut ruler = Ruler::new(true);
    ruler.parse(&"example.org".to_string());
    ruler.parse(&"www.example.net".to_string());
    ruler.parse(&"ALL .example.com".to_string());
    ruler.unparse(&"example.org".to_string());

    for key in ruler.strict_keys() {
        for member in ruler.strict_bucket(&key).unwrap() {
            let reduced = ruler.reduce(member);
            let head: String = reduced.chars().take(4).collect();
            assert_eq!(head, key);
        }
    }
    for key in ruler.ends_keys() {
        for member in ruler.ends_bucket(&key).unwrap() {
            let reduced = ruler.reduce(member);
            let skip = reduced.chars().count().saturating_sub(3);
            let tail: String = reduced.chars().skip(skip).collect();
            assert_eq!(tail, key);
        }
    }
}

#[test]
fn filter_two_rules_complement_off() {
    let mut ruler = Ruler::new(false);
    ruler.parse_vec(&vec![
        "api.example.org".to_string(),
        "ALL .com".to_string(),
    ]);

    let lines = vec![
        "example.com".to_string(),
        "example.org".to_string(),
        "api.example.com".to_string(),
        "test.example.com".to_string(),
        "api.example.org".to_string(),
    ];

    assert_eq!(ruler.filter_lines(&lines), vec!["example.org".to_string()]);
}

#[test]
fn filter_two_rules_complement_on() {
    let mut ruler = Ruler::new(true);
    ruler.parse_vec(&vec![
        "api.example.org".to_string(),
        "ALL .com".to_string(),
    ]);

    let lines = vec!["www.api.example.org".to_string()];

    assert_eq!(ruler.filter_lines(&lines), Vec::<String>::new());
}

#[test]
fn filter_regex_rule() {
    let mut ruler = Ruler::new(false);
    ruler.parse(&"REG ^(www\\.)?bad\\.test$".to_string());

    let lines = vec![
        "bad.test".to_string(),
        "www.bad.test".to_string(),
        "other.test".to_string(),
    ];

    assert_eq!(ruler.filter_lines(&lines), vec!["other.test".to_string()]);
}

#[test]
fn filter_expansion_rule() {
    let mut ruler = Ruler::new(false);
    ruler.set_extensions(vec!["com".to_string(), "net".to_string()]);
    ruler.parse(&"RZD shop".to_string());

    let lines = vec![
        "shop.com".to_string(),
        "shop.net".to_string(),
        "shop.org".to_string(),
        "store.com".to_string(),
    ];

    assert_eq!(
        ruler.filter_lines(&lines),
        vec!["shop.org".to_string(), "store.com".to_string()]
    );
}

#[test]
fn suffix_rule_withdrawn_stops_matching() {
    let mut ruler = Ruler::new(false);
    ruler.parse(&"ALL .example.org".to_string());
    ruler.unparse(&"ALL .example.org".to_string());

    assert!(!ruler.is_whitelisted(&"x.example.org".to_string()));
}

#[test]
fn idna_lowercases_host_and_drops_port() {
    let mut ruler = Ruler::new(false);
    ruler.parse(&"example.org".to_string());

    let line = "https://EXAMPLE.org:8443/a".to_string();
    let normalized = ruler.idnaze_line(&line);

    assert_eq!(normalized, "example.org".to_string());
    assert!(ruler.is_whitelisted(&normalized));
    assert_eq!(ruler.process_line(&line), None);
}

#[test]
fn idna_encodes_unicode_labels() {
    let ruler = Ruler::new(false);

    assert_eq!(
        ruler.idnaze_line(&"bücher.example".to_string()),
        "xn--bcher-kva.example".to_string()
    );
}

#[test]
fn markers_match_in_any_ascii_case() {
    let mut ruler = Ruler::new(false);
    ruler.parse(&"aLl .example.org".to_string());

    assert!(ruler.is_whitelisted(&"x.example.org".to_string()));
}

#[test]
fn comments_and_blank_lines_are_discarded() {
    let mut ruler = Ruler::new(false);
    ruler.parse(&"".to_string());
    ruler.parse(&"# example.org".to_string());

    assert!(ruler.strict_keys().is_empty());
    assert!(ruler.ends_keys().is_empty());
    assert!(!ruler.is_whitelisted(&"".to_string()));
    assert!(!ruler.is_whitelisted(&"# example.org".to_string()));
}

#[test]
fn uncompilable_regex_rule_is_rolled_back() {
    let mut ruler = Ruler::new(false);
    ruler.parse(&"REG ^good\\.test$".to_string());
    ruler.parse(&"REG (".to_string());

    // The failed pattern left the disjunction untouched and compilable.
    assert_eq!(ruler.regex_string().as_str(), "^good\\.test$");
    assert_eq!(ruler.compiled_pattern(), "^good\\.test$");
    assert!(ruler.is_whitelisted(&"good.test".to_string()));
    assert!(!ruler.is_whitelisted(&"other.test".to_string()));
}

#[test]
fn expansion_rule_with_complement_covers_www_forms() {
    let mut ruler = Ruler::new(true);
    ruler.set_extensions(vec!["com".to_string()]);
    ruler.parse(&"RZD www.shop".to_string());

    assert!(ruler.is_whitelisted(&"shop.com".to_string()));
    assert!(ruler.is_whitelisted(&"www.shop.com".to_string()));
    assert!(!ruler.is_whitelisted(&"shop.net".to_string()));
}

#[test]
fn ends_bucket_tests_every_member() {
    let mut ruler = Ruler::new(false);
    ruler.parse(&"ALL .some.org".to_string());
    ruler.parse(&"ALL .org".to_string());

    // Both suffixes share the "org" bucket; the shorter one must match even
    // where the longer one does not.
    assert!(ruler.is_whitelisted(&"a.org".to_string()));
    assert!(ruler.is_whitelisted(&"b.some.org".to_string()));
    assert!(!ruler.is_whitelisted(&"c.net".to_string()));
}
