use poise::prefix::{decimal_chars, match_configured_prefix, strip_mention, strip_prefix, PatternMatch, Prefix};

fn pair(a: &str, b: &str) -> Option<(String, String)> {
    Some((a.to_string(), b.to_string()))
}

#[test]
fn fixed_prefix() {
    assert_eq!(strip_prefix("~ping", &None, &Some("~".to_string()), &vec![], None, None), pair("~", "ping"));
    assert_eq!(strip_prefix("ping", &None, &Some("~".to_string()), &vec![], None, None), None);
}

#[test]
fn dynamic_prefix_comes_first() {
    assert_eq!(
        strip_prefix("!!x", &Some("!!".to_string()), &Some("!".to_string()), &vec![], None, None),
        pair("!!", "x"),
    );
    assert_eq!(
        strip_prefix("!x", &Some("?".to_string()), &Some("!".to_string()), &vec![], None, None),
        pair("!", "x"),
    );
}

#[test]
fn additional_prefixes_in_order() {
    let extra = vec![
        Prefix::Literal("hey".to_string()),
        Prefix::Pattern(Some(PatternMatch { start: 0, end: 5 })),
    ];
    assert_eq!(strip_prefix("hey bot", &None, &None, &extra, None, None), pair("hey", " bot"));
    assert_eq!(strip_prefix("yo!! go", &None, &None, &extra, None, None), pair("yo!! ", "go"));
    let later = vec![Prefix::Pattern(Some(PatternMatch { start: 2, end: 5 }))];
    assert_eq!(strip_prefix("yo!! go", &None, &None, &later, None, None), None);
}

#[test]
fn stripped_dynamic_prefix() {
    assert_eq!(
        strip_prefix("abc", &None, &None, &vec![], Some(("a".to_string(), "zz".to_string())), None),
        pair("a", "zz"),
    );
}

#[test]
fn mention_as_prefix() {
    assert_eq!(strip_prefix("<@123> help", &None, &None, &vec![], None, Some(123)), pair("<@123>", " help"));
    assert_eq!(strip_prefix("<@!123>help", &None, &None, &vec![], None, Some(123)), pair("<@!123>", "help"));
    assert_eq!(strip_prefix("<@124> help", &None, &None, &vec![], None, Some(123)), None);
    assert_eq!(strip_prefix("<@123> help", &None, &None, &vec![], None, None), None);
}

#[test]
fn ordinary_chat_is_no_invocation() {
    assert_eq!(strip_prefix("hello there", &None, &Some("~".to_string()), &vec![], None, Some(1)), None);
}

#[test]
fn decimal_digits() {
    assert_eq!(decimal_chars(0), vec!['0']);
    assert_eq!(decimal_chars(9075), vec!['9', '0', '7', '5']);
    assert_eq!(decimal_chars(u64::MAX).len(), 20);
}

#[test]
fn configured_strategies_alone() {
    assert_eq!(match_configured_prefix("~ping", &None, &Some("~".to_string()), &vec![]), pair("~", "ping"));
    assert_eq!(match_configured_prefix("<@1> ping", &None, &Some("~".to_string()), &vec![]), None);
}

#[test]
fn mention_strategy_alone() {
    assert_eq!(strip_mention("<@!!42>x", 42), pair("<@!!42>", "x"));
    assert_eq!(strip_mention("<@42", 42), None);
}
