use agentcreds_core::error::AgentCredsError;
use agentcreds_core::encoding::{put_field, put_i64, put_opt_text, put_text, put_u32, put_u64};
use agentcreds_core::strings::{sorted_distinct, str_lt, StringSet};
use agentcreds_core::text::{eq_ignore_case, is_all_blank, parse_u64, split_nth, trim_char};
use agentcreds_core::time::Timestamp;

#[test]
fn fields_are_preceded_by_their_lengths() {
    let mut m = Vec::new();
    put_text(&mut m, "\u{e9}");
    put_u64(&mut m, 258);
    put_u32(&mut m, 3);
    put_i64(&mut m, -1);
    put_field(&mut m, &[9, 8]);
    put_opt_text(&mut m, &None);
    put_opt_text(&mut m, &Some("a".into()));
    assert_eq!(
        m,
        [
            2, 0, 0, 0, 0, 0, 0, 0, 0xc3, 0xa9, 2, 1, 0, 0, 0, 0, 0, 0, 3, 0, 0, 0, 255, 255, 255,
            255, 255, 255, 255, 255, 2, 0, 0, 0, 0, 0, 0, 0, 9, 8, 0, 1, 1, 0, 0, 0, 0, 0, 0, 0,
            97
        ]
    );
}

#[test]
fn strings_are_ordered_as_rust_orders_them() {
    let all = ["", "a", "aa", "b", "\u{e9}", "\u{1f600}", "\u{fb33}", "B"];
    for a in all {
        for b in all {
            assert_eq!(str_lt(a, b), a < b, "{a} {b}");
        }
    }
    let v: Vec<String> = ["b", "a", "b", ""].iter().map(|s| s.to_string()).collect();
    assert_eq!(sorted_distinct(&v), ["", "a", "b"]);
    let mut set = StringSet::new();
    assert!(set.is_empty());
    assert!(set.insert("x".into()));
    assert!(!set.insert("x".into()));
    assert_eq!(set.len(), 1);
    assert!(set.contains("x") && !set.contains("y"));
}

#[test]
fn texts_are_compared_and_cut() {
    assert!(eq_ignore_case("AbC-\u{e9}", "aBc-\u{e9}"));
    assert!(!eq_ignore_case("\u{c9}", "\u{e9}"));
    assert!(!eq_ignore_case("a", "ab"));
    assert!(is_all_blank(" \t\u{a0}\u{3000}\n"));
    assert!(is_all_blank(""));
    assert!(!is_all_blank(" x "));
    assert_eq!(parse_u64("+0042"), Some(42));
    assert_eq!(parse_u64("18446744073709551616"), None);
    assert_eq!(split_nth("a:b::c", ':', 2).as_deref(), Some(""));
    assert_eq!(split_nth("a:b", ':', 2), None);
    assert_eq!(trim_char("//a/b/", '/'), "a/b");
}

#[test]
fn instants_are_bounded_and_ordered() {
    let t = Timestamp::from_unix(1_700_000_000, 250).unwrap();
    assert_eq!(t.timestamp(), 1_700_000_000);
    assert_eq!(t.subsec_nanos(), 250);
    assert_eq!(t.plus_secs(60).timestamp(), 1_700_000_060);
    assert_eq!(t.plus_secs(60).seconds_since(&t), 60);
    assert!(t.plus_secs(1).is_after(&t) && !t.is_after(&t));
    assert_eq!(t.earlier(t.plus_secs(1)), t);
    assert!(Timestamp::from_unix(0, 1_000_000_000).is_none());
    assert!(Timestamp::from_unix(i64::MAX, 0).is_none());
    let last = t.plus_secs(u64::MAX);
    assert_eq!(last.plus_secs(1), last);
    // Before the epoch too.
    assert_eq!(Timestamp::from_unix(-5, 1).unwrap().timestamp(), -5);
}

#[test]
fn every_error_says_what_went_wrong() {
    let cases: Vec<(AgentCredsError, &str)> = vec![
        (
            AgentCredsError::MissingField { field: "f" },
            "missing required field: f",
        ),
        (
            AgentCredsError::OutOfBounds {
                field: "f",
                detail: "d".into(),
            },
            "value out of bounds for field 'f': d",
        ),
        (
            AgentCredsError::ActingForMismatch {
                required: "a".into(),
                asserted: None,
            },
            "token is bound to 'a'",
        ),
        (
            AgentCredsError::DelegationDepthExceeded { depth: 4, max: 3 },
            "4",
        ),
        (
            AgentCredsError::ScopeWideningAttempt {
                capability: "tool:x".into(),
            },
            "tool:x",
        ),
    ];
    for (e, part) in cases {
        assert!(e.to_string().contains(part), "{}", e.to_string());
    }
}
