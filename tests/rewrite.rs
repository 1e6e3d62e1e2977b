use tcpforward::matcher::find;
use tcpforward::rewrite::{
    modify_buffer, password_segment, push_decimal, push_signed_decimal, replace, rewrite,
    LengthMarker, Rule, RuleSet,
};

fn rule(from: &[u8], to: &[u8]) -> Rule {
    Rule { from: from.to_vec(), to: to.to_vec() }
}

fn plain(rules: Vec<Rule>) -> RuleSet {
    RuleSet { strip: None, rules, marker: None }
}

fn with_marker(rules: Vec<Rule>, label: &[u8], base: u64) -> RuleSet {
    RuleSet {
        strip: None,
        rules,
        marker: Some(LengthMarker { label: label.to_vec(), base }),
    }
}

fn contains(hay: &[u8], needle: &[u8]) -> bool {
    hay.windows(needle.len()).any(|w| w == needle)
}

#[test]
fn find_returns_lowest_index() {
    assert_eq!(find(b"lo", b"hello lo"), Some(3));
    assert_eq!(find(b"aab", b"aaaab"), Some(2));
    assert_eq!(find(b"", b"abc"), Some(0));
    assert_eq!(find(b"xyz", b"abc"), None);
    assert_eq!(find(b"abcd", b"abc"), None);
}

#[test]
fn scenario_single_rule_shrinks_chunk() {
    let mut buf = b"XbeforeYc".to_vec();
    let delta = rewrite(&mut buf, 9, &plain(vec![rule(b"before", b"B4")]));
    assert_eq!(buf, b"XB4Yc".to_vec());
    assert_eq!(delta, -4);
}

#[test]
fn scenario_marker_follows_growth() {
    let chunk = b"HEAD LEN: 100\r\n\r\nbody abc tail of the page".to_vec();
    let mut buf = chunk.clone();
    let n = buf.len();
    let rules = with_marker(vec![rule(b"abc", b"abcdefgh")], b"LEN: ", 100);
    let delta = rewrite(&mut buf, n, &rules);
    assert!(contains(&buf, b"LEN: 105"));
    assert!(!contains(&buf, b"LEN: 100"));
    assert_eq!(buf, b"HEAD LEN: 105\r\n\r\nbody abcdefgh tail of the page".to_vec());
    assert_eq!(delta, 5);
}

#[test]
fn marker_follows_shrink() {
    let mut buf = b"LEN: 100|remove-me|end".to_vec();
    let n = buf.len();
    let delta = rewrite(&mut buf, n, &with_marker(vec![rule(b"remove-", b"")], b"LEN: ", 100));
    assert_eq!(buf, b"LEN: 93|me|end".to_vec());
    assert_eq!(delta, -8);
}

#[test]
fn marker_may_declare_a_negative_value() {
    let mut buf = b"LEN: 5|0123456789|end".to_vec();
    let n = buf.len();
    let delta = rewrite(&mut buf, n, &with_marker(vec![rule(b"0123456", b"")], b"LEN: ", 5));
    assert_eq!(buf, b"LEN: -2|789|end".to_vec());
    assert_eq!(delta, -6);
}

#[test]
fn marker_untouched_without_length_change() {
    let mut buf = b"LEN: 100 abc tail".to_vec();
    let n = buf.len();
    let delta = rewrite(&mut buf, n, &with_marker(vec![rule(b"abc", b"xyz")], b"LEN: ", 100));
    assert_eq!(buf, b"LEN: 100 xyz tail".to_vec());
    assert_eq!(delta, 0);
}

#[test]
fn missing_marker_is_a_pass_through() {
    let mut buf = b"no marker abc tail".to_vec();
    let n = buf.len();
    let delta = rewrite(&mut buf, n, &with_marker(vec![rule(b"abc", b"abcd")], b"LEN: ", 100));
    assert_eq!(buf, b"no marker abcd tail".to_vec());
    assert_eq!(delta, 1);
}

#[test]
fn only_first_occurrence_is_replaced() {
    let mut buf = b"ab-ab-tail".to_vec();
    replace(b"ab", b"Z", &mut buf, 10);
    assert_eq!(buf, b"Z-ab-tail".to_vec());
}

#[test]
fn match_reaching_the_bound_is_not_applied() {
    let mut buf = b"aaXY".to_vec();
    replace(b"XY", b"Q", &mut buf, 4);
    assert_eq!(buf, b"aaXY".to_vec());
    let mut buf = b"aaXYb".to_vec();
    replace(b"XY", b"Q", &mut buf, 5);
    assert_eq!(buf, b"aaQb".to_vec());
}

#[test]
fn replacement_reaching_the_bound_is_not_applied() {
    let mut buf = b"Xab".to_vec();
    replace(b"X", b"long", &mut buf, 3);
    assert_eq!(buf, b"Xab".to_vec());
}

#[test]
fn match_beyond_logical_length_is_not_applied() {
    let mut buf = b"valid|stale abc".to_vec();
    replace(b"abc", b"Q", &mut buf, 6);
    assert_eq!(buf, b"valid|stale abc".to_vec());
}

#[test]
fn rules_apply_in_order() {
    let mut buf = b"one two three".to_vec();
    let rules = plain(vec![rule(b"one", b"two"), rule(b"two", b"2")]);
    let delta = rewrite(&mut buf, 13, &rules);
    assert_eq!(buf, b"2 two three".to_vec());
    assert_eq!(delta, -2);
}

#[test]
fn strip_line_is_removed_first() {
    let mut buf = b"A: 1\r\nDrop: me\r\nB: 2\r\n".to_vec();
    let rules = RuleSet {
        strip: Some(b"Drop: me\r\n".to_vec()),
        rules: vec![],
        marker: None,
    };
    let n = buf.len();
    let delta = rewrite(&mut buf, n, &rules);
    assert_eq!(buf, b"A: 1\r\nB: 2\r\n".to_vec());
    assert_eq!(delta, -10);
}

#[test]
fn password_segment_fills_credentials() {
    assert_eq!(password_segment("pw"), b"s='admin',r='pw'".to_vec());
    assert_eq!(password_segment(""), b"s='admin',r=''".to_vec());
}

#[test]
fn login_rules_rewrite_page() {
    let mut buf = b"CONTENT-LENGTH: 6236\r\nX-Frame-Options: SAMEORIGIN\r\n\r\nA{this._beforeLogin()}B s=o.getValue(),r=n.getValue() C, and the rest of the page".to_vec();
    let n = buf.len();
    let segment = String::from_utf8(password_segment("pw")).unwrap();
    let delta = modify_buffer(&mut buf, n, &segment);
    assert_eq!(
        buf,
        b"CONTENT-LENGTH: 6239\r\n\r\nA{this._beforeLogin();this._onLogin()}B s='admin',r='pw' C, and the rest of the page".to_vec()
    );
    assert_eq!(delta, -26);
}

#[test]
fn decimal_forms() {
    let mut out = Vec::new();
    push_decimal(&mut out, 0);
    assert_eq!(out, b"0".to_vec());
    let mut out = b"n=".to_vec();
    push_decimal(&mut out, 6240);
    assert_eq!(out, b"n=6240".to_vec());
    let mut out = Vec::new();
    push_signed_decimal(&mut out, -42);
    assert_eq!(out, b"-42".to_vec());
    let mut out = Vec::new();
    push_signed_decimal(&mut out, 17);
    assert_eq!(out, b"17".to_vec());
}
