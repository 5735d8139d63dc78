use line_filter::filter::{eval_predicate, filter_retained, token_retained, FilterPredicate};
use line_filter::indexer::{count_chars, end_idx, start_idx, IndexError};
use line_filter::locator::{find_start_end, find_sub};
use line_filter::numeric::{dec_of_i64, generate_range};
use line_filter::shuffle::shuffle;
use line_filter::tokens::split_tokens;

fn toks(ts: &[&str]) -> Vec<Vec<u8>> {
    ts.iter().map(|t| t.as_bytes().to_vec()).collect()
}

#[test]
fn count_chars_is_utf8_aware() {
    assert_eq!(count_chars(b"hello"), 5);
    assert_eq!(count_chars("h\u{e9}llo".as_bytes()), 5);
    assert_eq!(count_chars("\u{65e5}\u{672c}".as_bytes()), 2);
    assert_eq!(count_chars(b""), 0);
}

#[test]
fn start_idx_sums_preceding_char_widths() {
    let line = "h\u{e9}llo".as_bytes();
    assert_eq!(start_idx(line, 1), Ok(0));
    assert_eq!(start_idx(line, 2), Ok(1));
    assert_eq!(start_idx(line, 3), Ok(3));
    assert_eq!(start_idx(line, 5), Ok(5));
}

#[test]
fn end_idx_includes_char_width() {
    let line = "h\u{e9}llo".as_bytes();
    assert_eq!(end_idx(line, 1), Ok(1));
    assert_eq!(end_idx(line, 2), Ok(3));
    assert_eq!(end_idx(line, 5), Ok(6));
}

#[test]
fn position_zero_or_past_end_is_rejected() {
    let line = b"abc";
    assert_eq!(start_idx(line, 0), Err(IndexError::PositionOutOfRange));
    assert_eq!(start_idx(line, 4), Err(IndexError::PositionOutOfRange));
    assert_eq!(end_idx(line, 0), Err(IndexError::PositionOutOfRange));
    assert_eq!(end_idx(line, 4), Err(IndexError::PositionOutOfRange));
}

#[test]
fn find_sub_reports_first_occurrence() {
    assert_eq!(find_sub(b"abcabc", b"bc"), Some(1));
    assert_eq!(find_sub(b"abcabc", b"zz"), None);
    assert_eq!(find_sub(b"abc", b""), Some(0));
    assert_eq!(find_sub(b"", b"a"), None);
}

#[test]
fn find_start_end_includes_end_marker() {
    let span = find_start_end(b"a[b]c", b"[", b"]");
    assert_eq!(span.start, 1);
    assert_eq!(span.end, 4);
    assert_eq!(span.total_len, 5);
}

#[test]
fn find_start_end_degenerates_when_marker_missing() {
    let span = find_start_end(b"a[b c", b"[", b"]");
    assert_eq!((span.start, span.end, span.total_len), (0, 0, 5));
    let span = find_start_end(b"ab]c", b"[", b"]");
    assert_eq!((span.start, span.end, span.total_len), (0, 0, 4));
}

#[test]
fn split_keeps_empty_tokens() {
    let ts = split_tokens(b"a,,b", b",");
    assert_eq!(ts, toks(&["a", "", "b"]));
    let ts = split_tokens(b"", b",");
    assert_eq!(ts, toks(&[""]));
}

#[test]
fn empty_delimiter_splits_into_characters() {
    let ts = split_tokens("a\u{e9}b".as_bytes(), b"");
    assert_eq!(ts, toks(&["a", "\u{e9}", "b"]));
    let ts = split_tokens(b"", b"");
    assert_eq!(ts, Vec::<Vec<u8>>::new());
}

#[test]
fn integer_predicate_matches_64_bit_parsing() {
    let p = FilterPredicate::IsInteger(true);
    assert!(eval_predicate(p, &b"42".to_vec()));
    assert!(eval_predicate(p, &b"+42".to_vec()));
    assert!(eval_predicate(p, &b"-42".to_vec()));
    assert!(eval_predicate(p, &b"9223372036854775807".to_vec()));
    assert!(eval_predicate(p, &b"-9223372036854775808".to_vec()));
    assert!(!eval_predicate(p, &b"9223372036854775808".to_vec()));
    assert!(!eval_predicate(p, &b"".to_vec()));
    assert!(!eval_predicate(p, &b"-".to_vec()));
    assert!(!eval_predicate(p, &b"+".to_vec()));
    assert!(!eval_predicate(p, &b"1 ".to_vec()));
    assert!(!eval_predicate(p, &b"12a".to_vec()));
    assert!(!eval_predicate(p, &b"99999999999999999999999999".to_vec()));
}

#[test]
fn float_predicate_re_tests_integers_at_32_bits() {
    let p = FilterPredicate::IsFloat(true);
    assert!(eval_predicate(p, &b"2147483647".to_vec()));
    assert!(eval_predicate(p, &b"-2147483648".to_vec()));
    assert!(!eval_predicate(p, &b"3000000000".to_vec()));
    assert!(!eval_predicate(p, &b"2.5".to_vec()));
    assert!(eval_predicate(
        FilterPredicate::IsInteger(true),
        &b"3000000000".to_vec()
    ));
}

#[test]
fn ascii_predicate_checks_every_byte() {
    assert!(eval_predicate(FilterPredicate::IsAscii(true), &b"abc".to_vec()));
    assert!(!eval_predicate(
        FilterPredicate::IsAscii(true),
        &"\u{e9}".as_bytes().to_vec()
    ));
    assert!(eval_predicate(
        FilterPredicate::IsAscii(false),
        &"\u{e9}".as_bytes().to_vec()
    ));
}

#[test]
fn inverted_identity_predicate_drops_everything() {
    assert!(!eval_predicate(FilterPredicate::Always(false), &b"x".to_vec()));
    assert!(eval_predicate(FilterPredicate::Always(true), &b"x".to_vec()));
}

#[test]
fn exclusion_is_a_contains_match() {
    let excl = toks(&["x"]);
    let p = FilterPredicate::Always(true);
    assert!(!token_retained(&b"3x".to_vec(), &excl, p));
    assert!(!token_retained(&b"x".to_vec(), &excl, p));
    assert!(token_retained(&b"3".to_vec(), &excl, p));
    let excl = toks(&["3x"]);
    assert!(token_retained(&b"x".to_vec(), &excl, p));
}

#[test]
fn exclusion_and_predicate_compose() {
    let tokens = toks(&["12", "ab", "3x"]);
    let excl = toks(&["x"]);
    let kept = filter_retained(tokens, &excl, FilterPredicate::IsInteger(true));
    assert_eq!(kept, toks(&["12"]));
}

#[test]
fn generated_range_is_consecutive_decimal_strings() {
    assert_eq!(generate_range(-2, 3), toks(&["-2", "-1", "0", "1", "2"]));
    assert_eq!(generate_range(5, 5), Vec::<Vec<u8>>::new());
    assert_eq!(generate_range(3, 1), Vec::<Vec<u8>>::new());
    assert_eq!(generate_range(0, 1), toks(&["0"]));
}

#[test]
fn decimal_rendering_matches_to_string() {
    for n in [0i64, 7, -7, 10, -10, 1234567890, i64::MAX, i64::MIN] {
        assert_eq!(dec_of_i64(n), n.to_string().into_bytes());
    }
}

#[test]
fn shuffle_preserves_token_multiset() {
    for _ in 0..20 {
        let mut tokens = toks(&["a", "b", "c", "d", "e", "a", "a"]);
        shuffle(&mut tokens);
        let mut sorted = tokens.clone();
        sorted.sort();
        assert_eq!(sorted, toks(&["a", "a", "a", "b", "c", "d", "e"]));
    }
}

#[test]
fn shuffle_of_short_sequences_is_identity() {
    let mut tokens = toks(&["only"]);
    shuffle(&mut tokens);
    assert_eq!(tokens, toks(&["only"]));
    let mut tokens: Vec<Vec<u8>> = Vec::new();
    shuffle(&mut tokens);
    assert!(tokens.is_empty());
}
