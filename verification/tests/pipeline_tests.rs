use line_filter::assemble::OutputParts;
use line_filter::config::{Config, SelectionMode};
use line_filter::filter::FilterPredicate;
use line_filter::pipeline::process_line;

fn line_of(out: &OutputParts) -> Vec<u8> {
    out.to_line()
}

#[test]
fn markers_select_and_filter_integers() {
    let mut cfg = Config::passthrough();
    cfg.selection = SelectionMode::Markers(b"[".to_vec(), b"]".to_vec());
    cfg.delimiter = b",".to_vec();
    cfg.predicate = FilterPredicate::IsInteger(true);
    let out = process_line(&cfg, b"abc[1,2,3]def");
    assert_eq!(line_of(&out), b"abc2def".to_vec());
    assert_eq!(out.prefix, b"abc".to_vec());
    assert_eq!(out.middle, b"2".to_vec());
    assert_eq!(out.suffix, b"def".to_vec());
}

#[test]
fn hide_suppresses_prefix_only() {
    let mut cfg = Config::passthrough();
    cfg.selection = SelectionMode::Markers(b"[".to_vec(), b"]".to_vec());
    cfg.delimiter = b",".to_vec();
    cfg.predicate = FilterPredicate::IsInteger(true);
    cfg.hide = true;
    let out = process_line(&cfg, b"abc[1,2,3]def");
    assert_eq!(line_of(&out), b"2def".to_vec());
}

#[test]
fn range_override_replaces_tokens() {
    let mut cfg = Config::passthrough();
    cfg.selection = SelectionMode::Markers(b"[".to_vec(), b"]".to_vec());
    cfg.delimiter = b",".to_vec();
    cfg.predicate = FilterPredicate::IsInteger(true);
    cfg.range = Some((0, 3));
    let out = process_line(&cfg, b"abc[1,2,3]def");
    assert_eq!(line_of(&out), b"abc0,1,2def".to_vec());
}

#[test]
fn range_override_joined_with_separator() {
    let mut cfg = Config::passthrough();
    cfg.selection = SelectionMode::Markers(b"[".to_vec(), b"]".to_vec());
    cfg.delimiter = b",".to_vec();
    cfg.separator = Some(b"-".to_vec());
    cfg.range = Some((0, 3));
    let out = process_line(&cfg, b"abc[1,2,3]def");
    assert_eq!(line_of(&out), b"abc0-1-2def".to_vec());
}

#[test]
fn no_selection_passes_line_through() {
    let cfg = Config::passthrough();
    let out = process_line(&cfg, b"hello world");
    assert_eq!(line_of(&out), b"hello world".to_vec());
}

#[test]
fn no_selection_passes_empty_line_through() {
    let cfg = Config::passthrough();
    let out = process_line(&cfg, b"");
    assert_eq!(line_of(&out), b"".to_vec());
}

#[test]
fn positions_out_of_range_pass_line_through() {
    let mut cfg = Config::passthrough();
    cfg.selection = SelectionMode::Positions(0, 99);
    cfg.delimiter = b",".to_vec();
    let out = process_line(&cfg, b"hej");
    assert_eq!(line_of(&out), b"hej".to_vec());
}

#[test]
fn inverted_markers_pass_line_through() {
    let mut cfg = Config::passthrough();
    cfg.selection = SelectionMode::Markers(b"[".to_vec(), b"]".to_vec());
    cfg.delimiter = b",".to_vec();
    let out = process_line(&cfg, b"b]a[");
    assert_eq!(line_of(&out), b"b]a[".to_vec());
}

#[test]
fn missing_marker_passes_line_through() {
    let mut cfg = Config::passthrough();
    cfg.selection = SelectionMode::Markers(b"<".to_vec(), b">".to_vec());
    cfg.delimiter = b",".to_vec();
    let out = process_line(&cfg, b"no markers here");
    assert_eq!(line_of(&out), b"no markers here".to_vec());
}

#[test]
fn positions_select_multibyte_characters() {
    // "h é l l o": the second character spans two bytes.
    let mut cfg = Config::passthrough();
    cfg.selection = SelectionMode::Positions(2, 3);
    cfg.separator = Some(b"-".to_vec());
    let line = "h\u{e9}llo".as_bytes();
    let out = process_line(&cfg, line);
    // Selection is "él"; the empty delimiter splits it into characters.
    let expected = "h\u{e9}-llo".as_bytes().to_vec();
    assert_eq!(line_of(&out), expected);
}

#[test]
fn empty_delimiter_round_trips_selection() {
    let mut cfg = Config::passthrough();
    cfg.selection = SelectionMode::Markers(b"[".to_vec(), b"]".to_vec());
    let line = "a[b\u{e9}]c".as_bytes();
    let out = process_line(&cfg, line);
    assert_eq!(line_of(&out), line.to_vec());
}

#[test]
fn empty_tokens_survive_round_trip() {
    let mut cfg = Config::passthrough();
    cfg.selection = SelectionMode::Markers(b"a".to_vec(), b"b".to_vec());
    cfg.delimiter = b",".to_vec();
    let out = process_line(&cfg, b"a,,b");
    assert_eq!(line_of(&out), b"a,,b".to_vec());
}

#[test]
fn separator_replaces_delimiter_in_output() {
    let mut cfg = Config::passthrough();
    cfg.selection = SelectionMode::Markers(b"[".to_vec(), b"]".to_vec());
    cfg.delimiter = b",".to_vec();
    cfg.separator = Some(b"-".to_vec());
    let out = process_line(&cfg, b"x[1,2]y");
    assert_eq!(line_of(&out), b"x[1-2]y".to_vec());
}

#[test]
fn clear_discards_line() {
    let mut cfg = Config::passthrough();
    cfg.selection = SelectionMode::Markers(b"[".to_vec(), b"]".to_vec());
    cfg.delimiter = b",".to_vec();
    cfg.clear = true;
    let out = process_line(&cfg, b"abc[1,2,3]def");
    assert_eq!(line_of(&out), b"".to_vec());
}

#[test]
fn shuffled_pipeline_keeps_token_multiset() {
    let mut cfg = Config::passthrough();
    cfg.selection = SelectionMode::Markers(b"[".to_vec(), b"]".to_vec());
    cfg.delimiter = b",".to_vec();
    cfg.range = Some((0, 6));
    cfg.shuffle = true;
    for _ in 0..20 {
        let out = process_line(&cfg, b"x[1]y");
        assert_eq!(out.prefix, b"x".to_vec());
        assert_eq!(out.suffix, b"y".to_vec());
        let mut tokens: Vec<Vec<u8>> = out
            .middle
            .split(|b| *b == b',')
            .map(|t| t.to_vec())
            .collect();
        tokens.sort();
        let expected: Vec<Vec<u8>> = (0..6).map(|n: i64| n.to_string().into_bytes()).collect();
        assert_eq!(tokens, expected);
    }
}
