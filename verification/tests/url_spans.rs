use url_scan::url::{Span, UrlScanner};

#[test]
fn simple_url() {
    let s = UrlScanner { trigger: ':' };
    assert_eq!(
        s.scan("http://example.com", 4),
        Some(Span { start: 0, end: 18 })
    );
}

#[test]
fn scan_is_deterministic() {
    let s = UrlScanner { trigger: ':' };
    let first = s.scan("see http://example.com/a)", 8);
    let second = s.scan("see http://example.com/a)", 8);
    assert_eq!(first, second);
    assert_eq!(first, Some(Span { start: 4, end: 24 }));
}

#[test]
fn scheme_after_digit_rejected() {
    let s = UrlScanner { trigger: ':' };
    assert_eq!(s.scan("1abc://x", 4), None);
}

#[test]
fn scheme_after_dot_accepted() {
    let s = UrlScanner { trigger: ':' };
    // The dot acts as a separator; the scheme starts at its first letter.
    assert_eq!(s.scan(".abc://x", 4), Some(Span { start: 1, end: 8 }));
}

#[test]
fn digit_inside_scheme_accepted() {
    let s = UrlScanner { trigger: ':' };
    assert_eq!(s.scan("a1b://x", 3), Some(Span { start: 0, end: 7 }));
}

#[test]
fn digit_run_before_scheme() {
    let s = UrlScanner { trigger: ':' };
    // Only a digit directly before the first letter rejects the scheme:
    // here the recorded digit is the leftmost one, so "ab" still matches.
    assert_eq!(s.scan("12ab://x", 4), Some(Span { start: 2, end: 8 }));
}

#[test]
fn trailing_paren_excluded_when_balanced() {
    let s = UrlScanner { trigger: ':' };
    assert_eq!(
        s.scan("see (http://example.com)", 9),
        Some(Span { start: 5, end: 23 })
    );
}

#[test]
fn unmatched_closing_paren_stops_scan() {
    let s = UrlScanner { trigger: ':' };
    assert_eq!(
        s.scan("see http://example.com/a)", 8),
        Some(Span { start: 4, end: 24 })
    );
}

#[test]
fn balanced_parens_kept_in_url() {
    let s = UrlScanner { trigger: ':' };
    assert_eq!(
        s.scan("http://en.org/x_(y)", 4),
        Some(Span { start: 0, end: 19 })
    );
}

#[test]
fn square_brackets_balanced() {
    let s = UrlScanner { trigger: ':' };
    assert_eq!(s.scan("http://x[1]", 4), Some(Span { start: 0, end: 11 }));
}

#[test]
fn unmatched_closing_curly_stops_scan() {
    let s = UrlScanner { trigger: ':' };
    assert_eq!(s.scan("http://x}", 4), Some(Span { start: 0, end: 8 }));
}

#[test]
fn trailing_quote_excluded_when_count_odd() {
    let s = UrlScanner { trigger: ':' };
    assert_eq!(
        s.scan("'http://example.com'", 5),
        Some(Span { start: 1, end: 19 })
    );
}

#[test]
fn mid_url_apostrophe_kept() {
    let s = UrlScanner { trigger: ':' };
    assert_eq!(
        s.scan("http://example.com/don't", 4),
        Some(Span { start: 0, end: 24 })
    );
}

#[test]
fn trailing_quote_kept_when_count_even() {
    let s = UrlScanner { trigger: ':' };
    assert_eq!(s.scan("http://x''", 4), Some(Span { start: 0, end: 10 }));
}

#[test]
fn protocol_relative_url() {
    let s = UrlScanner { trigger: '/' };
    assert_eq!(
        s.scan("//example.org/path", 0),
        Some(Span { start: 0, end: 18 })
    );
}

#[test]
fn protocol_relative_needs_empty_prefix() {
    let s = UrlScanner { trigger: '/' };
    assert_eq!(s.scan("see //example.org", 4), None);
}

#[test]
fn space_terminates_url() {
    let s = UrlScanner { trigger: ':' };
    assert_eq!(
        s.scan("http://example.com a", 4),
        Some(Span { start: 0, end: 18 })
    );
}

#[test]
fn separator_not_present() {
    let s = UrlScanner { trigger: ':' };
    assert_eq!(s.scan("http:/xx", 4), None);
}

#[test]
fn nothing_after_separator() {
    let s = UrlScanner { trigger: ':' };
    assert_eq!(s.scan("http://", 4), None);
}

#[test]
fn no_scheme_before_colon() {
    let s = UrlScanner { trigger: ':' };
    assert_eq!(s.scan("://x", 0), None);
}

#[test]
fn no_eligible_end_character() {
    let s = UrlScanner { trigger: ':' };
    assert_eq!(s.scan("http://?", 4), None);
}

#[test]
fn closing_paren_right_after_separator() {
    let s = UrlScanner { trigger: ':' };
    assert_eq!(s.scan("http://)", 4), None);
}

#[test]
fn slash_after_trailing_punct_not_an_end() {
    let s = UrlScanner { trigger: ':' };
    // '.' cannot end a URL, so the '/' right after it cannot either.
    assert_eq!(s.scan("http://x./", 4), Some(Span { start: 0, end: 8 }));
}

#[test]
fn trigger_index_out_of_range() {
    let s = UrlScanner { trigger: ':' };
    assert_eq!(s.scan("ab", 5), None);
    assert_eq!(s.scan("", 0), None);
}

#[test]
fn offsets_count_scalar_values() {
    let s = UrlScanner { trigger: ':' };
    // Non-ASCII characters count as one offset each.
    let text = "\u{2192} http://ex\u{e4}mple.com/\u{3c0} \u{2190}";
    assert_eq!(s.scan(text, 6), Some(Span { start: 2, end: 22 }));
}

#[test]
fn control_character_terminates_url() {
    let s = UrlScanner { trigger: ':' };
    assert_eq!(
        s.scan("http://example.com\tmore", 4),
        Some(Span { start: 0, end: 18 })
    );
}
