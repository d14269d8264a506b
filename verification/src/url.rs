use vstd::prelude::*;
use vstd::string::StrSliceExecFns;

verus! {

// A URL scanner anchored at a trigger character. The text is addressed by
// Unicode scalar-value offsets: a span's `start` and `end` index into the
// sequence of scalar values of the scanned text, `end` exclusive.

/// A half-open range of scalar-value offsets into the scanned text.
#[derive(Clone, Copy, PartialEq, Eq, Debug)]
pub struct Span {
    pub start: usize,
    pub end: usize,
}

/// Scan for URLs starting from the trigger character ':' (requires "://"),
/// or '/' (requires "//", for protocol-relative URLs).
///
/// Based on RFC 3986.
pub struct UrlScanner {
    pub trigger: char,
}

/// True of the ASCII letters, the only characters that may begin a scheme.
pub open spec fn is_ascii_letter(c: char) -> bool {
    ('a' <= c && c <= 'z') || ('A' <= c && c <= 'Z')
}

/// True of the ASCII digits.
pub open spec fn is_ascii_digit(c: char) -> bool {
    '0' <= c && c <= '9'
}

/// True of every character that may appear in a scheme: letters, digits,
/// and the scheme specials '+', '-' and '.'.
pub open spec fn is_scheme_char(c: char) -> bool {
    is_ascii_letter(c) || is_ascii_digit(c) || c == '+' || c == '-' || c == '.'
}

/// The start of the maximal suffix of `s` made of scheme characters: the
/// smallest offset `k` such that every character at or after `k` is a scheme
/// character. Equals `s.len()` when the last character is not one.
pub open spec fn scheme_start(s: Seq<char>) -> int
    decreases s.len(),
{
    if s.len() == 0 {
        0
    } else if !is_scheme_char(s.last()) {
        s.len() as int
    } else {
        scheme_start(s.drop_last())
    }
}

/// The smallest offset at or after `k` holding an ASCII letter, if any.
pub open spec fn first_letter_from(s: Seq<char>, k: int) -> Option<int>
    decreases s.len() - k,
{
    if k < 0 || k >= s.len() {
        None
    } else if is_ascii_letter(s[k]) {
        Some(k)
    } else {
        first_letter_from(s, k + 1)
    }
}

/// The smallest offset at or after `k` holding an ASCII digit, if any.
pub open spec fn first_digit_from(s: Seq<char>, k: int) -> Option<int>
    decreases s.len() - k,
{
    if k < 0 || k >= s.len() {
        None
    } else if is_ascii_digit(s[k]) {
        Some(k)
    } else {
        first_digit_from(s, k + 1)
    }
}

/// What the start-boundary search returns on the text before the trigger:
/// the first letter of the scheme, offset 0 for a protocol-relative URL
/// (empty prefix with the '/' trigger), or nothing. A scheme whose first
/// letter directly follows a digit is rejected, so that no scheme is read
/// out of the middle of a word such as "1abc".
pub open spec fn find_start_spec(trigger: char, s: Seq<char>) -> Option<int> {
    if s.len() == 0 && trigger == '/' {
        Some(0)
    } else {
        let k = scheme_start(s);
        match (first_letter_from(s, k), first_digit_from(s, k)) {
            (Some(f), Some(d)) => if f > 0 && d == f - 1 {
                None
            } else {
                Some(f)
            },
            (r, _) => r,
        }
    }
}

/// `scheme_start` is the unique boundary: if everything from `k` on is a
/// scheme character and `k` is 0 or preceded by a non-scheme character,
/// then `scheme_start(s)` is `k`.
proof fn lemma_scheme_start_at(s: Seq<char>, k: int)
    requires
        0 <= k <= s.len(),
        forall|m: int| k <= m < s.len() ==> is_scheme_char(s[m]),
        k == 0 || !is_scheme_char(s[k - 1]),
    ensures
        scheme_start(s) == k,
    decreases s.len(),
{
    if s.len() == 0 {
    } else if !is_scheme_char(s.last()) {
        assert(k == s.len());
    } else {
        assert(k < s.len());
        lemma_scheme_start_at(s.drop_last(), k);
    }
}

/// A found first letter lies inside the text, at or after `k`.
proof fn lemma_first_letter_from_bounds(s: Seq<char>, k: int)
    requires
        0 <= k,
    ensures
        (match first_letter_from(s, k) {
            Some(f) => k <= f < s.len() && is_ascii_letter(s[f]),
            None => true,
        }),
    decreases s.len() - k,
{
    if k < s.len() && !is_ascii_letter(s[k]) {
        lemma_first_letter_from_bounds(s, k + 1);
    }
}

/// The scheme-suffix boundary lies inside the text.
proof fn lemma_scheme_start_bounds(s: Seq<char>)
    ensures
        0 <= scheme_start(s) <= s.len(),
    decreases s.len(),
{
    if s.len() > 0 && is_scheme_char(s.last()) {
        lemma_scheme_start_bounds(s.drop_last());
    }
}

/// A found start offset lies inside the text, or is 0 on an empty prefix.
pub proof fn lemma_find_start_spec_bounds(trigger: char, s: Seq<char>)
    ensures
        (match find_start_spec(trigger, s) {
            Some(f) => 0 <= f && (f < s.len() || (f == 0 && s.len() == 0)),
            None => true,
        }),
{
    lemma_scheme_start_bounds(s);
    lemma_first_letter_from_bounds(s, scheme_start(s));
}

/// True of the characters that can never be part of a URL and stop the
/// forward scan at once: controls, space, '"', '<', '>' and backtick.
/// See RFC 3986 and RFC 3987. Some characters outside "unreserved" and
/// "reserved" are still let through ('\\', '^', '{', '|', '}') because other
/// link detectors also allow them; the braces are required to be balanced
/// instead.
pub open spec fn is_terminator(c: char) -> bool {
    c <= '\u{1F}' || c == ' ' || c == '"' || c == '<' || c == '>' || c == '`'
        || ('\u{7F}' <= c && c <= '\u{9F}')
}

/// True of the punctuation that may appear inside a URL but not at its end.
pub open spec fn is_trailing_punct(c: char) -> bool {
    c == '?' || c == '!' || c == '.' || c == ',' || c == ':' || c == ';'
}

/// Whether a character just read may legally be the last one of the URL.
/// `prev` is the same eligibility of the character before it; `quote` is the
/// single-quote parity after this character was counted (true when the
/// running number of quotes is odd).
pub open spec fn can_end_here(c: char, prev: bool, quote: bool) -> bool {
    if is_trailing_punct(c) {
        false
    } else if c == '/' {
        prev
    } else if c == '(' || c == '[' || c == '{' {
        false
    } else if c == ')' || c == ']' || c == '}' {
        true
    } else if c == '\'' {
        !quote
    } else {
        true
    }
}

/// One forward scan over `s` from offset `i` on, carrying the three bracket
/// balance counters, the quote parity, the eligibility of the previous
/// character and the best end recorded so far; yields the offset one past
/// the last character that may end the URL. The scan stops on a terminator
/// or when a bracket kind's balance would go negative; the three counters
/// are independent, so mismatched nesting across kinds is not detected.
pub open spec fn end_scan(
    s: Seq<char>,
    i: int,
    round: int,
    square: int,
    curly: int,
    quote: bool,
    prev: bool,
    best: Option<int>,
) -> Option<int>
    decreases s.len() - i,
{
    if i < 0 || i >= s.len() {
        best
    } else {
        let c = s[i];
        if is_terminator(c) {
            best
        } else if c == ')' && round <= 0 {
            best
        } else if c == ']' && square <= 0 {
            best
        } else if c == '}' && curly <= 0 {
            best
        } else {
            let round2 = if c == '(' { round + 1 } else if c == ')' { round - 1 } else { round };
            let square2 = if c == '[' { square + 1 } else if c == ']' { square - 1 } else { square };
            let curly2 = if c == '{' { curly + 1 } else if c == '}' { curly - 1 } else { curly };
            let quote2 = if c == '\'' { !quote } else { quote };
            let can = can_end_here(c, prev, quote2);
            let best2 = if can { Some(i + 1) } else { best };
            end_scan(s, i + 1, round2, square2, curly2, quote2, can, best2)
        }
    }
}

/// What the end-boundary search returns on the text after the protocol
/// separator: the offset one past the last character that may end the URL,
/// or nothing if no character was eligible.
pub open spec fn find_end_spec(s: Seq<char>) -> Option<int> {
    end_scan(s, 0, 0, 0, 0, false, true, None)
}

/// A found end offset covers at least one character and stays in the text.
proof fn lemma_end_scan_bounds(
    s: Seq<char>,
    i: int,
    round: int,
    square: int,
    curly: int,
    quote: bool,
    prev: bool,
    best: Option<int>,
)
    requires
        0 <= i <= s.len(),
        (match best {
            Some(e) => 1 <= e <= i,
            None => true,
        }),
    ensures
        (match end_scan(s, i, round, square, curly, quote, prev, best) {
            Some(e) => 1 <= e <= s.len(),
            None => true,
        }),
    decreases s.len() - i,
{
    if i < s.len() {
        let c = s[i];
        if !(is_terminator(c) || (c == ')' && round <= 0) || (c == ']' && square <= 0) || (c
            == '}' && curly <= 0)) {
            let round2 = if c == '(' { round + 1 } else if c == ')' { round - 1 } else { round };
            let square2 = if c == '[' { square + 1 } else if c == ']' { square - 1 } else { square };
            let curly2 = if c == '{' { curly + 1 } else if c == '}' { curly - 1 } else { curly };
            let quote2 = if c == '\'' { !quote } else { quote };
            let can = can_end_here(c, prev, quote2);
            let best2 = if can { Some(i + 1) } else { best };
            lemma_end_scan_bounds(s, i + 1, round2, square2, curly2, quote2, can, best2);
        }
    }
}

/// A found end offset covers at least one character and stays in the text.
pub proof fn lemma_find_end_spec_bounds(s: Seq<char>)
    ensures
        (match find_end_spec(s) {
            Some(e) => 1 <= e <= s.len(),
            None => true,
        }),
{
    lemma_end_scan_bounds(s, 0, 0, 0, 0, false, true, None);
}

/// How many characters the protocol separator of `trigger` spans: "//" for
/// the '/' trigger, "://" for any other (the ':' variant).
pub open spec fn separator_len(trigger: char) -> int {
    if trigger == '/' {
        2
    } else {
        3
    }
}

/// True when the protocol separator of `trigger` stands literally in `s` at
/// offset `ti`.
pub open spec fn separator_at(trigger: char, s: Seq<char>, ti: int) -> bool {
    if trigger == '/' {
        s[ti] == '/' && s[ti + 1] == '/'
    } else {
        s[ti] == ':' && s[ti + 1] == '/' && s[ti + 2] == '/'
    }
}

/// The scan result as a pair of offsets, `None` for no match.
pub open spec fn span_view(r: Option<Span>) -> Option<(int, int)> {
    match r {
        Some(sp) => Some((sp.start as int, sp.end as int)),
        None => None,
    }
}

/// What a whole scan returns for trigger offset `ti` into `s`: the protocol
/// separator must stand at `ti` with at least one character after it, the
/// start search on the text before `ti` and the end search on the text after
/// the separator must both succeed, and the span then runs from the found
/// start to the found end.
pub open spec fn scan_spec(trigger: char, s: Seq<char>, ti: int) -> Option<(int, int)> {
    let after = ti + separator_len(trigger);
    if 0 <= ti && after < s.len() && separator_at(trigger, s, ti) {
        match (find_start_spec(trigger, s.subrange(0, ti)), find_end_spec(
            s.subrange(after, s.len() as int),
        )) {
            (Some(start), Some(end)) => Some((start, after + end)),
            _ => None,
        }
    } else {
        None
    }
}

/// Every span a scan can return is well-placed: it starts at or before the
/// trigger, ends after it, stays inside the text, and covers the trigger.
pub proof fn lemma_scan_spec_bounds(trigger: char, s: Seq<char>, ti: int, start: int, end: int)
    requires
        scan_spec(trigger, s, ti) == Some((start, end)),
    ensures
        0 <= start <= ti < end <= s.len(),
{
    let after = ti + separator_len(trigger);
    let prefix = s.subrange(0, ti);
    let suffix = s.subrange(after, s.len() as int);
    lemma_find_start_spec_bounds(trigger, prefix);
    lemma_find_end_spec_bounds(suffix);
}

/// Scanning is deterministic: two results that both satisfy the scan's
/// contract on the same text and trigger offset are the same span.
pub proof fn lemma_scan_deterministic(
    trigger: char,
    s: Seq<char>,
    ti: int,
    r1: Option<Span>,
    r2: Option<Span>,
)
    requires
        span_view(r1) == scan_spec(trigger, s, ti),
        span_view(r2) == scan_spec(trigger, s, ti),
    ensures
        r1 == r2,
{
}

impl UrlScanner {
    /// Find the offset at which the scheme of a URL starts inside `s`, the
    /// text strictly before the trigger, scanning scalar values in reverse.
    /// See "scheme" in RFC 3986.
    pub fn find_start(&self, s: &str) -> (r: Option<usize>)
        ensures
            (match r {
                Some(i) => find_start_spec(self.trigger, s@) == Some(i as int),
                None => find_start_spec(self.trigger, s@) is None,
            }),
    {
        let n = s.unicode_len();
        // Match protocol relative URLs (`//example.org`): an empty prefix is
        // a valid zero-length scheme position for the '/' trigger.
        if n == 0 && self.trigger == '/' {
            return Some(0);
        }

        let mut first: Option<usize> = None;
        let mut digit: Option<usize> = None;
        let mut j: usize = n;
        let mut stopped: bool = false;
        while j > 0 && !stopped
            invariant
                j <= n,
                n == s@.len(),
                forall|m: int| j <= m < n ==> is_scheme_char(s@[m]),
                stopped ==> 0 < j && !is_scheme_char(s@[j - 1]),
                (match first {
                    Some(f) => first_letter_from(s@, j as int) == Some(f as int),
                    None => first_letter_from(s@, j as int) is None,
                }),
                (match digit {
                    Some(d) => first_digit_from(s@, j as int) == Some(d as int),
                    None => first_digit_from(s@, j as int) is None,
                }),
            decreases j, (if stopped { 0int } else { 1int }),
        {
            let c = s.get_char(j - 1);
            if ('a' <= c && c <= 'z') || ('A' <= c && c <= 'Z') {
                first = Some(j - 1);
                j = j - 1;
            } else if '0' <= c && c <= '9' {
                digit = Some(j - 1);
                j = j - 1;
            } else if c == '+' || c == '-' || c == '.' {
                // scheme special: neither candidate moves
                j = j - 1;
            } else {
                // not part of a scheme: this is the boundary
                stopped = true;
            }
        }
        proof {
            lemma_scheme_start_at(s@, j as int);
        }

        // We don't want to extract "abc://foo" out of "1abc://foo".
        // ".abc://foo" and others are ok though, as they feel more like
        // separators.
        if let Some(f) = first {
            if let Some(d) = digit {
                if f > 0 && d == f - 1 {
                    return None;
                }
            }
        }
        first
    }

    /// Scan `s` around the trigger character standing at scalar-value offset
    /// `trigger_index`; the result, if any, is the half-open span of the URL
    /// found there, which always covers the trigger.
    pub fn scan(&self, s: &str, trigger_index: usize) -> (r: Option<Span>)
        ensures
            span_view(r) == scan_spec(self.trigger, s@, trigger_index as int),
            (match r {
                Some(sp) => sp.start <= trigger_index < sp.end <= s@.len(),
                None => true,
            }),
    {
        let n = s.unicode_len();
        let offset: usize = if self.trigger == '/' {
            2
        } else {
            3
        };
        // Need at least one character for the scheme, and one after "//"
        if n <= offset || trigger_index > n - 1 - offset {
            return None;
        }
        let after_separator = trigger_index + offset;
        let present = if self.trigger == '/' {
            s.get_char(trigger_index) == '/' && s.get_char(trigger_index + 1) == '/'
        } else {
            s.get_char(trigger_index) == ':' && s.get_char(trigger_index + 1) == '/'
                && s.get_char(trigger_index + 2) == '/'
        };
        if !present {
            return None;
        }
        let prefix = s.substring_char(0, trigger_index);
        let start = match self.find_start(prefix) {
            Some(start) => start,
            None => {
                return None;
            },
        };
        let suffix = s.substring_char(after_separator, n);
        let end = match self.find_end(suffix) {
            Some(end) => end,
            None => {
                return None;
            },
        };
        let r = Some(Span { start, end: after_separator + end });
        proof {
            lemma_scan_spec_bounds(
                self.trigger,
                s@,
                trigger_index as int,
                start as int,
                after_separator + end,
            );
        }
        r
    }

    /// Find the offset one past the last character that may legally end a
    /// URL inside `s`, the text immediately after the protocol separator,
    /// in a single forward pass.
    pub fn find_end(&self, s: &str) -> (r: Option<usize>)
        ensures
            (match r {
                Some(e) => find_end_spec(s@) == Some(e as int) && 1 <= e <= s@.len(),
                None => find_end_spec(s@) is None,
            }),
    {
        let n = s.unicode_len();
        let mut round: usize = 0;
        let mut square: usize = 0;
        let mut curly: usize = 0;
        let mut quote: bool = false;

        let mut prev: bool = true;
        let mut best: Option<usize> = None;

        let mut i: usize = 0;
        let mut stopped: bool = false;
        while i < n && !stopped
            invariant
                i <= n,
                n == s@.len(),
                round <= i && square <= i && curly <= i,
                (match best {
                    Some(e) => 1 <= e <= i,
                    None => true,
                }),
                !stopped ==> end_scan(
                    s@,
                    i as int,
                    round as int,
                    square as int,
                    curly as int,
                    quote,
                    prev,
                    (match best {
                        Some(e) => Some(e as int),
                        None => None,
                    }),
                ) == find_end_spec(s@),
                stopped ==> find_end_spec(s@) == (match best {
                    Some(e) => Some(e as int),
                    None => None::<int>,
                }),
            decreases n - i, (if stopped { 0int } else { 1int }),
        {
            let c = s.get_char(i);
            let can: bool;
            if c <= '\u{1F}' || c == ' ' || c == '"' || c == '<' || c == '>' || c == '`' || (
            '\u{7F}' <= c && c <= '\u{9F}') {
                // These can never be part of a URL, so stop now.
                stopped = true;
                continue;
            } else if c == '?' || c == '!' || c == '.' || c == ',' || c == ':' || c == ';' {
                // These may be part of a URL but not at the end
                can = false;
            } else if c == '/' {
                // This may be part of a URL and at the end, but not if the
                // previous character can't be the end of a URL
                can = prev;
            } else if c == '(' {
                round = round + 1;
                can = false;
            } else if c == ')' {
                if round == 0 {
                    // More closing than opening brackets, stop now
                    stopped = true;
                    continue;
                }
                round = round - 1;
                can = true;
            } else if c == '[' {
                // Allowed in IPv6 address host
                square = square + 1;
                can = false;
            } else if c == ']' {
                if square == 0 {
                    // More closing than opening brackets, stop now
                    stopped = true;
                    continue;
                }
                square = square - 1;
                can = true;
            } else if c == '{' {
                curly = curly + 1;
                can = false;
            } else if c == '}' {
                if curly == 0 {
                    // More closing than opening brackets, stop now
                    stopped = true;
                    continue;
                }
                curly = curly - 1;
                can = true;
            } else if c == '\'' {
                quote = !quote;
                // A single quote can only be the end of a URL if there's an
                // even number
                can = !quote;
            } else {
                can = true;
            }
            if can {
                best = Some(i + 1);
            }
            prev = can;
            i = i + 1;
        }

        best
    }
}

} // verus!
