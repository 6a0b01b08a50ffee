use vstd::prelude::*;
use vstd::string::*;

verus! {

// ---------------------------------------------------------------------------
// Text measures: positions in the source are counted in UTF-8 bytes, lines and
// columns in characters.
// ---------------------------------------------------------------------------

/// Width in bytes of the UTF-8 encoding of `c`.
pub open spec fn char_width(c: char) -> nat {
    let v = c as u32;
    if v < 0x80 {
        1
    } else if v < 0x800 {
        2
    } else if v < 0x10000 {
        3
    } else {
        4
    }
}

/// Number of bytes that the UTF-8 encoding of `s` occupies.
pub open spec fn text_bytes(s: Seq<char>) -> nat
    decreases s.len(),
{
    if s.len() == 0 {
        0
    } else {
        text_bytes(s.drop_last()) + char_width(s.last())
    }
}

/// `n` saturated to the largest `usize`.
pub open spec fn sat(n: int) -> usize {
    if n > usize::MAX {
        usize::MAX
    } else if n < 0 {
        0
    } else {
        n as usize
    }
}

/// The number of leading characters of `rest` whose encoding is exactly `n`
/// bytes long, if a character boundary lies `n` bytes into `rest`.
pub open spec fn chars_in_bytes(rest: Seq<char>, n: nat) -> Option<nat> {
    if exists|k: nat| k <= rest.len() && #[trigger] text_bytes(rest.take(k as int)) == n {
        Some(choose|k: nat| k <= rest.len() && #[trigger] text_bytes(rest.take(k as int)) == n)
    } else {
        None
    }
}

/// A position in the source: a byte offset, and a line and column counted
/// from 1.
#[derive(Clone, Copy, Debug, PartialEq, Eq)]
pub struct Cursor {
    pub position: usize,
    pub line: usize,
    pub column: usize,
}

pub open spec fn sat_inc(x: usize) -> usize {
    if x == usize::MAX {
        x
    } else {
        (x + 1) as usize
    }
}

/// Line and column after reading `c` at line `line`, column `column`.
pub open spec fn track_char(lc: (usize, usize), c: char) -> (usize, usize) {
    if c == '\n' {
        (sat_inc(lc.0), 1)
    } else {
        (lc.0, sat_inc(lc.1))
    }
}

/// Line and column after reading all of `text`.
pub open spec fn track_text(lc: (usize, usize), text: Seq<char>) -> (usize, usize)
    decreases text.len(),
{
    if text.len() == 0 {
        lc
    } else {
        track_char(track_text(lc, text.drop_last()), text.last())
    }
}

/// The cursor after `text` was read and the byte offset moved by `bytes`.
pub open spec fn advance(c: Cursor, text: Seq<char>, bytes: nat) -> Cursor {
    let lc = track_text((c.line, c.column), text);
    Cursor { position: sat(c.position + bytes), line: lc.0, column: lc.1 }
}

#[derive(Clone, Copy, Debug, PartialEq, Eq)]
pub struct LexerOptions {
    pub ignore_whitespace: bool,
}

impl Default for LexerOptions {
    fn default() -> (r: Self)
        ensures
            r.ignore_whitespace == false,
    {
        LexerOptions { ignore_whitespace: false }
    }
}

/// A token found in the source, with its text and where it starts.
#[derive(Clone, Debug, PartialEq)]
pub struct MatchedToken<T> {
    pub token: T,
    pub text: String,
    pub cursor: Cursor,
}

/// How one kind of token is recognised.
#[derive(Clone, Debug, PartialEq)]
pub enum Matcher<T> {
    MatchToken { condition: String, case_sensitive: bool, value: T },
    MatchRegex { condition: String, value: T },
    IgnoreToken { condition: String, case_sensitive: bool },
    IgnoreRegex { condition: String },
}

#[verifier::external_type_specification]
#[verifier::external_body]
pub struct ExRegexError(regex::Error);

/// `regex::Error` derives `Clone`; nothing is claimed of the copy.
pub assume_specification[ <regex::Error as std::clone::Clone>::clone ](_0: &regex::Error) -> regex::Error;

#[derive(Clone, Debug, PartialEq)]
pub enum LexerError {
    NoMatch,
    EndOfFile,
    InvalidRegularExpression(regex::Error),
}

// ---------------------------------------------------------------------------
// Outside calls
// ---------------------------------------------------------------------------

/// Whether `regex::Regex::new` accepts the pattern.
pub uninterp spec fn spec_regex_compiles(pattern: Seq<char>) -> bool;

/// The byte length of the leftmost-first match that `regex::Regex::captures`
/// reports in the haystack, or `None` when it reports no match.
pub uninterp spec fn spec_regex_match_len(pattern: Seq<char>, haystack: Seq<char>) -> Option<nat>;

/// Compiles `pattern` with `regex::Regex::new` and, when that succeeds, runs
/// `regex::Regex::captures` on `haystack` and gives the byte length of the
/// whole match (group 0). Claimed: the call fails exactly when the pattern does
/// not compile, and the length is the one the crate reports; both are named,
/// nothing is said of their values.
#[verifier::external_body]
fn regex_match_len(pattern: &str, haystack: &str) -> (r: Result<Option<usize>, regex::Error>)
    ensures
        r is Err <==> !spec_regex_compiles(pattern@),
        r matches Ok(m) ==> (match m {
            Some(n) => spec_regex_match_len(pattern@, haystack@) == Some(n as nat),
            None => spec_regex_match_len(pattern@, haystack@) is None,
        }),
{
    let re = regex::Regex::new(pattern)?;
    Ok(re.captures(haystack).map(|caps| caps[0].len()))
}

/// Unicode upper-case form of a text, as `str::to_uppercase` computes it.
pub uninterp spec fn spec_to_uppercase(s: Seq<char>) -> Seq<char>;

/// Calls `str::to_uppercase`; its result is named, not described.
#[verifier::external_body]
fn str_to_uppercase(s: &str) -> (r: String)
    ensures
        r@ == spec_to_uppercase(s@),
{
    s.to_uppercase()
}

// ---------------------------------------------------------------------------
// What one matcher does at the cursor
// ---------------------------------------------------------------------------

/// Outcome of trying one matcher on the rest of the source.
pub enum Scan {
    NoMatch,
    /// A token made of the next `chars` characters; the byte offset moves by `bytes`.
    Token { chars: nat, bytes: nat },
    /// Text to skip: the next `chars` characters; the byte offset moves by `bytes`.
    Skip { chars: nat, bytes: nat },
    RegexError,
}

/// The text that a fixed-token matcher compares with its condition: as many
/// bytes as the condition has, cut at the end of the source; `None` when that
/// cut does not fall on a character boundary.
pub open spec fn token_slice(rest: Seq<char>, cond: Seq<char>, pos: usize, total: usize) -> Option<nat> {
    let cb = sat(text_bytes(cond) as int);
    let slice_end = if sat(pos + cb) < total { sat(pos + cb) } else { total };
    chars_in_bytes(rest, (slice_end - pos) as nat)
}

pub open spec fn token_text_matches(slice: Seq<char>, cond: Seq<char>, case_sensitive: bool) -> bool {
    if case_sensitive {
        slice == cond
    } else {
        spec_to_uppercase(slice) == spec_to_uppercase(cond)
    }
}

/// Byte length of the regex match at the cursor, as a number of characters
/// when it ends on a character boundary.
pub open spec fn regex_scan(cond: Seq<char>, rest: Seq<char>, ignore: bool) -> Scan {
    if !spec_regex_compiles(cond) {
        Scan::RegexError
    } else {
        match spec_regex_match_len(cond, rest) {
            None => Scan::NoMatch,
            Some(n) => match chars_in_bytes(rest, n) {
                None => Scan::NoMatch,
                Some(k) => if ignore {
                    if n == 0 {
                        Scan::NoMatch
                    } else {
                        Scan::Skip { chars: k, bytes: n }
                    }
                } else {
                    Scan::Token { chars: k, bytes: n }
                },
            },
        }
    }
}

pub open spec fn token_scan(
    cond: Seq<char>,
    case_sensitive: bool,
    rest: Seq<char>,
    pos: usize,
    total: usize,
    ignore: bool,
) -> Scan {
    match token_slice(rest, cond, pos, total) {
        None => Scan::NoMatch,
        Some(k) => if token_text_matches(rest.take(k as int), cond, case_sensitive) {
            if ignore {
                if text_bytes(cond) == 0 {
                    Scan::NoMatch
                } else {
                    Scan::Skip { chars: k, bytes: sat(text_bytes(cond) as int) as nat }
                }
            } else {
                Scan::Token { chars: k, bytes: sat(text_bytes(cond) as int) as nat }
            }
        } else {
            Scan::NoMatch
        },
    }
}

pub open spec fn scan_matcher<T>(m: Matcher<T>, rest: Seq<char>, pos: usize, total: usize) -> Scan {
    match m {
        Matcher::MatchToken { condition, case_sensitive, .. } => token_scan(
            condition@,
            case_sensitive,
            rest,
            pos,
            total,
            false,
        ),
        Matcher::IgnoreToken { condition, case_sensitive } => token_scan(
            condition@,
            case_sensitive,
            rest,
            pos,
            total,
            true,
        ),
        Matcher::MatchRegex { condition, .. } => regex_scan(condition@, rest, false),
        Matcher::IgnoreRegex { condition } => regex_scan(condition@, rest, true),
    }
}

/// The first matcher, from index `i` on, that does not report `NoMatch`.
pub open spec fn first_hit<T>(ms: Seq<Matcher<T>>, i: int, rest: Seq<char>, pos: usize, total: usize) -> Option<(int, Scan)>
    decreases ms.len() - i,
{
    if i < 0 || i >= ms.len() {
        None
    } else {
        match scan_matcher(ms[i], rest, pos, total) {
            Scan::NoMatch => first_hit(ms, i + 1, rest, pos, total),
            s => Some((i, s)),
        }
    }
}

/// The whitespace that a lexer with `ignore_whitespace` passes over: space,
/// tab, line feed, form feed and carriage return.
pub open spec fn is_space(c: char) -> bool {
    c == ' ' || c == '\t' || c == '\n' || c == '\x0C' || c == '\r'
}

/// What `next` reports, without the token's value: the index of the matcher
/// that produced the token and the token's text.
pub enum NextOutcome {
    Eof,
    Found { matcher: int, text: Seq<char>, at: Cursor },
    NoMatch,
    RegexError { matcher: int },
}

/// The lexer's step: skip what the ignore matchers match, then report the
/// first token matcher that matches, or an error. Gives the outcome, the new
/// character index and the new cursor.
pub open spec fn spec_next<T>(
    ms: Seq<Matcher<T>>,
    chars: Seq<char>,
    total: usize,
    idx: nat,
    cursor: Cursor,
    ws: bool,
) -> (NextOutcome, nat, Cursor)
    decreases chars.len() - idx,
{
    if cursor.position >= total || idx > chars.len() {
        (NextOutcome::Eof, idx, cursor)
    } else if ws && idx < chars.len() && is_space(chars[idx as int]) {
        spec_next(ms, chars, total, idx + 1, advance(cursor, seq![chars[idx as int]], char_width(chars[idx as int])), ws)
    } else {
        let rest = chars.subrange(idx as int, chars.len() as int);
        match first_hit(ms, 0, rest, cursor.position, total) {
            None => (NextOutcome::NoMatch, idx, cursor),
            Some((i, Scan::Token { chars: k, bytes: b })) => (
                NextOutcome::Found { matcher: i, text: rest.take(k as int), at: cursor },
                idx + k,
                advance(cursor, rest.take(k as int), b),
            ),
            Some((i, Scan::Skip { chars: k, bytes: b })) => if k > 0 && idx + k <= chars.len() {
                spec_next(ms, chars, total, idx + k, advance(cursor, rest.take(k as int), b), ws)
            } else {
                (NextOutcome::NoMatch, idx, cursor)
            },
            Some((i, _)) => (NextOutcome::RegexError { matcher: i }, idx, cursor),
        }
    }
}

/// What repeated steps find from character `idx` on: the tokens, the cursor
/// after each, and the outcome that ends the run (the end of the source, an
/// error, or `NoMatch` for a token that consumes no character).
pub open spec fn lex_run<T>(
    ms: Seq<Matcher<T>>,
    chars: Seq<char>,
    total: usize,
    idx: nat,
    cursor: Cursor,
    ws: bool,
) -> (Seq<NextOutcome>, Seq<Cursor>, NextOutcome)
    decreases chars.len() - idx,
{
    let (o, i2, c2) = spec_next(ms, chars, total, idx, cursor, ws);
    match o {
        NextOutcome::Found { .. } => if idx < i2 && i2 <= chars.len() {
            let rest = lex_run(ms, chars, total, i2, c2, ws);
            (seq![o] + rest.0, seq![c2] + rest.1, rest.2)
        } else {
            (Seq::empty(), Seq::empty(), NextOutcome::NoMatch)
        },
        _ => (Seq::empty(), Seq::empty(), o),
    }
}

/// The run over a whole source text, from its start.
pub open spec fn initial_run<T>(ms: Seq<Matcher<T>>, src: Seq<char>, ws: bool) -> (
    Seq<NextOutcome>,
    Seq<Cursor>,
    NextOutcome,
) {
    lex_run(ms, src, sat(text_bytes(src) as int), 0, Cursor { position: 0, line: 1, column: 1 }, ws)
}

/// Whether a token that was returned is the one that outcome `o` found.
pub open spec fn found_agrees<T: Clone>(ms: Seq<Matcher<T>>, o: NextOutcome, m: MatchedToken<T>) -> bool {
    match o {
        NextOutcome::Found { matcher, text, at } => {
            &&& m.text@ == text
            &&& m.cursor == at
            &&& 0 <= matcher < ms.len()
            &&& matcher_value(ms[matcher]) matches Some(v) && cloned(v, m.token)
        },
        _ => false,
    }
}

/// Whether the error (or `None` at the end) reported after the last token is
/// the one that ends a run.
pub open spec fn stop_agrees(o: NextOutcome, e: Option<LexerError>) -> bool {
    match o {
        NextOutcome::Eof => e is None,
        NextOutcome::NoMatch => e == Some(LexerError::NoMatch),
        NextOutcome::RegexError { .. } => e matches Some(LexerError::InvalidRegularExpression(_)),
        NextOutcome::Found { .. } => false,
    }
}

} // verus!

verus! {

// ---------------------------------------------------------------------------
// Lemmas on byte counts and line tracking
// ---------------------------------------------------------------------------

pub(crate) proof fn lemma_take_bytes_step(s: Seq<char>, k: int)
    requires
        0 <= k < s.len(),
    ensures
        text_bytes(s.take(k + 1)) == text_bytes(s.take(k)) + char_width(s[k]),
        track_text_step(s, k),
{
    assert(s.take(k + 1).drop_last() =~= s.take(k));
}

pub open spec fn track_text_step(s: Seq<char>, k: int) -> bool {
    forall|lc: (usize, usize)|
        #[trigger] track_text(lc, s.take(k + 1)) == track_char(track_text(lc, s.take(k)), s[k])
}

pub(crate) proof fn lemma_take_bytes_mono(s: Seq<char>, k1: int, k2: int)
    requires
        0 <= k1 < k2 <= s.len(),
    ensures
        text_bytes(s.take(k1)) < text_bytes(s.take(k2)),
    decreases k2 - k1,
{
    lemma_take_bytes_step(s, k2 - 1);
    if k1 < k2 - 1 {
        lemma_take_bytes_mono(s, k1, k2 - 1);
    }
}

pub(crate) proof fn lemma_first_hit<T>(ms: Seq<Matcher<T>>, i: int, rest: Seq<char>, pos: usize, total: usize)
    ensures
        first_hit(ms, i, rest, pos, total) matches Some((j, sc)) ==> {
            &&& 0 <= j < ms.len()
            &&& sc == scan_matcher(ms[j], rest, pos, total)
            &&& !(sc is NoMatch)
        },
    decreases ms.len() - i,
{
    if 0 <= i < ms.len() {
        lemma_first_hit(ms, i + 1, rest, pos, total);
    }
}

pub(crate) proof fn lemma_take_full<A>(s: Seq<A>)
    ensures
        s.take(s.len() as int) == s,
{
    assert(s.take(s.len() as int) =~= s);
}

// ---------------------------------------------------------------------------
// Text helpers
// ---------------------------------------------------------------------------

/// The characters of `s`.
pub fn chars_of(s: &str) -> (v: Vec<char>)
    ensures
        v@ == s@,
{
    let n = s.unicode_len();
    let mut v: Vec<char> = Vec::new();
    let mut i: usize = 0;
    while i < n
        invariant
            n == s@.len(),
            i <= n,
            v@ == s@.take(i as int),
        decreases n - i,
    {
        let c = s.get_char(i);
        v.push(c);
        i = i + 1;
        assert(v@ =~= s@.take(i as int));
    }
    proof {
        lemma_take_full(s@);
    }
    v
}

/// Byte length of the UTF-8 encoding of `s`, saturated to `usize::MAX`.
pub fn text_byte_count(s: &Vec<char>) -> (r: usize)
    ensures
        r == sat(text_bytes(s@) as int),
{
    let mut acc: usize = 0;
    let mut i: usize = 0;
    while i < s.len()
        invariant
            i <= s.len(),
            acc == sat(text_bytes(s@.take(i as int)) as int),
        decreases s.len() - i,
    {
        let w = char_utf8_width(s[i]);
        proof {
            lemma_take_bytes_step(s@, i as int);
        }
        acc = acc.saturating_add(w);
        i = i + 1;
    }
    proof {
        lemma_take_full(s@);
    }
    acc
}

pub fn char_utf8_width(c: char) -> (w: usize)
    ensures
        w == char_width(c),
        1 <= w <= 4,
{
    let v: u32 = c as u32;
    if v < 0x80 {
        1
    } else if v < 0x800 {
        2
    } else if v < 0x10000 {
        3
    } else {
        4
    }
}

/// The number of characters from `from` on whose encoding is exactly `n`
/// bytes long, if a character boundary lies there.
fn find_byte_boundary(chars: &Vec<char>, from: usize, n: usize) -> (r: Option<usize>)
    requires
        from <= chars.len(),
    ensures
        ({
            let rest = chars@.subrange(from as int, chars.len() as int);
            match r {
                Some(k) => k <= rest.len() && chars_in_bytes(rest, n as nat) == Some(k as nat),
                None => chars_in_bytes(rest, n as nat) is None,
            }
        }),
{
    let ghost rest = chars@.subrange(from as int, chars.len() as int);
    let mut k: usize = 0;
    let mut acc: usize = 0;
    assert(rest.take(0) =~= Seq::<char>::empty());
    loop
        invariant
            from <= chars.len(),
            rest == chars@.subrange(from as int, chars.len() as int),
            k <= rest.len(),
            acc == text_bytes(rest.take(k as int)),
            acc <= n,
        decreases rest.len() - k,
    {
        if acc == n {
            proof {
                assert(k as nat <= rest.len() && text_bytes(rest.take(k as int)) == n);
                let c = choose|j: nat| j <= rest.len() && #[trigger] text_bytes(rest.take(j as int)) == n;
                if c < k {
                    lemma_take_bytes_mono(rest, c as int, k as int);
                } else if c > k {
                    lemma_take_bytes_mono(rest, k as int, c as int);
                }
            }
            return Some(k);
        }
        if k >= chars.len() - from {
            proof {
                assert forall|j: nat| j <= rest.len() implies #[trigger] text_bytes(rest.take(j as int)) != n by {
                    if j < k {
                        lemma_take_bytes_mono(rest, j as int, k as int);
                    }
                }
            }
            return None;
        }
        let w = char_utf8_width(chars[from + k]);
        proof {
            lemma_take_bytes_step(rest, k as int);
        }
        if w > n - acc {
            proof {
                assert forall|j: nat| j <= rest.len() implies #[trigger] text_bytes(rest.take(j as int)) != n by {
                    if j < k {
                        lemma_take_bytes_mono(rest, j as int, k as int);
                    } else if j > k + 1 {
                        lemma_take_bytes_mono(rest, (k + 1) as int, j as int);
                    }
                }
            }
            return None;
        }
        acc = acc + w;
        k = k + 1;
    }
}

} // verus!

verus! {

/// The value a token matcher gives its tokens.
pub open spec fn matcher_value<T>(m: Matcher<T>) -> Option<T> {
    match m {
        Matcher::MatchToken { value, .. } => Some(value),
        Matcher::MatchRegex { value, .. } => Some(value),
        _ => None,
    }
}

/// Outcome of one matcher, as computed.
enum ScanResult {
    NoMatch,
    Token(usize, usize),
    Skip(usize, usize),
    RegexError(regex::Error),
}

spec fn scan_result_agrees(r: ScanResult, s: Scan) -> bool {
    match r {
        ScanResult::NoMatch => s is NoMatch,
        ScanResult::Token(k, b) => s == Scan::Token { chars: k as nat, bytes: b as nat },
        ScanResult::Skip(k, b) => s == Scan::Skip { chars: k as nat, bytes: b as nat },
        ScanResult::RegexError(_) => s is RegexError,
    }
}

/// A lexer over a source text, driven by an ordered list of matchers.
#[derive(Clone, Debug, PartialEq)]
pub struct Lexer<T> {
    matchers: Vec<Matcher<T>>,
    source: String,
    chars: Vec<char>,
    total: usize,
    options: LexerOptions,
    cursor: Cursor,
    index: usize,
}

impl<T> Lexer<T> {
    pub closed spec fn spec_matchers(&self) -> Seq<Matcher<T>> {
        self.matchers@
    }

    /// The source text.
    pub closed spec fn spec_source(&self) -> Seq<char> {
        self.chars@
    }

    /// Byte length of the source (saturated).
    pub closed spec fn spec_total(&self) -> usize {
        self.total
    }

    /// How many characters of the source have been consumed.
    pub closed spec fn spec_index(&self) -> nat {
        self.index as nat
    }

    pub closed spec fn spec_cursor(&self) -> Cursor {
        self.cursor
    }

    pub closed spec fn spec_options(&self) -> LexerOptions {
        self.options
    }

    pub closed spec fn wf(&self) -> bool {
        &&& self.chars@ == self.source@
        &&& self.total == sat(text_bytes(self.chars@) as int)
        &&& self.index <= self.chars@.len()
    }

    /// The outcome of the next call of `next`, and the state after it.
    pub open spec fn spec_step(&self) -> (NextOutcome, nat, Cursor) {
        spec_next(
            self.spec_matchers(),
            self.spec_source(),
            self.spec_total(),
            self.spec_index(),
            self.spec_cursor(),
            self.spec_options().ignore_whitespace,
        )
    }

    /// What repeated calls of `next` find from here on.
    pub open spec fn spec_run(&self) -> (Seq<NextOutcome>, Seq<Cursor>, NextOutcome) {
        lex_run(
            self.spec_matchers(),
            self.spec_source(),
            self.spec_total(),
            self.spec_index(),
            self.spec_cursor(),
            self.spec_options().ignore_whitespace,
        )
    }

    /// Everything but the position in the source is the same.
    pub open spec fn same_setup(&self, other: &Self) -> bool {
        &&& self.spec_matchers() == other.spec_matchers()
        &&& self.spec_source() == other.spec_source()
        &&& self.spec_total() == other.spec_total()
        &&& self.spec_options() == other.spec_options()
    }
}

impl<T> Default for Lexer<T> {
    fn default() -> (r: Self)
        ensures
            r.wf(),
            r.spec_matchers().len() == 0,
            r.spec_source().len() == 0,
            r.spec_index() == 0,
            r.spec_cursor() == (Cursor { position: 0, line: 1, column: 1 }),
    {
        let l = Self {
            matchers: Vec::new(),
            source: String::new(),
            chars: Vec::new(),
            total: 0,
            options: LexerOptions::default(),
            cursor: Cursor { position: 0, line: 1, column: 1 },
            index: 0,
        };
        proof {
            assert(l.chars@ =~= l.source@);
        }
        l
    }
}

/// Whether a `next` outcome and the value returned agree.
pub open spec fn next_result_agrees<T: Clone>(
    ms: Seq<Matcher<T>>,
    o: NextOutcome,
    r: Option<Result<MatchedToken<T>, LexerError>>,
) -> bool {
    match o {
        NextOutcome::Eof => r is None,
        NextOutcome::Found { matcher, text, at } => match r {
            Some(Ok(m)) => {
                &&& m.text@ == text
                &&& m.cursor == at
                &&& 0 <= matcher < ms.len()
                &&& matcher_value(ms[matcher]) matches Some(v) && cloned(v, m.token)
            },
            _ => false,
        },
        NextOutcome::NoMatch => r == Some(Err::<MatchedToken<T>, LexerError>(LexerError::NoMatch)),
        NextOutcome::RegexError { .. } => r matches Some(Err(LexerError::InvalidRegularExpression(_))),
    }
}

impl<T: Clone + PartialEq> Lexer<T> {
    pub fn new(input: &str, matchers: Vec<Matcher<T>>, options: LexerOptions) -> (r: Self)
        ensures
            r.wf(),
            r.spec_matchers() == matchers@,
            r.spec_source() == input@,
            r.spec_options() == options,
            r.spec_index() == 0,
            r.spec_cursor() == (Cursor { position: 0, line: 1, column: 1 }),
            r.spec_run() == initial_run(matchers@, input@, options.ignore_whitespace),
            r.spec_total() == sat(text_bytes(input@) as int),
    {
        let chars = chars_of(input);
        let total = text_byte_count(&chars);
        Self {
            matchers,
            source: input.to_owned(),
            chars,
            total,
            options,
            cursor: Cursor { position: 0, line: 1, column: 1 },
            index: 0,
        }
    }

    /// The end of a well-formed lexer's input lies as many bytes in as the
    /// source takes in UTF-8 (saturated to the largest `usize`).
    pub proof fn lemma_total(&self)
        requires
            self.wf(),
        ensures
            self.spec_total() == sat(text_bytes(self.spec_source()) as int),
            self.spec_index() <= self.spec_source().len(),
    {
    }

    pub fn is_eof(&self) -> (r: bool)
        ensures
            r == (self.spec_cursor().position >= self.spec_total()),
    {
        self.cursor.position >= self.total
    }

    pub fn get_cursor(&self) -> (r: Cursor)
        ensures
            r == self.spec_cursor(),
    {
        self.cursor
    }

    /// How many characters of the source have been consumed.
    pub fn consumed(&self) -> (r: usize)
        ensures
            r == self.spec_index(),
            self.wf() ==> r <= self.spec_source().len(),
    {
        self.index
    }

    /// Consumes the next `k` characters and moves the byte offset by `bytes`.
    fn consume(&mut self, k: usize, bytes: usize)
        requires
            old(self).wf(),
            old(self).index + k <= old(self).chars.len(),
        ensures
            final(self).wf(),
            final(self).same_setup(old(self)),
            final(self).index == old(self).index + k,
            final(self).cursor == advance(
                old(self).cursor,
                old(self).chars@.subrange(old(self).index as int, old(self).chars@.len() as int).take(k as int),
                bytes as nat,
            ),
    {
        let ghost text = self.chars@.subrange(self.index as int, self.chars@.len() as int).take(k as int);
        let ghost lc0 = (self.cursor.line, self.cursor.column);
        let mut j: usize = 0;
        assert(text.take(0) =~= Seq::<char>::empty());
        while j < k
            invariant
                self.wf(),
                j <= k,
                self.index + k <= self.chars.len(),
                text == self.chars@.subrange(self.index as int, self.chars@.len() as int).take(k as int),
                (self.cursor.line, self.cursor.column) == track_text(lc0, text.take(j as int)),
                self.matchers == old(self).matchers,
                self.source == old(self).source,
                self.chars == old(self).chars,
                self.total == old(self).total,
                self.options == old(self).options,
                self.index == old(self).index,
                self.cursor.position == old(self).cursor.position,
            decreases k - j,
        {
            let c = self.chars[self.index + j];
            proof {
                lemma_take_bytes_step(text, j as int);
                assert(track_text(lc0, text.take(j + 1)) == track_char(track_text(lc0, text.take(j as int)), text[j as int]));
            }
            if c == '\n' {
                self.cursor.line = self.cursor.line.saturating_add(1);
                self.cursor.column = 1;
            } else {
                self.cursor.column = self.cursor.column.saturating_add(1);
            }
            j = j + 1;
        }
        proof {
            lemma_take_full(text);
        }
        self.cursor.position = self.cursor.position.saturating_add(bytes);
        self.index = self.index + k;
    }
}

} // verus!

verus! {

impl<T: Clone + PartialEq> Lexer<T> {
    /// The rest of the source, from the current character on.
    pub open spec fn spec_rest(&self) -> Seq<char> {
        self.spec_source().subrange(self.spec_index() as int, self.spec_source().len() as int)
    }

    fn scan_token(&self, condition: &String, case_sensitive: bool, ignore: bool) -> (r: ScanResult)
        requires
            self.wf(),
            self.cursor.position < self.total,
        ensures
            scan_result_agrees(
                r,
                token_scan(condition@, case_sensitive, self.spec_rest(), self.cursor.position, self.total, ignore),
            ),
            r matches ScanResult::Token(k, _) ==> self.index + k <= self.chars.len(),
            r matches ScanResult::Skip(k, _) ==> self.index + k <= self.chars.len(),
    {
        let cond_chars = chars_of(condition.as_str());
        let cb = text_byte_count(&cond_chars);
        let pos = self.cursor.position;
        let e = pos.saturating_add(cb);
        let slice_end = if e < self.total {
            e
        } else {
            self.total
        };
        match find_byte_boundary(&self.chars, self.index, slice_end - pos) {
            None => ScanResult::NoMatch,
            Some(k) => {
                let slice_str = self.source.as_str().substring_char(self.index, self.index + k);
                proof {
                    assert(slice_str@ =~= self.spec_rest().take(k as int));
                }
                let matched = if case_sensitive {
                    let slice = slice_str.to_owned();
                    slice == *condition
                } else {
                    let a = str_to_uppercase(slice_str);
                    let b = str_to_uppercase(condition.as_str());
                    a == b
                };
                if matched {
                    if ignore {
                        if cb == 0 {
                            ScanResult::NoMatch
                        } else {
                            ScanResult::Skip(k, cb)
                        }
                    } else {
                        ScanResult::Token(k, cb)
                    }
                } else {
                    ScanResult::NoMatch
                }
            },
        }
    }

    fn scan_regex(&self, condition: &String, ignore: bool) -> (r: ScanResult)
        requires
            self.wf(),
        ensures
            scan_result_agrees(r, regex_scan(condition@, self.spec_rest(), ignore)),
            r matches ScanResult::Token(k, _) ==> self.index + k <= self.chars.len(),
            r matches ScanResult::Skip(k, _) ==> self.index + k <= self.chars.len(),
    {
        let hay = self.source.as_str().substring_char(self.index, self.chars.len());
        proof {
            assert(hay@ =~= self.spec_rest());
        }
        match regex_match_len(condition.as_str(), hay) {
            Err(e) => ScanResult::RegexError(e),
            Ok(None) => ScanResult::NoMatch,
            Ok(Some(n)) => match find_byte_boundary(&self.chars, self.index, n) {
                None => ScanResult::NoMatch,
                Some(k) => if ignore {
                    if n == 0 {
                        ScanResult::NoMatch
                    } else {
                        ScanResult::Skip(k, n)
                    }
                } else {
                    ScanResult::Token(k, n)
                },
            },
        }
    }

    fn scan_one(&self, i: usize) -> (r: ScanResult)
        requires
            self.wf(),
            self.cursor.position < self.total,
            i < self.matchers.len(),
        ensures
            scan_result_agrees(
                r,
                scan_matcher(self.spec_matchers()[i as int], self.spec_rest(), self.cursor.position, self.total),
            ),
            r matches ScanResult::Token(k, _) ==> self.index + k <= self.chars.len(),
            r matches ScanResult::Skip(k, _) ==> self.index + k <= self.chars.len(),
    {
        match &self.matchers[i] {
            Matcher::MatchToken { condition, case_sensitive, .. } => self.scan_token(condition, *case_sensitive, false),
            Matcher::IgnoreToken { condition, case_sensitive } => self.scan_token(condition, *case_sensitive, true),
            Matcher::MatchRegex { condition, .. } => self.scan_regex(condition, false),
            Matcher::IgnoreRegex { condition } => self.scan_regex(condition, true),
        }
    }

    /// The first matcher that reports something at the cursor.
    fn first_hit_exec(&self) -> (r: Option<(usize, ScanResult)>)
        requires
            self.wf(),
            self.cursor.position < self.total,
        ensures
            match r {
                None => first_hit(self.spec_matchers(), 0, self.spec_rest(), self.cursor.position, self.total) is None,
                Some((i, s)) => {
                    &&& i < self.matchers.len()
                    &&& first_hit(self.spec_matchers(), 0, self.spec_rest(), self.cursor.position, self.total) matches Some((j, sc))
                    &&& j == i
                    &&& scan_result_agrees(s, sc)
                    &&& !(s is NoMatch)
                    &&& (s matches ScanResult::Token(k, _) ==> self.index + k <= self.chars.len())
                    &&& (s matches ScanResult::Skip(k, _) ==> self.index + k <= self.chars.len())
                },
            },
    {
        let mut i: usize = 0;
        while i < self.matchers.len()
            invariant
                self.wf(),
                self.cursor.position < self.total,
                i <= self.matchers.len(),
                first_hit(self.spec_matchers(), 0, self.spec_rest(), self.cursor.position, self.total)
                    == first_hit(self.spec_matchers(), i as int, self.spec_rest(), self.cursor.position, self.total),
            decreases self.matchers.len() - i,
        {
            let s = self.scan_one(i);
            match s {
                ScanResult::NoMatch => {
                    i = i + 1;
                },
                _ => {
                    return Some((i, s));
                },
            }
        }
        None
    }

    /// Skips what the ignore matchers match (and whitespace, when the options
    /// say so) and returns the next token, an error, or `None` at the end of
    /// the source.
    pub fn next(&mut self) -> (r: Option<Result<MatchedToken<T>, LexerError>>)
        requires
            old(self).wf(),
        ensures
            final(self).wf(),
            final(self).same_setup(old(self)),
            next_result_agrees(old(self).spec_matchers(), old(self).spec_step().0, r),
            final(self).spec_index() == old(self).spec_step().1,
            final(self).spec_cursor() == old(self).spec_step().2,
    {
        loop
            invariant
                self.wf(),
                self.same_setup(old(self)),
                self.spec_step() == old(self).spec_step(),
            decreases self.chars@.len() - self.index,
        {
            if self.cursor.position >= self.total {
                return None;
            }
            if self.options.ignore_whitespace && self.index < self.chars.len() {
                let c = self.chars[self.index];
                if c == ' ' || c == '\t' || c == '\n' || c == '\x0C' || c == '\r' {
                    let w = char_utf8_width(c);
                    proof {
                        assert(self.chars@.subrange(self.index as int, self.chars@.len() as int).take(1) =~= seq![c]);
                    }
                    self.consume(1, w);
                    continue;
                }
            }
            let hit = self.first_hit_exec();
            proof {
                lemma_first_hit(self.spec_matchers(), 0, self.spec_rest(), self.cursor.position, self.total);
            }
            match hit {
                None => {
                    return Some(Err(LexerError::NoMatch));
                },
                Some((i, ScanResult::Token(k, b))) => {
                    let at = self.cursor;
                    let text = self.source.as_str().substring_char(self.index, self.index + k).to_owned();
                    proof {
                        assert(text@ =~= self.spec_rest().take(k as int));
                    }
                    let token = match &self.matchers[i] {
                        Matcher::MatchToken { value, .. } => value.clone(),
                        Matcher::MatchRegex { value, .. } => value.clone(),
                        Matcher::IgnoreToken { .. } => {
                            proof {
                                assert(false);
                            }
                            return Some(Err(LexerError::NoMatch));
                        },
                        Matcher::IgnoreRegex { .. } => {
                            proof {
                                assert(false);
                            }
                            return Some(Err(LexerError::NoMatch));
                        },
                    };
                    self.consume(k, b);
                    return Some(Ok(MatchedToken { token, text, cursor: at }));
                },
                Some((i, ScanResult::Skip(k, b))) => {
                    if k > 0 {
                        self.consume(k, b);
                    } else {
                        return Some(Err(LexerError::NoMatch));
                    }
                },
                Some((i, ScanResult::RegexError(e))) => {
                    return Some(Err(LexerError::InvalidRegularExpression(e)));
                },
                Some((i, ScanResult::NoMatch)) => {
                    return Some(Err(LexerError::NoMatch));
                },
            }
        }
    }
}

} // verus!

verus! {

impl<T: Clone + PartialEq> Lexer<T> {
    /// The next token, without consuming it.
    pub fn peek(&mut self) -> (r: Option<Result<MatchedToken<T>, LexerError>>)
        requires
            old(self).wf(),
        ensures
            final(self).wf(),
            final(self).same_setup(old(self)),
            final(self).spec_index() == old(self).spec_index(),
            final(self).spec_cursor() == old(self).spec_cursor(),
            next_result_agrees(old(self).spec_matchers(), old(self).spec_step().0, r),
    {
        if self.is_eof() {
            return None;
        }
        let current_cursor = self.cursor;
        let current_index = self.index;
        let token = self.next();
        self.cursor = current_cursor;
        self.index = current_index;
        token
    }

    /// Consumes the next token.
    pub fn skip(&mut self) -> (r: Result<(), LexerError>)
        requires
            old(self).wf(),
        ensures
            final(self).wf(),
            final(self).same_setup(old(self)),
            final(self).spec_index() == old(self).spec_step().1,
            final(self).spec_cursor() == old(self).spec_step().2,
            match old(self).spec_step().0 {
                NextOutcome::Found { .. } => r is Ok,
                NextOutcome::Eof => r == Err::<(), LexerError>(LexerError::EndOfFile),
                NextOutcome::NoMatch => r == Err::<(), LexerError>(LexerError::NoMatch),
                NextOutcome::RegexError { .. } => r matches Err(LexerError::InvalidRegularExpression(_)),
            },
    {
        match self.next() {
            Some(Ok(_)) => Ok(()),
            Some(Err(e)) => Err(e),
            None => Err(LexerError::EndOfFile),
        }
    }

    /// Whether a token follows (an error or the end of the source count as no).
    pub fn has_more_tokens(&mut self) -> (r: bool)
        requires
            old(self).wf(),
        ensures
            final(self).wf(),
            final(self).same_setup(old(self)),
            final(self).spec_index() == old(self).spec_index(),
            final(self).spec_cursor() == old(self).spec_cursor(),
            r == (old(self).spec_step().0 is Found),
    {
        match self.peek() {
            Some(Ok(_)) => true,
            Some(Err(_)) => false,
            None => false,
        }
    }
}

} // verus!
