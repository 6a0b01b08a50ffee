use vstd::prelude::*;

use std::time::Duration;

use crate::grammar::{match_arms_start, match_stray, script_stray, token_is, 
    are_entries, are_trees, at, compare_op, dict_insert, g_access, g_access_tail, g_and, g_and_tail, g_array, g_array_index,
    g_arguments, g_compare, g_compare_tail, g_expression, g_map, g_math, g_math_tail, g_new_object, g_new_tail, g_not, g_or,
    g_or_tail, g_pow, g_pow_tail, g_primary, g_term, g_term_tail, is_tree, lemma_are_trees_push, lemma_entries_insert, math_op,
    parsed, parsed_list, result_list, result_tree, result_trees, term_op, BinKind, Tree, g_statement, g_variable,
    g_assignment, g_return, g_block, g_if_body, g_if_block, g_if, g_if_tail, g_match, g_match_arms, g_while, g_for, g_for_collection, g_range, g_parameters, g_function, g_constructor, g_attribute,
    g_constant, g_enum, g_enum_items, g_class, g_class_members, g_import, g_import_path, g_module, g_module_members, g_script,
    name_at,
    cursor_at,
};
use crate::lexer::{chars_of, found_agrees, initial_run, stop_agrees, Cursor, Lexer, LexerError, MatchedToken, Matcher, NextOutcome};
use crate::syntax::{ParserError, ParserErrorType, Syntax, TokenPosition};
use crate::table::Table;
use crate::timing::{elapsed, now};
use crate::token::{get_lexer, language_matchers, Token};

verus! {

/// The value of a run of decimal digits.
pub open spec fn digits_value(s: Seq<char>) -> int
    decreases s.len(),
{
    if s.len() == 0 {
        0
    } else {
        digits_value(s.drop_last()) * 10 + (s.last() as int - '0' as int)
    }
}

pub open spec fn all_digits(s: Seq<char>) -> bool {
    forall|i: int| 0 <= i < s.len() ==> '0' <= #[trigger] s[i] <= '9'
}

/// What a text denotes as a decimal integer: an optional sign and at least
/// one digit.
pub open spec fn integer_literal(s: Seq<char>) -> Option<int> {
    if s.len() > 0 && (s[0] == '-' || s[0] == '+') {
        let d = s.drop_first();
        if d.len() > 0 && all_digits(d) {
            Some(if s[0] == '-' { -digits_value(d) } else { digits_value(d) })
        } else {
            None
        }
    } else if s.len() > 0 && all_digits(s) {
        Some(digits_value(s))
    } else {
        None
    }
}

proof fn lemma_digits_value_grows(s: Seq<char>, k: int)
    requires
        0 <= k <= s.len(),
        all_digits(s),
    ensures
        0 <= digits_value(s.take(k)) <= digits_value(s),
    decreases s.len(),
{
    if s.len() == 0 {
        assert(s.take(k) =~= s);
    } else {
        let dl = s.drop_last();
        assert(all_digits(dl));
        if k < s.len() {
            assert(dl.take(k) =~= s.take(k));
            lemma_digits_value_grows(dl, k);
        } else {
            assert(s.take(k) =~= s);
            lemma_digits_value_grows(dl, 0);
        }
    }
}

/// The integer a literal denotes, when it fits in an `i64`.
pub fn parse_integer(text: &str) -> (r: Option<i64>)
    ensures
        match integer_literal(text@) {
            Some(v) => if i64::MIN <= v <= i64::MAX {
                r == Some(v as i64)
            } else {
                r is None
            },
            None => r is None,
        },
{
    let chars = chars_of(text);
    let n = chars.len();
    if n == 0 {
        return None;
    }
    let negative = chars[0] == '-';
    let start: usize = if chars[0] == '-' || chars[0] == '+' {
        1
    } else {
        0
    };
    if start >= n {
        return None;
    }
    let ghost d = chars@.subrange(start as int, n as int);
    // accumulate with the sign applied, so that the smallest integer fits
    let mut acc: i64 = 0;
    let mut i: usize = start;
    while i < n
        invariant
            chars@ == text@,
            n == chars@.len(),
            start <= i <= n,
            start < n,
            d == chars@.subrange(start as int, n as int),
            negative == (chars@[0] == '-'),
            start == 1 <==> (chars@[0] == '-' || chars@[0] == '+'),
            start == 0 || start == 1,
            all_digits(d.take(i - start)),
            acc == if negative {
                -digits_value(d.take(i - start))
            } else {
                digits_value(d.take(i - start))
            },
        decreases n - i,
    {
        let c = chars[i];
        if !('0' <= c && c <= '9') {
            proof {
                assert(d[i - start] == c);
                if start == 1 {
                    assert(d =~= chars@.drop_first());
                } else {
                    assert(d =~= chars@);
                }
            }
            return None;
        }
        let digit = (c as u32 - '0' as u32) as i64;
        proof {
            assert(d.take(i - start + 1).drop_last() =~= d.take(i - start));
            assert(d.take(i - start + 1).last() == c);
            assert(all_digits(d.take(i - start + 1)));
        }
        let next = match acc.checked_mul(10) {
            Some(m) => if negative {
                m.checked_sub(digit)
            } else {
                m.checked_add(digit)
            },
            None => None,
        };
        match next {
            Some(v) => acc = v,
            None => {
                proof {
                    if all_digits(d) {
                        lemma_digits_value_grows(d, i - start + 1);
                        assert(d.take(d.len() as int) =~= d);
                    }
                    if start == 1 {
                        assert(d =~= chars@.drop_first());
                    } else {
                        assert(d =~= chars@);
                    }
                }
                return None;
            },
        }
        i = i + 1;
    }
    proof {
        assert(d.take(n - start) =~= d);
        if start == 1 {
            assert(d =~= chars@.drop_first());
        } else {
            assert(d =~= chars@);
        }
    }
    Some(acc)
}

/// The tokens of a source text, with the cursor after each, and what the
/// lexer reported after the last one (`None` at the end of the source): the
/// run of the lexer from where it stands.
fn tokenize(lexer: &mut Lexer<Token>) -> (r: (Vec<MatchedToken<Token>>, Vec<Cursor>, Option<LexerError>))
    requires
        old(lexer).wf(),
    ensures
        reads_run(old(lexer).spec_matchers(), old(lexer).spec_run(), r.0@, r.1@, r.2),
        r.0@.len() == r.1@.len(),
{
    let ghost ms = lexer.spec_matchers();
    let ghost run0 = lexer.spec_run();
    let ghost mut found: Seq<NextOutcome> = Seq::empty();
    let mut tokens: Vec<MatchedToken<Token>> = Vec::new();
    let mut ends: Vec<Cursor> = Vec::new();
    loop
        invariant
            lexer.wf(),
            lexer.same_setup(old(lexer)),
            ms == lexer.spec_matchers(),
            run0 == old(lexer).spec_run(),
            tokens@.len() == found.len(),
            ends@.len() == found.len(),
            forall|j: int| 0 <= j < found.len() ==> found_agrees(ms, #[trigger] found[j], tokens@[j]),
            run0.0 == found + lexer.spec_run().0,
            run0.1 == ends@ + lexer.spec_run().1,
            run0.2 == lexer.spec_run().2,
        decreases lexer.spec_source().len() - lexer.spec_index(),
    {
        let before = lexer.consumed();
        let ghost l0 = *lexer;
        match lexer.next() {
            Some(Ok(m)) => {
                if lexer.consumed() <= before {
                    proof {
                        assert(found + l0.spec_run().0 =~= found);
                        assert(ends@ + l0.spec_run().1 =~= ends@);
                    }
                    return (tokens, ends, Some(LexerError::NoMatch));
                }
                let ghost o = l0.spec_step().0;
                let ghost rest = lexer.spec_run();
                proof {
                    assert(l0.spec_run() == (seq![o] + rest.0, seq![lexer.spec_cursor()] + rest.1, rest.2));
                }
                tokens.push(m);
                ends.push(lexer.get_cursor());
                proof {
                    assert(found + l0.spec_run().0 =~= found.push(o) + rest.0);
                    assert(run0.1 =~= ends@ + rest.1);
                    found = found.push(o);
                }
            },
            Some(Err(e)) => {
                proof {
                    assert(found + l0.spec_run().0 =~= found);
                    assert(ends@ + l0.spec_run().1 =~= ends@);
                }
                return (tokens, ends, Some(e));
            },
            None => {
                proof {
                    assert(found + l0.spec_run().0 =~= found);
                    assert(ends@ + l0.spec_run().1 =~= ends@);
                }
                return (tokens, ends, None);
            },
        }
    }
}

/// Tokens, end cursors and final report that match a lexer run.
pub open spec fn reads_run(
    ms: Seq<Matcher<Token>>,
    run: (Seq<NextOutcome>, Seq<Cursor>, NextOutcome),
    tokens: Seq<MatchedToken<Token>>,
    ends: Seq<Cursor>,
    stop: Option<LexerError>,
) -> bool {
    &&& tokens.len() == run.0.len()
    &&& forall|j: int| 0 <= j < tokens.len() ==> found_agrees(ms, #[trigger] run.0[j], tokens[j])
    &&& ends == run.1
    &&& stop_agrees(run.2, stop)
}

/// A copy of a token.
fn copy_token(m: &MatchedToken<Token>) -> (r: MatchedToken<Token>)
    ensures
        r.token == m.token,
        r.text@ == m.text@,
        r.cursor == m.cursor,
{
    MatchedToken { token: m.token, text: m.text.clone(), cursor: m.cursor }
}

/// A syntax error at `cursor`.
fn error_at(cursor: Cursor, error: ParserErrorType) -> (r: ParserError)
    ensures
        r.error == error,
        r.position == (TokenPosition { line: cursor.line, column: cursor.column }),
{
    ParserError { error, position: TokenPosition { line: cursor.line, column: cursor.column } }
}

/// `a` is a copy of `b`: the same error, the outside regular-expression
/// error it may carry excepted.
pub open spec fn same_lexer_error(a: LexerError, b: LexerError) -> bool {
    match b {
        LexerError::InvalidRegularExpression(_) => a is InvalidRegularExpression,
        _ => a == b,
    }
}

/// A copy of a lexer error.
fn copy_lexer_error(e: &LexerError) -> (r: LexerError)
    ensures
        same_lexer_error(r, *e),
{
    match e {
        LexerError::NoMatch => LexerError::NoMatch,
        LexerError::EndOfFile => LexerError::EndOfFile,
        LexerError::InvalidRegularExpression(x) => LexerError::InvalidRegularExpression(x.clone()),
    }
}

/// Where a token starts.
pub open spec fn position_of(c: Cursor) -> TokenPosition {
    TokenPosition { line: c.line, column: c.column }
}

/// A recursive-descent parser over the tokens of a script.
pub struct Parser {
    syntax_tree: Vec<Syntax>,
    tokens: Vec<MatchedToken<Token>>,
    ends: Vec<Cursor>,
    stop: Option<LexerError>,
    pos: usize,
}

impl Parser {
    pub closed spec fn spec_tokens(&self) -> Seq<MatchedToken<Token>> {
        self.tokens@
    }

    /// How many tokens have been consumed.
    pub closed spec fn spec_pos(&self) -> nat {
        self.pos as nat
    }

    pub closed spec fn spec_tree(&self) -> Seq<Syntax> {
        self.syntax_tree@
    }

    /// The cursor after each token.
    pub closed spec fn spec_ends(&self) -> Seq<Cursor> {
        self.ends@
    }

    /// What the lexer reported after the last token; `None` at the end.
    pub closed spec fn spec_stop(&self) -> Option<LexerError> {
        self.stop
    }

    pub closed spec fn wf(&self) -> bool {
        &&& self.pos <= self.tokens@.len()
        &&& self.ends@.len() == self.tokens@.len()
    }

    /// The same tokens and the same end of input.
    pub closed spec fn same_input(&self, other: Self) -> bool {
        &&& self.tokens == other.tokens
        &&& self.ends == other.ends
        &&& self.stop == other.stop
    }

    /// How many tokens are left.
    pub open spec fn remaining(&self) -> nat {
        (self.spec_tokens().len() - self.spec_pos()) as nat
    }

    /// The token at position `i`.
    pub open spec fn token_at(&self, i: int) -> Token {
        self.spec_tokens()[i].token
    }

    /// A parser at the start of the tokens that the lexer of the language
    /// reads from `src`, with the cursor after each token and what the lexer
    /// reported after the last.
    pub open spec fn reads_source(self, src: Seq<char>) -> bool {
        &&& self.spec_pos() == 0
        &&& self.spec_tree().len() == 0
        &&& exists|ms: Seq<Matcher<Token>>| #[trigger] language_matchers(ms) && reads_run(
            ms,
            initial_run(ms, src, false),
            self.spec_tokens(),
            self.spec_ends(),
            self.spec_stop(),
        )
    }

    /// `self` went on from `before` over the same input, possibly consuming
    /// tokens.
    pub open spec fn went_on(&self, before: Self) -> bool {
        &&& self.wf()
        &&& self.same_input(before)
        &&& self.spec_pos() >= before.spec_pos()
    }

    /// A parser over the tokens of `src`.
    pub fn new(src: &str) -> (r: Self)
        ensures
            r.wf(),
            r.reads_source(src@),
    {
        let mut lexer = get_lexer(src);
        let ghost ms = lexer.spec_matchers();
        let ghost run = lexer.spec_run();
        let (tokens, ends, stop) = tokenize(&mut lexer);
        let p = Parser { syntax_tree: Vec::new(), tokens, ends, stop, pos: 0 };
        proof {
            assert(run == initial_run(ms, src@, false));
            assert(reads_run(ms, run, p.spec_tokens(), p.spec_ends(), p.spec_stop()));
            assert(language_matchers(ms));
            assert(exists|m: Seq<Matcher<Token>>| #[trigger] language_matchers(m) && reads_run(
                m,
                initial_run(m, src@, false),
                p.spec_tokens(),
                p.spec_ends(),
                p.spec_stop(),
            ));
        }
        p
    }

    /// The cursor after the last consumed token.
    fn cursor(&self) -> (r: Cursor)
        requires
            self.wf(),
        ensures
            r == cursor_at(self.spec_ends(), self.spec_pos()),
    {
        if self.pos == 0 {
            Cursor { position: 0, line: 1, column: 1 }
        } else {
            self.ends[self.pos - 1]
        }
    }

    /// Whether a token follows.
    fn has_more_tokens(&self) -> (r: bool)
        requires
            self.wf(),
        ensures
            r == (self.spec_pos() < self.spec_tokens().len()),
    {
        self.pos < self.tokens.len()
    }

    /// The error of wanting a token where the input has none.
    fn end_error(&self) -> (r: ParserError)
        requires
            self.wf(),
        ensures
            r.position == position_of(cursor_at(self.spec_ends(), self.spec_pos())),
            match self.spec_stop() {
                Some(e) => r.error matches ParserErrorType::UnexpectedParserError(x) && same_lexer_error(x, e),
                None => r.error == ParserErrorType::NoMatchFound,
            },
    {
        let cursor = self.cursor();
        match &self.stop {
            Some(e) => error_at(cursor, ParserErrorType::UnexpectedParserError(copy_lexer_error(e))),
            None => error_at(cursor, ParserErrorType::NoMatchFound),
        }
    }

    /// The next token, without consuming it.
    pub fn peek_next_token_or_error(&self) -> (r: Result<MatchedToken<Token>, ParserError>)
        requires
            self.wf(),
        ensures
            self.spec_pos() < self.spec_tokens().len() ==> (r matches Ok(m) && {
                let t = self.spec_tokens()[self.spec_pos() as int];
                &&& m.token == t.token
                &&& m.text@ == t.text@
                &&& m.cursor == t.cursor
            }),
            self.spec_pos() >= self.spec_tokens().len() ==> r is Err,
    {
        if self.pos < self.tokens.len() {
            Ok(copy_token(&self.tokens[self.pos]))
        } else {
            Err(self.end_error())
        }
    }

    /// Whether the next token is `expected`.
    pub fn peek_next_token_match(&self, expected: Token) -> (r: bool)
        requires
            self.wf(),
        ensures
            r == (self.spec_pos() < self.spec_tokens().len() && self.token_at(self.spec_pos() as int) == expected),
    {
        self.pos < self.tokens.len() && self.tokens[self.pos].token == expected
    }

    /// Consumes the next token and returns it.
    pub fn next_token_or_error(&mut self) -> (r: Result<MatchedToken<Token>, ParserError>)
        requires
            old(self).wf(),
        ensures
            final(self).went_on(*old(self)),
            final(self).spec_tree() == old(self).spec_tree(),
            old(self).spec_pos() < old(self).spec_tokens().len() ==> {
                let t = old(self).spec_tokens()[old(self).spec_pos() as int];
                &&& r matches Ok(m) && m.token == t.token && m.text@ == t.text@ && m.cursor == t.cursor
                &&& final(self).spec_pos() == old(self).spec_pos() + 1
            },
            old(self).spec_pos() >= old(self).spec_tokens().len() ==> r is Err,
    {
        if self.pos < self.tokens.len() {
            let m = copy_token(&self.tokens[self.pos]);
            self.pos = self.pos + 1;
            Ok(m)
        } else {
            Err(self.end_error())
        }
    }

    /// Consumes the next token; at the end of the input that is an error.
    pub fn skip_next_token_or_error(&mut self) -> (r: Result<(), ParserError>)
        requires
            old(self).wf(),
        ensures
            final(self).went_on(*old(self)),
            final(self).spec_tree() == old(self).spec_tree(),
            old(self).spec_pos() < old(self).spec_tokens().len() ==> r is Ok && final(self).spec_pos() == old(self).spec_pos() + 1,
            old(self).spec_pos() >= old(self).spec_tokens().len() ==> r is Err,
    {
        if self.pos < self.tokens.len() {
            self.pos = self.pos + 1;
            Ok(())
        } else {
            let cursor = self.cursor();
            match &self.stop {
                Some(e) => Err(error_at(cursor, ParserErrorType::UnexpectedParserError(e.clone()))),
                None => Err(error_at(cursor, ParserErrorType::UnexpectedParserError(LexerError::EndOfFile))),
            }
        }
    }

    /// Consumes the next token when it is `expected`; an error otherwise.
    pub fn match_next_token_or_error(&mut self, expected: Token) -> (r: Result<MatchedToken<Token>, ParserError>)
        requires
            old(self).wf(),
        ensures
            final(self).went_on(*old(self)),
            final(self).spec_tree() == old(self).spec_tree(),
            r is Ok <==> (old(self).spec_pos() < old(self).spec_tokens().len() && old(self).token_at(
                old(self).spec_pos() as int,
            ) == expected),
            r matches Ok(m) ==> {
                let t = old(self).spec_tokens()[old(self).spec_pos() as int];
                &&& m.token == expected
                &&& m.text@ == t.text@
                &&& m.cursor == t.cursor
                &&& final(self).spec_pos() == old(self).spec_pos() + 1
            },
            old(self).spec_pos() < old(self).spec_tokens().len() && old(self).token_at(old(self).spec_pos() as int)
                != expected ==> (r matches Err(e) && e.error == ParserErrorType::UnexpectedToken {
                expected,
                found: old(self).token_at(old(self).spec_pos() as int),
            }),
    {
        let m = self.next_token_or_error()?;
        if m.token == expected {
            Ok(m)
        } else {
            Err(error_at(m.cursor, ParserErrorType::UnexpectedToken { expected, found: m.token }))
        }
    }

    /// Consumes the next token when it is `expected`; an error otherwise.
    pub fn skip_matched_token_or_error(&mut self, expected: Token) -> (r: Result<(), ParserError>)
        requires
            old(self).wf(),
        ensures
            final(self).went_on(*old(self)),
            final(self).spec_tree() == old(self).spec_tree(),
            r is Ok <==> (old(self).spec_pos() < old(self).spec_tokens().len() && old(self).token_at(
                old(self).spec_pos() as int,
            ) == expected),
            r is Ok ==> final(self).spec_pos() == old(self).spec_pos() + 1,
    {
        match self.match_next_token_or_error(expected) {
            Ok(_) => Ok(()),
            Err(e) => Err(e),
        }
    }

    /// Whether a token can start an expression.
    pub fn is_expression_token(token: Token) -> (r: bool)
        ensures
            r == (token == Token::Integer || token == Token::Float || token == Token::String || token
                == Token::Boolean || token == Token::Identifier || token == Token::Null || token
                == Token::LeftParenthesis || token == Token::Not || token == Token::New),
    {
        match token {
            Token::Integer => true,
            Token::Float => true,
            Token::String => true,
            Token::Boolean => true,
            Token::Identifier => true,
            Token::Null => true,
            Token::LeftParenthesis => true,
            Token::Not => true,
            Token::New => true,
            _ => false,
        }
    }
}

/// What a script is made of at its top level.
pub open spec fn is_top_level(s: Syntax) -> bool {
    s is Import || s is Enum || s is Class || s is Function || s is Module
}

/// `new` went on from `old` over the same input without touching the syntax
/// tree; when `strict`, it consumed at least one token.
pub open spec fn progressed(new: Parser, old: Parser, strict: bool) -> bool {
    &&& new.went_on(old)
    &&& new.spec_tree() == old.spec_tree()
    &&& strict ==> new.spec_pos() > old.spec_pos()
}

/// The text of a string literal without its quotes.
pub open spec fn unquoted(text: Seq<char>) -> Seq<char> {
    if text.len() >= 2 {
        text.subrange(1, text.len() - 1)
    } else {
        Seq::empty()
    }
}

impl Parser {
    /// The kind of the next token.
    fn peek_token(&self) -> (r: Token)
        requires
            self.wf(),
            self.spec_pos() < self.spec_tokens().len(),
        ensures
            r == self.token_at(self.spec_pos() as int),
    {
        self.tokens[self.pos].token
    }

    /// Parses an expression.
    #[verifier::spinoff_prover]
    #[verifier::rlimit(80)]
    pub fn parse_expression(&mut self) -> (r: Result<Syntax, ParserError>)
        requires
            old(self).wf(),
        ensures
            progressed(*final(self), *old(self), r is Ok),
            parsed(r, final(self).spec_pos(), g_expression(old(self).spec_tokens(), old(self).spec_pos())),
        decreases old(self).remaining(), 30nat,
    {
        self.parse_or()
    }

    #[verifier::spinoff_prover]
    #[verifier::rlimit(80)]
    fn parse_or(&mut self) -> (r: Result<Syntax, ParserError>)
        requires
            old(self).wf(),
        ensures
            progressed(*final(self), *old(self), r is Ok),
            parsed(r, final(self).spec_pos(), g_or(old(self).spec_tokens(), old(self).spec_pos())),
        decreases old(self).remaining(), 29nat,
    {
        let ghost t = self.spec_tokens();
        let ghost p0 = self.spec_pos();
        let mut expr = self.parse_and()?;
        let ghost mut acc = result_tree(g_and(t, p0));
        while self.has_more_tokens()
            invariant
                progressed(*self, *old(self), true),
                t == self.spec_tokens(),
                t == old(self).spec_tokens(),
                p0 == old(self).spec_pos(),
                is_tree(expr, acc),
                g_or(t, p0) == g_or_tail(t, self.spec_pos(), acc),
            ensures
                progressed(*self, *old(self), true),
                is_tree(expr, acc),
                g_or(t, p0) == Some((acc, self.spec_pos())),
            decreases self.remaining(),
        {
            match self.peek_token() {
                Token::Or => {
                    self.skip_next_token_or_error()?;
                    let ghost p1 = self.spec_pos();
                    let rhs = self.parse_and()?;
                    proof {
                        acc = Tree::Binary(BinKind::Or, Box::new(acc), Box::new(result_tree(g_and(t, p1))));
                    }
                    expr = Syntax::Or { expr1: Box::new(expr), expr2: Box::new(rhs) };
                },
                _ => break,
            }
        }
        Ok(expr)
    }

    #[verifier::spinoff_prover]
    #[verifier::rlimit(80)]
    fn parse_and(&mut self) -> (r: Result<Syntax, ParserError>)
        requires
            old(self).wf(),
        ensures
            progressed(*final(self), *old(self), r is Ok),
            parsed(r, final(self).spec_pos(), g_and(old(self).spec_tokens(), old(self).spec_pos())),
        decreases old(self).remaining(), 28nat,
    {
        let ghost t = self.spec_tokens();
        let ghost p0 = self.spec_pos();
        let mut expr = self.parse_compare()?;
        let ghost mut acc = result_tree(g_compare(t, p0));
        while self.has_more_tokens()
            invariant
                progressed(*self, *old(self), true),
                t == self.spec_tokens(),
                t == old(self).spec_tokens(),
                p0 == old(self).spec_pos(),
                is_tree(expr, acc),
                g_and(t, p0) == g_and_tail(t, self.spec_pos(), acc),
            ensures
                progressed(*self, *old(self), true),
                is_tree(expr, acc),
                g_and(t, p0) == Some((acc, self.spec_pos())),
            decreases self.remaining(),
        {
            match self.peek_token() {
                Token::And => {
                    self.skip_next_token_or_error()?;
                    let ghost p1 = self.spec_pos();
                    let rhs = self.parse_compare()?;
                    proof {
                        acc = Tree::Binary(BinKind::And, Box::new(acc), Box::new(result_tree(g_compare(t, p1))));
                    }
                    expr = Syntax::And { expr1: Box::new(expr), expr2: Box::new(rhs) };
                },
                _ => break,
            }
        }
        Ok(expr)
    }

    #[verifier::spinoff_prover]
    #[verifier::rlimit(80)]
    fn parse_compare(&mut self) -> (r: Result<Syntax, ParserError>)
        requires
            old(self).wf(),
        ensures
            progressed(*final(self), *old(self), r is Ok),
            parsed(r, final(self).spec_pos(), g_compare(old(self).spec_tokens(), old(self).spec_pos())),
        decreases old(self).remaining(), 27nat,
    {
        let ghost t = self.spec_tokens();
        let ghost p0 = self.spec_pos();
        let mut expr = self.parse_math()?;
        let ghost mut acc = result_tree(g_math(t, p0));
        while self.has_more_tokens()
            invariant
                progressed(*self, *old(self), true),
                t == self.spec_tokens(),
                t == old(self).spec_tokens(),
                p0 == old(self).spec_pos(),
                is_tree(expr, acc),
                g_compare(t, p0) == g_compare_tail(t, self.spec_pos(), acc),
            ensures
                progressed(*self, *old(self), true),
                is_tree(expr, acc),
                g_compare(t, p0) == Some((acc, self.spec_pos())),
            decreases self.remaining(),
        {
            let k = self.peek_token();
            if k != Token::DoubleEquals && k != Token::NotEquals && k != Token::Lt && k != Token::Le && k
                != Token::Gt && k != Token::Ge {
                break;
            }
            self.skip_next_token_or_error()?;
            let ghost p1 = self.spec_pos();
            let rhs = self.parse_math()?;
            proof {
                acc = Tree::Binary(compare_op(k)->0, Box::new(acc), Box::new(result_tree(g_math(t, p1))));
            }
            expr = match k {
                Token::DoubleEquals => Syntax::Eq { expr1: Box::new(expr), expr2: Box::new(rhs) },
                Token::NotEquals => Syntax::Ne { expr1: Box::new(expr), expr2: Box::new(rhs) },
                Token::Lt => Syntax::Lt { expr1: Box::new(expr), expr2: Box::new(rhs) },
                Token::Le => Syntax::Le { expr1: Box::new(expr), expr2: Box::new(rhs) },
                Token::Gt => Syntax::Gt { expr1: Box::new(expr), expr2: Box::new(rhs) },
                _ => Syntax::Ge { expr1: Box::new(expr), expr2: Box::new(rhs) },
            };
        }
        Ok(expr)
    }

    #[verifier::spinoff_prover]
    #[verifier::rlimit(80)]
    fn parse_math(&mut self) -> (r: Result<Syntax, ParserError>)
        requires
            old(self).wf(),
        ensures
            progressed(*final(self), *old(self), r is Ok),
            parsed(r, final(self).spec_pos(), g_math(old(self).spec_tokens(), old(self).spec_pos())),
        decreases old(self).remaining(), 26nat,
    {
        let ghost t = self.spec_tokens();
        let ghost p0 = self.spec_pos();
        let mut expr = self.parse_term()?;
        let ghost mut acc = result_tree(g_term(t, p0));
        while self.has_more_tokens()
            invariant
                progressed(*self, *old(self), true),
                t == self.spec_tokens(),
                t == old(self).spec_tokens(),
                p0 == old(self).spec_pos(),
                is_tree(expr, acc),
                g_math(t, p0) == g_math_tail(t, self.spec_pos(), acc),
            ensures
                progressed(*self, *old(self), true),
                is_tree(expr, acc),
                g_math(t, p0) == Some((acc, self.spec_pos())),
            decreases self.remaining(),
        {
            let k = self.peek_token();
            if k != Token::Plus && k != Token::Minus {
                break;
            }
            self.skip_next_token_or_error()?;
            let ghost p1 = self.spec_pos();
            let rhs = self.parse_term()?;
            proof {
                acc = Tree::Binary(math_op(k)->0, Box::new(acc), Box::new(result_tree(g_term(t, p1))));
            }
            expr = if k == Token::Plus {
                Syntax::Add { expr1: Box::new(expr), expr2: Box::new(rhs) }
            } else {
                Syntax::Sub { expr1: Box::new(expr), expr2: Box::new(rhs) }
            };
        }
        Ok(expr)
    }

    #[verifier::spinoff_prover]
    #[verifier::rlimit(80)]
    fn parse_term(&mut self) -> (r: Result<Syntax, ParserError>)
        requires
            old(self).wf(),
        ensures
            progressed(*final(self), *old(self), r is Ok),
            parsed(r, final(self).spec_pos(), g_term(old(self).spec_tokens(), old(self).spec_pos())),
        decreases old(self).remaining(), 25nat,
    {
        let ghost t = self.spec_tokens();
        let ghost p0 = self.spec_pos();
        let mut expr = self.parse_pow()?;
        let ghost mut acc = result_tree(g_pow(t, p0));
        while self.has_more_tokens()
            invariant
                progressed(*self, *old(self), true),
                t == self.spec_tokens(),
                t == old(self).spec_tokens(),
                p0 == old(self).spec_pos(),
                is_tree(expr, acc),
                g_term(t, p0) == g_term_tail(t, self.spec_pos(), acc),
            ensures
                progressed(*self, *old(self), true),
                is_tree(expr, acc),
                g_term(t, p0) == Some((acc, self.spec_pos())),
            decreases self.remaining(),
        {
            let k = self.peek_token();
            if k != Token::Mul && k != Token::Div {
                break;
            }
            self.skip_next_token_or_error()?;
            let ghost p1 = self.spec_pos();
            let rhs = self.parse_pow()?;
            proof {
                acc = Tree::Binary(term_op(k)->0, Box::new(acc), Box::new(result_tree(g_pow(t, p1))));
            }
            expr = if k == Token::Mul {
                Syntax::Mul { expr1: Box::new(expr), expr2: Box::new(rhs) }
            } else {
                Syntax::Div { expr1: Box::new(expr), expr2: Box::new(rhs) }
            };
        }
        Ok(expr)
    }

    #[verifier::spinoff_prover]
    #[verifier::rlimit(80)]
    fn parse_pow(&mut self) -> (r: Result<Syntax, ParserError>)
        requires
            old(self).wf(),
        ensures
            progressed(*final(self), *old(self), r is Ok),
            parsed(r, final(self).spec_pos(), g_pow(old(self).spec_tokens(), old(self).spec_pos())),
        decreases old(self).remaining(), 24nat,
    {
        let ghost t = self.spec_tokens();
        let ghost p0 = self.spec_pos();
        let mut expr = self.parse_not()?;
        let ghost mut acc = result_tree(g_not(t, p0));
        while self.has_more_tokens()
            invariant
                progressed(*self, *old(self), true),
                t == self.spec_tokens(),
                t == old(self).spec_tokens(),
                p0 == old(self).spec_pos(),
                is_tree(expr, acc),
                g_pow(t, p0) == g_pow_tail(t, self.spec_pos(), acc),
            ensures
                progressed(*self, *old(self), true),
                is_tree(expr, acc),
                g_pow(t, p0) == Some((acc, self.spec_pos())),
            decreases self.remaining(),
        {
            match self.peek_token() {
                Token::Pow => {
                    self.skip_next_token_or_error()?;
                    let ghost p1 = self.spec_pos();
                    let rhs = self.parse_not()?;
                    proof {
                        acc = Tree::Binary(BinKind::Pow, Box::new(acc), Box::new(result_tree(g_not(t, p1))));
                    }
                    expr = Syntax::Pow { expr1: Box::new(expr), expr2: Box::new(rhs) };
                },
                _ => break,
            }
        }
        Ok(expr)
    }

    #[verifier::spinoff_prover]
    #[verifier::rlimit(80)]
    fn parse_not(&mut self) -> (r: Result<Syntax, ParserError>)
        requires
            old(self).wf(),
        ensures
            progressed(*final(self), *old(self), r is Ok),
            parsed(r, final(self).spec_pos(), g_not(old(self).spec_tokens(), old(self).spec_pos())),
        decreases old(self).remaining(), 23nat,
    {
        let peek = self.peek_next_token_or_error()?;
        match peek.token {
            Token::Not => {
                self.skip_next_token_or_error()?;
                let expr = self.parse_expression()?;
                Ok(Syntax::Not { expr: Box::new(expr) })
            },
            _ => self.parse_data_access(),
        }
    }

    #[verifier::spinoff_prover]
    #[verifier::rlimit(80)]
    fn parse_data_access(&mut self) -> (r: Result<Syntax, ParserError>)
        requires
            old(self).wf(),
        ensures
            progressed(*final(self), *old(self), r is Ok),
            parsed(r, final(self).spec_pos(), g_access(old(self).spec_tokens(), old(self).spec_pos())),
        decreases old(self).remaining(), 22nat,
    {
        let ghost t = self.spec_tokens();
        let ghost p0 = self.spec_pos();
        let mut position = self.peek_next_token_or_error()?;
        let mut expr = self.parse_primary()?;
        let ghost mut acc = result_tree(g_primary(t, p0));
        while self.has_more_tokens()
            invariant
                progressed(*self, *old(self), true),
                t == self.spec_tokens(),
                t == old(self).spec_tokens(),
                p0 == old(self).spec_pos(),
                is_tree(expr, acc),
                g_access(t, p0) == g_access_tail(t, self.spec_pos(), acc, position_of(position.cursor)),
            ensures
                progressed(*self, *old(self), true),
                is_tree(expr, acc),
                g_access(t, p0) == Some((acc, self.spec_pos())),
            decreases self.remaining(),
        {
            let ghost p = self.spec_pos();
            match self.peek_token() {
                Token::LeftParenthesis => {
                    proof {
                        assert(g_arguments(t, p, Seq::empty()) == g_arguments(t, p + 1, Seq::empty()));
                    }
                    let args = self.parse_arguments()?;
                    proof {
                        acc = Tree::Call(position_of(position.cursor), Box::new(acc), result_trees(g_arguments(t, p, Seq::empty())));
                    }
                    expr = Syntax::Call {
                        position: TokenPosition { line: position.cursor.line, column: position.cursor.column },
                        target: Box::new(expr),
                        args,
                    };
                },
                Token::LeftSquareBracket => {
                    self.skip_next_token_or_error()?;
                    position = self.peek_next_token_or_error()?;
                    let index = self.parse_array_access()?;
                    proof {
                        acc = Tree::Index(at(t, p + 1), Box::new(acc), Box::new(result_tree(g_array_index(t, p + 1, None))));
                    }
                    expr = Syntax::ArrayAccess {
                        position: TokenPosition { line: position.cursor.line, column: position.cursor.column },
                        target: Box::new(expr),
                        index: Box::new(index),
                    };
                },
                Token::Dot => {
                    self.skip_next_token_or_error()?;
                    position = self.peek_next_token_or_error()?;
                    let primary = self.parse_primary()?;
                    let ghost i = result_tree(g_primary(t, p + 1));
                    let index = match primary {
                        Syntax::Identifier { .. } => primary,
                        _ => {
                            proof {
                                assert(!(i is Name));
                            }
                            return Err(error_at(position.cursor, ParserErrorType::InvalidMemberAccess));
                        },
                    };
                    proof {
                        assert(i is Name);
                        acc = Tree::Member(at(t, p + 1), Box::new(acc), Box::new(i));
                    }
                    expr = Syntax::MemberAccess {
                        position: TokenPosition { line: position.cursor.line, column: position.cursor.column },
                        target: Box::new(expr),
                        index: Box::new(index),
                    };
                },
                Token::DoubleColon => {
                    self.skip_next_token_or_error()?;
                    position = self.peek_next_token_or_error()?;
                    let primary = self.parse_primary()?;
                    let ghost i = result_tree(g_primary(t, p + 1));
                    let index = match primary {
                        Syntax::Identifier { .. } => primary,
                        _ => {
                            proof {
                                assert(!(i is Name));
                            }
                            return Err(error_at(position.cursor, ParserErrorType::InvalidStaticAccess));
                        },
                    };
                    proof {
                        assert(i is Name);
                        acc = Tree::Static(at(t, p + 1), Box::new(acc), Box::new(i));
                    }
                    expr = Syntax::StaticAccess {
                        position: TokenPosition { line: position.cursor.line, column: position.cursor.column },
                        target: Box::new(expr),
                        index: Box::new(index),
                    };
                },
                _ => break,
            }
        }
        Ok(expr)
    }

    /// Parses a literal, an identifier, a collection, a `new` expression or
    /// an expression in parentheses.
    #[verifier::spinoff_prover]
    #[verifier::rlimit(80)]
    fn parse_primary(&mut self) -> (r: Result<Syntax, ParserError>)
        requires
            old(self).wf(),
        ensures
            progressed(*final(self), *old(self), r is Ok),
            old(self).spec_pos() < old(self).spec_tokens().len() ==> {
                let t = old(self).spec_tokens()[old(self).spec_pos() as int];
                &&& t.token == Token::Identifier ==> (r matches Ok(Syntax::Identifier { position, name }) && position
                    == position_of(t.cursor) && name@ == t.text@)
                &&& t.token == Token::Null ==> r == Ok::<Syntax, ParserError>(Syntax::Null)
                &&& t.token == Token::Integer ==> match integer_literal(t.text@) {
                    Some(v) => if i64::MIN <= v <= i64::MAX {
                        r == Ok::<Syntax, ParserError>(Syntax::Integer(v as i64))
                    } else {
                        r matches Err(e) && e.error is InvalidLiteral
                    },
                    None => r matches Err(e) && e.error is InvalidLiteral,
                }
                &&& t.token == Token::Boolean ==> if t.text@ == "true"@ {
                    r == Ok::<Syntax, ParserError>(Syntax::Bool(true))
                } else if t.text@ == "false"@ {
                    r == Ok::<Syntax, ParserError>(Syntax::Bool(false))
                } else {
                    r matches Err(e) && e.error is InvalidLiteral
                }
                &&& t.token == Token::String ==> (r matches Ok(Syntax::String(s)) && s@ == unquoted(t.text@))
                &&& t.token == Token::Float ==> (r matches Ok(Syntax::Float(s)) && s@ == t.text@)
            },
            parsed(r, final(self).spec_pos(), g_primary(old(self).spec_tokens(), old(self).spec_pos())),
        decreases old(self).remaining(), 21nat,
    {
        let matched = self.next_token_or_error()?;
        match matched.token {
            Token::Integer => match parse_integer(matched.text.as_str()) {
                Some(v) => Ok(Syntax::Integer(v)),
                None => Err(error_at(matched.cursor, ParserErrorType::InvalidLiteral(matched.text))),
            },
            Token::Float => Ok(Syntax::Float(matched.text)),
            Token::Boolean => {
                if matched.text == "true".to_owned() {
                    Ok(Syntax::Bool(true))
                } else if matched.text == "false".to_owned() {
                    Ok(Syntax::Bool(false))
                } else {
                    Err(error_at(matched.cursor, ParserErrorType::InvalidLiteral(matched.text)))
                }
            },
            Token::Null => Ok(Syntax::Null),
            Token::New => self.parse_new_object(matched),
            Token::String => Ok(Parser::parse_string(matched)),
            Token::Identifier => Ok(
                Syntax::Identifier {
                    position: TokenPosition { line: matched.cursor.line, column: matched.cursor.column },
                    name: matched.text,
                },
            ),
            Token::LeftSquareBracket => self.parse_array(),
            Token::LeftCurlyBracket => self.parse_map(),
            Token::LeftParenthesis => {
                let expr = self.parse_expression()?;
                self.skip_next_token_or_error()?;
                Ok(expr)
            },
            _ => Err(error_at(matched.cursor, ParserErrorType::InvalidExpressionItem(matched.text))),
        }
    }

    /// The items of an array literal, after its `[`.
    #[verifier::spinoff_prover]
    #[verifier::rlimit(80)]
    fn parse_array(&mut self) -> (r: Result<Syntax, ParserError>)
        requires
            old(self).wf(),
        ensures
            progressed(*final(self), *old(self), false),
            r matches Ok(s) ==> s is Array,
            parsed(r, final(self).spec_pos(), g_array(old(self).spec_tokens(), old(self).spec_pos(), Seq::empty())),
        decreases old(self).remaining(), 31nat,
    {
        let ghost t = self.spec_tokens();
        let ghost p0 = self.spec_pos();
        let mut items: Vec<Syntax> = Vec::new();
        let ghost mut acc: Seq<Tree> = Seq::empty();
        while self.has_more_tokens()
            invariant_except_break
                g_array(t, p0, Seq::empty()) == g_array(t, self.spec_pos(), acc),
            invariant
                progressed(*self, *old(self), false),
                t == self.spec_tokens(),
                t == old(self).spec_tokens(),
                p0 == old(self).spec_pos(),
                are_trees(items@, acc),
            ensures
                progressed(*self, *old(self), false),
                are_trees(items@, acc),
                g_array(t, p0, Seq::empty()) == Some((Tree::List(acc), self.spec_pos())),
            decreases self.remaining(),
        {
            let ghost p = self.spec_pos();
            match self.peek_token() {
                Token::RightSquareBracket => {
                    self.skip_next_token_or_error()?;
                    break;
                },
                Token::Comma => {
                    self.skip_next_token_or_error()?;
                },
                _ => {
                    let item = self.parse_expression()?;
                    proof {
                        let e = result_tree(g_expression(t, p));
                        lemma_are_trees_push(items@, acc, item, e);
                        acc = acc.push(e);
                    }
                    items.push(item);
                },
            }
        }
        Ok(Syntax::Array(items))
    }

    /// The entries of a dictionary literal, after its `{`.
    #[verifier::spinoff_prover]
    #[verifier::rlimit(80)]
    fn parse_map(&mut self) -> (r: Result<Syntax, ParserError>)
        requires
            old(self).wf(),
        ensures
            progressed(*final(self), *old(self), false),
            r matches Ok(s) ==> s is Dictionary,
            parsed(r, final(self).spec_pos(), g_map(old(self).spec_tokens(), old(self).spec_pos(), Seq::empty())),
        decreases old(self).remaining(), 31nat,
    {
        let ghost t = self.spec_tokens();
        let ghost p0 = self.spec_pos();
        let mut items: Table<Syntax> = Table::new();
        let ghost mut acc: Seq<(Seq<char>, Tree)> = Seq::empty();
        proof {
            assert(are_entries(items.spec_entries(), acc));
        }
        while self.has_more_tokens()
            invariant_except_break
                g_map(t, p0, Seq::empty()) == g_map(t, self.spec_pos(), acc),
            invariant
                progressed(*self, *old(self), false),
                t == self.spec_tokens(),
                t == old(self).spec_tokens(),
                p0 == old(self).spec_pos(),
                are_entries(items.spec_entries(), acc),
            ensures
                progressed(*self, *old(self), false),
                are_entries(items.spec_entries(), acc),
                g_map(t, p0, Seq::empty()) == Some((Tree::Dict(acc), self.spec_pos())),
            decreases self.remaining(),
        {
            let ghost p = self.spec_pos();
            let matched = self.peek_next_token_or_error()?;
            match matched.token {
                Token::RightCurlyBracket => {
                    self.skip_next_token_or_error()?;
                    break;
                },
                Token::Comma => {
                    self.skip_next_token_or_error()?;
                },
                Token::Identifier => {
                    let key = self.match_next_token_or_error(Token::Identifier)?;
                    self.skip_matched_token_or_error(Token::Colon)?;
                    let value = self.parse_expression()?;
                    let ghost before = items.spec_entries();
                    let ghost e = result_tree(g_expression(t, p + 2));
                    let ghost kt = key.text;
                    let ghost vv = value;
                    proof {
                        assert(kt@ == t[p as int].text@);
                    }
                    items.insert(key.text, value);
                    proof {
                        lemma_entries_insert(before, acc, kt, vv, e, items.spec_entries());
                        acc = dict_insert(acc, t[p as int].text@, e);
                    }
                },
                _ => return Err(error_at(matched.cursor, ParserErrorType::InvalidMapItem(matched.text))),
            }
        }
        Ok(Syntax::Dictionary(items.into_entries()))
    }


    /// A string literal without its quotes.
    fn parse_string(matched: MatchedToken<Token>) -> (r: Syntax)
        ensures
            r matches Syntax::String(s) && s@ == unquoted(matched.text@),
    {
        let n = matched.text.as_str().unicode_len();
        let text = if n >= 2 {
            matched.text.as_str().substring_char(1, n - 1).to_owned()
        } else {
            String::new()
        };
        proof {
            if n < 2 {
                assert(text@ =~= Seq::<char>::empty());
            }
        }
        Syntax::String(text)
    }

    /// `new Class(args)`, after `new`: the class is a name, reached through
    /// `::` and `.` from a module or an object, and the arguments follow it.
    #[verifier::spinoff_prover]
    #[verifier::rlimit(80)]
    fn parse_new_object(&mut self, matched: MatchedToken<Token>) -> (r: Result<Syntax, ParserError>)
        requires
            old(self).wf(),
        ensures
            progressed(*final(self), *old(self), r is Ok),
            r matches Ok(s) ==> s is NewObject,
            parsed(
                r,
                final(self).spec_pos(),
                g_new_object(old(self).spec_tokens(), old(self).spec_pos(), position_of(matched.cursor)),
            ),
        decreases old(self).remaining(), 31nat,
    {
        let ghost t = self.spec_tokens();
        let ghost p0 = self.spec_pos();
        let ghost pos = position_of(matched.cursor);
        let mut target = self.parse_primary()?;
        let ghost mut acc = result_tree(g_primary(t, p0));
        while self.has_more_tokens()
            invariant
                progressed(*self, *old(self), true),
                t == self.spec_tokens(),
                t == old(self).spec_tokens(),
                p0 == old(self).spec_pos(),
                is_tree(target, acc),
                pos == position_of(matched.cursor),
                g_new_object(t, p0, pos) == g_new_tail(t, self.spec_pos(), acc, pos),
            ensures
                progressed(*self, *old(self), true),
                is_tree(target, acc),
                g_new_object(t, p0, pos) == g_new_tail(t, self.spec_pos(), acc, pos),
                self.spec_pos() < self.spec_tokens().len() ==> !(self.token_at(self.spec_pos() as int) is DoubleColon)
                    && !(self.token_at(self.spec_pos() as int) is Dot),
            decreases self.remaining(),
        {
            let ghost p = self.spec_pos();
            let is_static = match self.peek_token() {
                Token::DoubleColon => true,
                Token::Dot => false,
                _ => break,
            };
            self.skip_next_token_or_error()?;
            let position = self.peek_next_token_or_error()?;
            let primary = self.parse_primary()?;
            let ghost i = result_tree(g_primary(t, p + 1));
            let index = match primary {
                Syntax::Identifier { .. } => primary,
                _ => {
                    proof {
                        assert(!(i is Name));
                    }
                    let error = if is_static {
                        ParserErrorType::InvalidStaticAccess
                    } else {
                        ParserErrorType::InvalidMemberAccess
                    };
                    return Err(error_at(position.cursor, error));
                },
            };
            proof {
                assert(i is Name);
                acc = if is_static {
                    Tree::Static(at(t, p + 1), Box::new(acc), Box::new(i))
                } else {
                    Tree::Member(at(t, p + 1), Box::new(acc), Box::new(i))
                };
            }
            let at_index = TokenPosition { line: position.cursor.line, column: position.cursor.column };
            target = if is_static {
                Syntax::StaticAccess { position: at_index, target: Box::new(target), index: Box::new(index) }
            } else {
                Syntax::MemberAccess { position: at_index, target: Box::new(target), index: Box::new(index) }
            };
        }
        let has_arguments = self.has_more_tokens() && match self.peek_token() {
            Token::LeftParenthesis => true,
            _ => false,
        };
        if !has_arguments {
            return Err(error_at(matched.cursor, ParserErrorType::InvalidNewObject));
        }
        let ghost p = self.spec_pos();
        proof {
            assert(g_arguments(t, p, Seq::empty()) == g_arguments(t, p + 1, Seq::empty()));
        }
        let args = self.parse_arguments()?;
        Ok(
            Syntax::NewObject {
                position: TokenPosition { line: matched.cursor.line, column: matched.cursor.column },
                target: Box::new(target),
                args,
            },
        )
    }

    /// The arguments of a call, from its `(` to its `)`.
    #[verifier::spinoff_prover]
    #[verifier::rlimit(80)]
    fn parse_arguments(&mut self) -> (r: Result<Vec<Syntax>, ParserError>)
        requires
            old(self).wf(),
        ensures
            progressed(*final(self), *old(self), false),
            old(self).spec_pos() < old(self).spec_tokens().len() && old(self).token_at(old(self).spec_pos() as int)
                == Token::LeftParenthesis ==> final(self).spec_pos() > old(self).spec_pos(),
            match g_arguments(old(self).spec_tokens(), old(self).spec_pos(), Seq::empty()) {
                Some((es, q)) => r matches Ok(args) && are_trees(args@, es) && final(self).spec_pos() == q,
                None => r is Err,
            },
        decreases old(self).remaining(), 31nat,
    {
        let ghost t = self.spec_tokens();
        let ghost p0 = self.spec_pos();
        let mut args: Vec<Syntax> = Vec::new();
        let ghost mut acc: Seq<Tree> = Seq::empty();
        while self.has_more_tokens()
            invariant_except_break
                g_arguments(t, p0, Seq::empty()) == g_arguments(t, self.spec_pos(), acc),
            invariant
                progressed(*self, *old(self), false),
                t == self.spec_tokens(),
                t == old(self).spec_tokens(),
                p0 == old(self).spec_pos(),
                are_trees(args@, acc),
            ensures
                progressed(*self, *old(self), false),
                are_trees(args@, acc),
                g_arguments(t, p0, Seq::empty()) == Some((acc, self.spec_pos())),
                old(self).spec_pos() < old(self).spec_tokens().len() && old(self).token_at(old(self).spec_pos() as int)
                    == Token::LeftParenthesis ==> self.spec_pos() > old(self).spec_pos(),
            decreases self.remaining(),
        {
            let ghost p = self.spec_pos();
            match self.peek_token() {
                Token::LeftParenthesis => {
                    self.skip_next_token_or_error()?;
                },
                Token::Comma => {
                    self.skip_next_token_or_error()?;
                },
                Token::RightParenthesis => {
                    self.skip_next_token_or_error()?;
                    break;
                },
                _ => {
                    let arg = self.parse_expression()?;
                    proof {
                        let e = result_tree(g_expression(t, p));
                        lemma_are_trees_push(args@, acc, arg, e);
                        acc = acc.push(e);
                    }
                    args.push(arg);
                },
            }
        }
        Ok(args)
    }

    /// The index of an array access, after its `[`.
    #[verifier::spinoff_prover]
    #[verifier::rlimit(80)]
    fn parse_array_access(&mut self) -> (r: Result<Syntax, ParserError>)
        requires
            old(self).wf(),
        ensures
            progressed(*final(self), *old(self), false),
            parsed(r, final(self).spec_pos(), g_array_index(old(self).spec_tokens(), old(self).spec_pos(), None)),
        decreases old(self).remaining(), 31nat,
    {
        let ghost t = self.spec_tokens();
        let ghost p0 = self.spec_pos();
        let mut expr: Option<Syntax> = None;
        let ghost mut cur: Option<Tree> = None;
        while self.has_more_tokens()
            invariant_except_break
                g_array_index(t, p0, None) == g_array_index(t, self.spec_pos(), cur),
            invariant
                progressed(*self, *old(self), false),
                t == self.spec_tokens(),
                t == old(self).spec_tokens(),
                p0 == old(self).spec_pos(),
                expr is Some <==> cur is Some,
                expr matches Some(s) ==> is_tree(s, cur->0),
            ensures
                progressed(*self, *old(self), false),
                expr is Some <==> cur is Some,
                expr matches Some(s) ==> is_tree(s, cur->0),
                g_array_index(t, p0, None) == match cur {
                    Some(e) => Some((e, self.spec_pos())),
                    None => None,
                },
            decreases self.remaining(),
        {
            let ghost p = self.spec_pos();
            match self.peek_token() {
                Token::LeftSquareBracket => {
                    self.skip_next_token_or_error()?;
                },
                Token::RightSquareBracket => {
                    self.skip_next_token_or_error()?;
                    break;
                },
                _ => {
                    let e = self.parse_expression()?;
                    proof {
                        cur = Some(result_tree(g_expression(t, p)));
                    }
                    expr = Some(e);
                },
            }
        }
        match expr {
            Some(expr) => Ok(expr),
            None => Err(error_at(self.cursor(), ParserErrorType::InvalidArrayAccess)),
        }
    }
}

/// The extension of the files that `import` names.
pub const FILE_EXTENSION: &'static str = ".leo";

/// A parsed script and how long parsing took.
#[derive(Debug)]
pub struct ParserResult {
    pub syntax_tree: Vec<Syntax>,
    pub parser_time: Duration,
}

/// The position of a token as a syntax position.
fn position(c: Cursor) -> (r: TokenPosition)
    ensures
        r == position_of(c),
{
    TokenPosition { line: c.line, column: c.column }
}

/// An identifier node for a token.
fn identifier(m: MatchedToken<Token>) -> (r: Syntax)
    ensures
        r matches Syntax::Identifier { position: p, name } && p == position_of(m.cursor) && name@ == m.text@,
{
    Syntax::Identifier { position: position(m.cursor), name: m.text }
}

impl Parser {
    /// `var name [as type] [= value]`.
    #[verifier::spinoff_prover]
    #[verifier::rlimit(80)]
    pub fn parse_variable(&mut self) -> (r: Result<Syntax, ParserError>)
        requires
            old(self).wf(),
        ensures
            progressed(*final(self), *old(self), r is Ok),
            r matches Ok(s) ==> s is Variable,
            parsed(r, final(self).spec_pos(), g_variable(old(self).spec_tokens(), old(self).spec_pos())),
        decreases old(self).remaining(), 40nat,
    {
        let ghost t = self.spec_tokens();
        let ghost p0 = self.spec_pos();
        let keyword = self.match_next_token_or_error(Token::Var)?;
        let variable_name = self.match_next_token_or_error(Token::Identifier)?;
        let name = identifier(variable_name);
        proof {
            assert(is_tree(name, Tree::Name(at(t, p0 + 1), t[p0 + 1int].text@)));
        }
        if self.peek_next_token_match(Token::As) {
            self.skip_next_token_or_error()?;
            self.match_next_token_or_error(Token::Identifier)?;
        }
        let value = if self.peek_next_token_match(Token::SingleEquals) {
            self.skip_next_token_or_error()?;
            let expr = self.parse_expression()?;
            Some(Box::new(expr))
        } else {
            None
        };
        Ok(Syntax::Variable { position: position(keyword.cursor), name: Box::new(name), value })
    }

    /// An assignment `target = value`, or an expression (a call) on its own.
    #[verifier::spinoff_prover]
    #[verifier::rlimit(80)]
    pub fn parse_identifier_statement(&mut self) -> (r: Result<Syntax, ParserError>)
        requires
            old(self).wf(),
        ensures
            progressed(*final(self), *old(self), r is Ok),
            parsed(
                r,
                final(self).spec_pos(),
                g_assignment(old(self).spec_tokens(), old(self).spec_ends(), old(self).spec_pos()),
            ),
        decreases old(self).remaining(), 40nat,
    {
        let ghost t = self.spec_tokens();
        let ghost p0 = self.spec_pos();
        let at = self.cursor();
        let expr = self.parse_expression()?;
        let ghost e = result_tree(g_expression(t, p0));
        if let Syntax::Call { .. } = &expr {
            proof {
                assert(e is Call);
            }
            return Ok(expr);
        }
        proof {
            assert(!(e is Call));
        }
        let peeked = self.peek_next_token_or_error()?;
        match peeked.token {
            Token::SingleEquals => {
                self.skip_matched_token_or_error(Token::SingleEquals)?;
                let value = self.parse_expression()?;
                Ok(Syntax::Assign { position: position(at), target: Box::new(expr), value: Box::new(value) })
            },
            _ => Ok(expr),
        }
    }

    /// `return [expression]`.
    #[verifier::spinoff_prover]
    #[verifier::rlimit(80)]
    pub fn parse_return(&mut self) -> (r: Result<Syntax, ParserError>)
        requires
            old(self).wf(),
        ensures
            progressed(*final(self), *old(self), r is Ok),
            r matches Ok(s) ==> s is Return,
            parsed(r, final(self).spec_pos(), g_return(old(self).spec_tokens(), old(self).spec_pos())),
        decreases old(self).remaining(), 40nat,
    {
        let keyword = self.match_next_token_or_error(Token::Return)?;
        let mut expr: Option<Box<Syntax>> = None;
        if self.has_more_tokens() {
            let peeked = self.peek_next_token_or_error()?;
            if Parser::is_expression_token(peeked.token) {
                let e = self.parse_expression()?;
                expr = Some(Box::new(e));
            }
        }
        Ok(Syntax::Return { position: position(keyword.cursor), expr })
    }

    /// One statement of a function body.
    #[verifier::spinoff_prover]
    #[verifier::rlimit(80)]
    pub fn match_function_statement(&mut self) -> (r: Result<Syntax, ParserError>)
        requires
            old(self).wf(),
        ensures
            progressed(*final(self), *old(self), r is Ok),
            parsed(
                r,
                final(self).spec_pos(),
                g_statement(old(self).spec_tokens(), old(self).spec_ends(), old(self).spec_pos()),
            ),
        decreases old(self).remaining(), 41nat,
    {
        let peeked = self.peek_next_token_or_error()?;
        match peeked.token {
            Token::Var => self.parse_variable(),
            Token::If => self.parse_if(),
            Token::Match => self.parse_match(),
            Token::For => self.parse_for_loop(),
            Token::While => self.parse_while_loop(),
            Token::Identifier => self.parse_identifier_statement(),
            Token::Continue => {
                self.skip_next_token_or_error()?;
                Ok(Syntax::Continue { position: position(peeked.cursor) })
            },
            Token::Break => {
                self.skip_next_token_or_error()?;
                Ok(Syntax::Break { position: position(peeked.cursor) })
            },
            Token::Return => self.parse_return(),
            _ => Err(error_at(peeked.cursor, ParserErrorType::UnwantedToken(peeked.token))),
        }
    }

    /// Statements up to and including `end`.
    #[verifier::spinoff_prover]
    #[verifier::rlimit(80)]
    pub fn parse_ended_statement_block(&mut self) -> (r: Result<Vec<Syntax>, ParserError>)
        requires
            old(self).wf(),
        ensures
            progressed(*final(self), *old(self), false),
            parsed_list(
                r,
                final(self).spec_pos(),
                g_block(old(self).spec_tokens(), old(self).spec_ends(), old(self).spec_pos(), Seq::empty()),
            ),
        decreases old(self).remaining(), 42nat,
    {
        let ghost t = self.spec_tokens();
        let ghost ends = self.spec_ends();
        let ghost p0 = self.spec_pos();
        let mut body: Vec<Syntax> = Vec::new();
        let ghost mut acc: Seq<Tree> = Seq::empty();
        while self.has_more_tokens()
            invariant_except_break
                g_block(t, ends, p0, Seq::empty()) == g_block(t, ends, self.spec_pos(), acc),
            invariant
                progressed(*self, *old(self), false),
                t == self.spec_tokens(),
                t == old(self).spec_tokens(),
                ends == old(self).spec_ends(),
                ends == self.spec_ends(),
                p0 == old(self).spec_pos(),
                are_trees(body@, acc),
            ensures
                progressed(*self, *old(self), false),
                are_trees(body@, acc),
                g_block(t, ends, p0, Seq::empty()) == Some((acc, self.spec_pos())),
            decreases self.remaining(),
        {
            let ghost p = self.spec_pos();
            let peeked = self.peek_next_token_or_error()?;
            if peeked.token == Token::End {
                self.skip_next_token_or_error()?;
                break;
            }
            let s = self.match_function_statement()?;
            let ghost e = result_tree(g_statement(t, ends, p));
            match s {
                Syntax::Comment { .. } => {
                    proof {
                        assert(false);
                    }
                },
                s => {
                    proof {
                        lemma_are_trees_push(body@, acc, s, e);
                        acc = acc.push(e);
                    }
                    body.push(s);
                },
            }
        }
        Ok(body)
    }

    /// Statements up to `end`, which is consumed, or up to `else`, which is not.
    #[verifier::spinoff_prover]
    #[verifier::rlimit(80)]
    fn parse_if_body(&mut self) -> (r: Result<Vec<Syntax>, ParserError>)
        requires
            old(self).wf(),
        ensures
            progressed(*final(self), *old(self), false),
            parsed_list(
                r,
                final(self).spec_pos(),
                g_if_body(old(self).spec_tokens(), old(self).spec_ends(), old(self).spec_pos(), Seq::empty()),
            ),
        decreases old(self).remaining(), 42nat,
    {
        let ghost t = self.spec_tokens();
        let ghost ends = self.spec_ends();
        let ghost p0 = self.spec_pos();
        let mut body: Vec<Syntax> = Vec::new();
        let ghost mut acc: Seq<Tree> = Seq::empty();
        while self.has_more_tokens()
            invariant_except_break
                g_if_body(t, ends, p0, Seq::empty()) == g_if_body(t, ends, self.spec_pos(), acc),
            invariant
                progressed(*self, *old(self), false),
                t == self.spec_tokens(),
                t == old(self).spec_tokens(),
                ends == old(self).spec_ends(),
                ends == self.spec_ends(),
                p0 == old(self).spec_pos(),
                are_trees(body@, acc),
            ensures
                progressed(*self, *old(self), false),
                are_trees(body@, acc),
                g_if_body(t, ends, p0, Seq::empty()) == Some((acc, self.spec_pos())),
            decreases self.remaining(),
        {
            let ghost p = self.spec_pos();
            let peeked = self.peek_next_token_or_error()?;
            if peeked.token == Token::End {
                self.skip_next_token_or_error()?;
                break;
            }
            if peeked.token == Token::Else {
                break;
            }
            let s = self.match_function_statement()?;
            proof {
                let e = result_tree(g_statement(t, ends, p));
                lemma_are_trees_push(body@, acc, s, e);
                acc = acc.push(e);
            }
            body.push(s);
        }
        Ok(body)
    }

    /// `if condition then body`.
    #[verifier::spinoff_prover]
    #[verifier::rlimit(80)]
    fn parse_if_block(&mut self) -> (r: Result<Syntax, ParserError>)
        requires
            old(self).wf(),
        ensures
            progressed(*final(self), *old(self), r is Ok),
            r matches Ok(s) ==> s is If,
            parsed(r, final(self).spec_pos(), g_if_block(old(self).spec_tokens(), old(self).spec_ends(), old(self).spec_pos())),
        decreases old(self).remaining(), 39nat,
    {
        let keyword = self.match_next_token_or_error(Token::If)?;
        let condition = self.parse_expression()?;
        self.skip_matched_token_or_error(Token::Then)?;
        let body = self.parse_if_body()?;
        Ok(Syntax::If { position: position(keyword.cursor), condition: Box::new(condition), body })
    }

    /// An `if`, its `else if`s and its `else`.
    #[verifier::spinoff_prover]
    #[verifier::rlimit(80)]
    pub fn parse_if(&mut self) -> (r: Result<Syntax, ParserError>)
        requires
            old(self).wf(),
        ensures
            progressed(*final(self), *old(self), r is Ok),
            r matches Ok(s) ==> s is IfChain,
            parsed(r, final(self).spec_pos(), g_if(old(self).spec_tokens(), old(self).spec_ends(), old(self).spec_pos())),
        decreases old(self).remaining(), 40nat,
    {
        let ghost t = self.spec_tokens();
        let ghost ends = self.spec_ends();
        let ghost p0 = self.spec_pos();
        let keyword = self.peek_next_token_or_error()?;
        let ghost pos = position_of(keyword.cursor);
        let first = self.parse_if_block()?;
        let mut arms: Vec<Syntax> = Vec::new();
        let ghost mut acc: Seq<Tree> = Seq::empty();
        proof {
            let e = result_tree(g_if_block(t, ends, p0));
            lemma_are_trees_push(arms@, acc, first, e);
            acc = acc.push(e);
        }
        arms.push(first);
        while self.has_more_tokens()
            invariant_except_break
                g_if(t, ends, p0) == g_if_tail(t, ends, self.spec_pos(), acc, pos),
            invariant
                progressed(*self, *old(self), true),
                t == self.spec_tokens(),
                t == old(self).spec_tokens(),
                ends == old(self).spec_ends(),
                ends == self.spec_ends(),
                p0 == old(self).spec_pos(),
                pos == position_of(keyword.cursor),
                are_trees(arms@, acc),
            ensures
                progressed(*self, *old(self), true),
                are_trees(arms@, acc),
                g_if(t, ends, p0) == Some((Tree::IfChain(pos, acc), self.spec_pos())),
            decreases self.remaining(),
        {
            let ghost p = self.spec_pos();
            if self.peek_next_token_match(Token::Else) {
                let else_kw = self.next_token_or_error()?;
                if self.peek_next_token_match(Token::If) {
                    let arm = self.parse_if_block()?;
                    proof {
                        let e = result_tree(g_if_block(t, ends, p + 1));
                        lemma_are_trees_push(arms@, acc, arm, e);
                        acc = acc.push(e);
                    }
                    arms.push(arm);
                } else {
                    let body = self.parse_if_body()?;
                    let arm = Syntax::Else { position: position(else_kw.cursor), body };
                    proof {
                        let e = Tree::Else(at(t, p), result_list(g_if_body(t, ends, p + 1, Seq::empty())));
                        lemma_are_trees_push(arms@, acc, arm, e);
                        acc = acc.push(e);
                    }
                    arms.push(arm);
                }
            } else {
                break;
            }
        }
        Ok(Syntax::IfChain { position: position(keyword.cursor), arms })
    }

    /// `match expression`, its `case`s, an optional `default`, and `end`.
    #[verifier::spinoff_prover]
    #[verifier::rlimit(100)]
    pub fn parse_match(&mut self) -> (r: Result<Syntax, ParserError>)
        requires
            old(self).wf(),
        ensures
            progressed(*final(self), *old(self), r is Ok),
            r matches Ok(s) ==> s is Match,
            parsed(r, final(self).spec_pos(), g_match(old(self).spec_tokens(), old(self).spec_ends(), old(self).spec_pos())),
            match match_arms_start(old(self).spec_tokens(), old(self).spec_pos()) {
                Some(q) => match match_stray(old(self).spec_tokens(), old(self).spec_ends(), q) {
                    Some(s) => r matches Err(err) && err.error == ParserErrorType::UnwantedToken(
                        old(self).spec_tokens()[s as int].token,
                    ) && err.position == position_of(old(self).spec_tokens()[s as int].cursor),
                    None => true,
                },
                None => true,
            },
        decreases old(self).remaining(), 40nat,
    {
        let ghost t = self.spec_tokens();
        let ghost ends = self.spec_ends();
        let ghost p0 = self.spec_pos();
        let keyword = match self.match_next_token_or_error(Token::Match) {
            Ok(k) => k,
            Err(err) => {
                proof {
                    assert(!token_is(t, p0, Token::Match));
                    assert(match_arms_start(t, p0) is None);
                }
                return Err(err);
            },
        };
        let ghost pos = position_of(keyword.cursor);
        let mut arms: Vec<Syntax> = Vec::new();
        let mut default: Option<Box<Syntax>> = None;
        let expr = match self.parse_expression() {
            Ok(x) => x,
            Err(err) => {
                proof {
                    assert(match_arms_start(t, p0) is None);
                }
                return Err(err);
            },
        };
        let ghost e = result_tree(g_expression(t, p0 + 1));
        let ghost q0 = self.spec_pos();
        let ghost mut acc: Seq<Tree> = Seq::empty();
        let ghost mut dflt: Option<Box<Tree>> = None;
        while self.has_more_tokens()
            invariant_except_break
                g_match(t, ends, p0) == g_match_arms(t, ends, self.spec_pos(), e, acc, dflt, pos),
                match_stray(t, ends, q0) == match_stray(t, ends, self.spec_pos()),
                match_arms_start(t, p0) == Some(q0),
            invariant
                progressed(*self, *old(self), true),
                t == self.spec_tokens(),
                t == old(self).spec_tokens(),
                ends == old(self).spec_ends(),
                ends == self.spec_ends(),
                p0 == old(self).spec_pos(),
                pos == position_of(keyword.cursor),
                is_tree(expr, e),
                are_trees(arms@, acc),
                match (default, dflt) {
                    (None, None) => true,
                    (Some(a), Some(b)) => is_tree(*a, *b),
                    _ => false,
                },
            ensures
                progressed(*self, *old(self), true),
                is_tree(expr, e),
                are_trees(arms@, acc),
                match (default, dflt) {
                    (None, None) => true,
                    (Some(a), Some(b)) => is_tree(*a, *b),
                    _ => false,
                },
                g_match(t, ends, p0) == Some((Tree::Match(pos, Box::new(e), acc, dflt), self.spec_pos())),
                match_stray(t, ends, q0) is None,
            decreases self.remaining(),
        {
            let ghost p = self.spec_pos();
            let next = self.next_token_or_error()?;
            match next.token {
                Token::Case => {
                    let condition = self.parse_expression()?;
                    self.skip_matched_token_or_error(Token::Then)?;
                    let ghost q = self.spec_pos();
                    let body = self.parse_if_body()?;
                    let arm = Syntax::Case { position: position(next.cursor), condition: Box::new(condition), body };
                    proof {
                        let c = result_tree(g_expression(t, p + 1));
                        let a = Tree::Case(at(t, p), Box::new(c), result_list(g_if_body(t, ends, q, Seq::empty())));
                        lemma_are_trees_push(arms@, acc, arm, a);
                        acc = acc.push(a);
                    }
                    arms.push(arm);
                },
                Token::Default => {
                    self.skip_matched_token_or_error(Token::Then)?;
                    let body = self.parse_if_body()?;
                    proof {
                        dflt = Some(Box::new(Tree::Default(at(t, p), result_list(g_if_body(t, ends, p + 2, Seq::empty())))));
                    }
                    default = Some(Box::new(Syntax::DefaultCase { position: position(next.cursor), body }));
                },
                Token::End => {
                    break;
                },
                _ => return Err(error_at(next.cursor, ParserErrorType::UnwantedToken(next.token))),
            }
        }
        Ok(Syntax::Match { position: position(keyword.cursor), expr: Box::new(expr), arms, default })
    }

    /// `while condition do body end`.
    #[verifier::spinoff_prover]
    #[verifier::rlimit(80)]
    pub fn parse_while_loop(&mut self) -> (r: Result<Syntax, ParserError>)
        requires
            old(self).wf(),
        ensures
            progressed(*final(self), *old(self), r is Ok),
            r matches Ok(s) ==> s is WhileLoop,
            parsed(r, final(self).spec_pos(), g_while(old(self).spec_tokens(), old(self).spec_ends(), old(self).spec_pos())),
        decreases old(self).remaining(), 40nat,
    {
        let keyword = self.match_next_token_or_error(Token::While)?;
        let condition = self.parse_expression()?;
        self.skip_matched_token_or_error(Token::Do)?;
        let body = self.parse_loop_end_statement_block()?;
        Ok(Syntax::WhileLoop { position: position(keyword.cursor), condition: Box::new(condition), body })
    }

    /// What a `for` walks: `in collection`, or `= start to end [step s]`.
    #[verifier::spinoff_prover]
    #[verifier::rlimit(80)]
    fn parse_for_collection(&mut self) -> (r: Result<Syntax, ParserError>)
        requires
            old(self).wf(),
        ensures
            progressed(*final(self), *old(self), r is Ok),
            parsed(r, final(self).spec_pos(), g_for_collection(old(self).spec_tokens(), old(self).spec_pos())),
        decreases old(self).remaining(), 39nat,
    {
        let kw = self.peek_next_token_or_error()?;
        match kw.token {
            Token::In => {
                self.skip_next_token_or_error()?;
                self.parse_expression()
            },
            Token::SingleEquals => {
                self.skip_next_token_or_error()?;
                self.parse_range()
            },
            _ => Err(error_at(kw.cursor, ParserErrorType::UnwantedToken(kw.token))),
        }
    }

    /// `start to end [step s]`.
    #[verifier::spinoff_prover]
    #[verifier::rlimit(80)]
    fn parse_range(&mut self) -> (r: Result<Syntax, ParserError>)
        requires
            old(self).wf(),
        ensures
            progressed(*final(self), *old(self), r is Ok),
            parsed(r, final(self).spec_pos(), g_range(old(self).spec_tokens(), old(self).spec_pos())),
        decreases old(self).remaining(), 38nat,
    {
        let ghost t = self.spec_tokens();
        let ghost p0 = self.spec_pos();
        let start = self.parse_expression()?;
        let ghost a = result_tree(g_expression(t, p0));
        self.skip_matched_token_or_error(Token::To)?;
        let ghost q1 = self.spec_pos();
        let end = self.parse_expression()?;
        let ghost b = result_tree(g_expression(t, q1));
        let ghost q2 = self.spec_pos();
        if self.peek_next_token_match(Token::Step) {
            self.skip_matched_token_or_error(Token::Step)?;
            let ghost q3 = self.spec_pos();
            let s = self.parse_expression()?;
            let ghost st = result_tree(g_expression(t, q3));
            let range = Syntax::Range { start: Box::new(start), end: Box::new(end), step: Some(Box::new(s)) };
            proof {
                assert(is_tree(range, Tree::Range(Box::new(a), Box::new(b), Some(Box::new(st)))));
            }
            Ok(range)
        } else {
            let range = Syntax::Range { start: Box::new(start), end: Box::new(end), step: None };
            proof {
                assert(is_tree(range, Tree::Range(Box::new(a), Box::new(b), None)));
            }
            Ok(range)
        }
    }

    /// `for x in collection do body end` or
    /// `for x = start to end [step step] do body end`.
    #[verifier::spinoff_prover]
    #[verifier::rlimit(80)]
    pub fn parse_for_loop(&mut self) -> (r: Result<Syntax, ParserError>)
        requires
            old(self).wf(),
        ensures
            progressed(*final(self), *old(self), r is Ok),
            r matches Ok(s) ==> s is ForEach,
            parsed(r, final(self).spec_pos(), g_for(old(self).spec_tokens(), old(self).spec_ends(), old(self).spec_pos())),
        decreases old(self).remaining(), 40nat,
    {
        let ghost t = self.spec_tokens();
        let ghost p0 = self.spec_pos();
        let keyword = self.match_next_token_or_error(Token::For)?;
        let variable = self.match_next_token_or_error(Token::Identifier)?;
        let name = identifier(variable);
        proof {
            assert(is_tree(name, Tree::Name(at(t, p0 + 1), t[p0 + 1int].text@)));
        }
        let iterable = self.parse_for_collection()?;
        self.skip_matched_token_or_error(Token::Do)?;
        let body = self.parse_loop_end_statement_block()?;
        Ok(
            Syntax::ForEach {
                position: position(keyword.cursor),
                ident: Box::new(name),
                collection: Box::new(iterable),
                body,
            },
        )
    }

    /// Statements up to and including `end`.
    #[verifier::spinoff_prover]
    #[verifier::rlimit(80)]
    pub fn parse_loop_end_statement_block(&mut self) -> (r: Result<Vec<Syntax>, ParserError>)
        requires
            old(self).wf(),
        ensures
            progressed(*final(self), *old(self), false),
            parsed_list(
                r,
                final(self).spec_pos(),
                g_block(old(self).spec_tokens(), old(self).spec_ends(), old(self).spec_pos(), Seq::empty()),
            ),
        decreases old(self).remaining(), 42nat,
    {
        let ghost t = self.spec_tokens();
        let ghost ends = self.spec_ends();
        let ghost p0 = self.spec_pos();
        let mut body: Vec<Syntax> = Vec::new();
        let ghost mut acc: Seq<Tree> = Seq::empty();
        while self.has_more_tokens()
            invariant_except_break
                g_block(t, ends, p0, Seq::empty()) == g_block(t, ends, self.spec_pos(), acc),
            invariant
                progressed(*self, *old(self), false),
                t == self.spec_tokens(),
                t == old(self).spec_tokens(),
                ends == old(self).spec_ends(),
                ends == self.spec_ends(),
                p0 == old(self).spec_pos(),
                are_trees(body@, acc),
            ensures
                progressed(*self, *old(self), false),
                are_trees(body@, acc),
                g_block(t, ends, p0, Seq::empty()) == Some((acc, self.spec_pos())),
            decreases self.remaining(),
        {
            let ghost p = self.spec_pos();
            let peeked = self.peek_next_token_or_error()?;
            if peeked.token == Token::End {
                self.skip_next_token_or_error()?;
                break;
            }
            let s = self.match_function_statement()?;
            proof {
                let e = result_tree(g_statement(t, ends, p));
                lemma_are_trees_push(body@, acc, s, e);
                acc = acc.push(e);
            }
            body.push(s);
        }
        Ok(body)
    }

    /// The parameters of a function, from `(` to `)`.
    #[verifier::spinoff_prover]
    #[verifier::rlimit(80)]
    pub fn parse_function_parameters(&mut self) -> (r: Result<Vec<Syntax>, ParserError>)
        requires
            old(self).wf(),
        ensures
            progressed(*final(self), *old(self), false),
            parsed_list(r, final(self).spec_pos(), g_parameters(old(self).spec_tokens(), old(self).spec_pos(), Seq::empty())),
        decreases old(self).remaining(), 43nat,
    {
        let ghost t = self.spec_tokens();
        let ghost p0 = self.spec_pos();
        let mut args: Vec<Syntax> = Vec::new();
        let ghost mut acc: Seq<Tree> = Seq::empty();
        while self.has_more_tokens()
            invariant_except_break
                g_parameters(t, p0, Seq::empty()) == g_parameters(t, self.spec_pos(), acc),
            invariant
                progressed(*self, *old(self), false),
                t == self.spec_tokens(),
                t == old(self).spec_tokens(),
                p0 == old(self).spec_pos(),
                are_trees(args@, acc),
            ensures
                progressed(*self, *old(self), false),
                are_trees(args@, acc),
                g_parameters(t, p0, Seq::empty()) == Some((acc, self.spec_pos())),
            decreases self.remaining(),
        {
            let ghost p = self.spec_pos();
            let matched = self.next_token_or_error()?;
            match matched.token {
                Token::Identifier => {
                    let at = position(matched.cursor);
                    let name = identifier(matched);
                    proof {
                        assert(is_tree(name, name_at(t, p)));
                    }
                    let parameter = Syntax::Variable { position: at, name: Box::new(name), value: None };
                    proof {
                        let e = Tree::Var(crate::grammar::at(t, p), Box::new(name_at(t, p)), None);
                        lemma_are_trees_push(args@, acc, parameter, e);
                        acc = acc.push(e);
                    }
                    args.push(parameter);
                },
                Token::LeftParenthesis => {},
                Token::Comma => {},
                Token::RightParenthesis => {
                    break;
                },
                _ => return Err(error_at(matched.cursor, ParserErrorType::UnwantedToken(matched.token))),
            }
        }
        Ok(args)
    }

    /// `function name(parameters) body end`.
    #[verifier::spinoff_prover]
    #[verifier::rlimit(80)]
    pub fn parse_function(&mut self) -> (r: Result<Syntax, ParserError>)
        requires
            old(self).wf(),
        ensures
            progressed(*final(self), *old(self), r is Ok),
            r matches Ok(s) ==> s is Function,
            parsed(r, final(self).spec_pos(), g_function(old(self).spec_tokens(), old(self).spec_ends(), old(self).spec_pos())),
        decreases old(self).remaining(), 44nat,
    {
        let ghost t = self.spec_tokens();
        let ghost p0 = self.spec_pos();
        let function_kw = self.match_next_token_or_error(Token::Function)?;
        let ident = self.match_next_token_or_error(Token::Identifier)?;
        let name = identifier(ident);
        proof {
            assert(is_tree(name, name_at(t, p0 + 1)));
        }
        let parameters = self.parse_function_parameters()?;
        let body = self.parse_ended_statement_block()?;
        Ok(
            Syntax::Function {
                position: position(function_kw.cursor),
                function_name: Box::new(name),
                is_static: false,
                parameters,
                body,
            },
        )
    }

    /// `constructor(parameters) body end`.
    #[verifier::spinoff_prover]
    #[verifier::rlimit(80)]
    pub fn parse_constructor(&mut self) -> (r: Result<Syntax, ParserError>)
        requires
            old(self).wf(),
        ensures
            progressed(*final(self), *old(self), r is Ok),
            r matches Ok(s) ==> s is Constructor,
            parsed(
                r,
                final(self).spec_pos(),
                g_constructor(old(self).spec_tokens(), old(self).spec_ends(), old(self).spec_pos()),
            ),
        decreases old(self).remaining(), 44nat,
    {
        let function_kw = self.match_next_token_or_error(Token::Constructor)?;
        let args = self.parse_function_parameters()?;
        let body = self.parse_ended_statement_block()?;
        Ok(Syntax::Constructor { position: position(function_kw.cursor), input: args, body })
    }

    /// `attribute name [= value]`.
    #[verifier::spinoff_prover]
    #[verifier::rlimit(80)]
    fn parse_attribute(&mut self) -> (r: Result<Syntax, ParserError>)
        requires
            old(self).wf(),
        ensures
            progressed(*final(self), *old(self), r is Ok),
            r matches Ok(s) ==> s is Attribute,
            parsed(r, final(self).spec_pos(), g_attribute(old(self).spec_tokens(), old(self).spec_pos())),
        decreases old(self).remaining(), 44nat,
    {
        let ghost t = self.spec_tokens();
        let ghost p0 = self.spec_pos();
        let attribute_kw = self.next_token_or_error()?;
        let attribute_name = self.match_next_token_or_error(Token::Identifier)?;
        let name = identifier(attribute_name);
        proof {
            assert(is_tree(name, name_at(t, p0 + 1)));
        }
        let value = if self.peek_next_token_match(Token::SingleEquals) {
            self.skip_next_token_or_error()?;
            let expr = self.parse_expression()?;
            Some(Box::new(expr))
        } else {
            None
        };
        Ok(Syntax::Attribute { position: position(attribute_kw.cursor), name: Box::new(name), value })
    }

    /// `const name [= value]`; without a value the constant is `null`.
    #[verifier::spinoff_prover]
    #[verifier::rlimit(80)]
    pub fn parse_constant(&mut self) -> (r: Result<Syntax, ParserError>)
        requires
            old(self).wf(),
        ensures
            progressed(*final(self), *old(self), r is Ok),
            r matches Ok(s) ==> s is Constant,
            parsed(r, final(self).spec_pos(), g_constant(old(self).spec_tokens(), old(self).spec_pos())),
        decreases old(self).remaining(), 44nat,
    {
        let ghost t = self.spec_tokens();
        let ghost p0 = self.spec_pos();
        let constant_keyword = self.next_token_or_error()?;
        let constant_name = self.match_next_token_or_error(Token::Identifier)?;
        proof {
            assert(constant_name.text@ == t[p0 + 1int].text@);
        }
        if self.peek_next_token_match(Token::SingleEquals) {
            self.skip_next_token_or_error()?;
            let value = self.parse_expression()?;
            let c = Syntax::Constant { position: position(constant_keyword.cursor), name: constant_name.text, value: Box::new(value) };
            proof {
                assert(is_tree(c, Tree::Constant(crate::grammar::at(t, p0), t[p0 + 1int].text@, Box::new(result_tree(g_expression(t, p0 + 3))))));
            }
            Ok(c)
        } else {
            let c = Syntax::Constant { position: position(constant_keyword.cursor), name: constant_name.text, value: Box::new(Syntax::Null) };
            proof {
                assert(is_tree(Syntax::Null, Tree::Null));
                assert(is_tree(c, Tree::Constant(crate::grammar::at(t, p0), t[p0 + 1int].text@, Box::new(Tree::Null))));
            }
            Ok(c)
        }
    }

    /// `enum Name item ... end`.
    #[verifier::spinoff_prover]
    #[verifier::rlimit(80)]
    pub fn parse_enum(&mut self) -> (r: Result<Syntax, ParserError>)
        requires
            old(self).wf(),
        ensures
            progressed(*final(self), *old(self), r is Ok),
            r matches Ok(s) ==> s is Enum,
            parsed(r, final(self).spec_pos(), g_enum(old(self).spec_tokens(), old(self).spec_pos())),
        decreases old(self).remaining(), 44nat,
    {
        let ghost t = self.spec_tokens();
        let ghost p0 = self.spec_pos();
        let keyword = self.next_token_or_error()?;
        let name = self.next_token_or_error()?;
        let mut items: Vec<Syntax> = Vec::new();
        let ghost mut acc: Seq<Tree> = Seq::empty();
        while self.has_more_tokens()
            invariant_except_break
                g_enum_items(t, p0 + 2, Seq::empty()) == g_enum_items(t, self.spec_pos(), acc),
            invariant
                progressed(*self, *old(self), true),
                t == self.spec_tokens(),
                t == old(self).spec_tokens(),
                p0 == old(self).spec_pos(),
                are_trees(items@, acc),
            ensures
                progressed(*self, *old(self), true),
                are_trees(items@, acc),
                g_enum_items(t, p0 + 2, Seq::empty()) == Some((acc, self.spec_pos())),
            decreases self.remaining(),
        {
            let ghost p = self.spec_pos();
            let token = self.next_token_or_error()?;
            match token.token {
                Token::Identifier => {
                    let item = identifier(token);
                    proof {
                        lemma_are_trees_push(items@, acc, item, name_at(t, p));
                        acc = acc.push(name_at(t, p));
                    }
                    items.push(item);
                },
                Token::End => break,
                _ => return Err(error_at(token.cursor, ParserErrorType::UnexpectedError)),
            }
        }
        let name = identifier(name);
        proof {
            assert(is_tree(name, name_at(t, p0 + 1)));
        }
        Ok(Syntax::Enum { position: position(keyword.cursor), name: Box::new(name), items })
    }

    /// `class Name` with attributes, a constructor and methods, then `end`.
    #[verifier::spinoff_prover]
    #[verifier::rlimit(80)]
    pub fn parse_class(&mut self) -> (r: Result<Syntax, ParserError>)
        requires
            old(self).wf(),
        ensures
            progressed(*final(self), *old(self), r is Ok),
            r matches Ok(s) ==> s is Class,
            parsed(r, final(self).spec_pos(), g_class(old(self).spec_tokens(), old(self).spec_ends(), old(self).spec_pos())),
        decreases old(self).remaining(), 45nat,
    {
        let ghost t = self.spec_tokens();
        let ghost ends = self.spec_ends();
        let ghost p0 = self.spec_pos();
        let class_keyword = self.next_token_or_error()?;
        let class_name = self.match_next_token_or_error(Token::Identifier)?;
        let ghost head = (crate::grammar::at(t, p0), name_at(t, p0 + 1));
        let mut attributes: Vec<Syntax> = Vec::new();
        let mut methods: Vec<Syntax> = Vec::new();
        let mut constructor: Option<Box<Syntax>> = None;
        let ghost mut attrs: Seq<Tree> = Seq::empty();
        let ghost mut ms: Seq<Tree> = Seq::empty();
        let ghost mut ctor: Option<Box<Tree>> = None;
        while self.has_more_tokens()
            invariant_except_break
                g_class(t, ends, p0) == g_class_members(t, ends, self.spec_pos(), attrs, ctor, ms, head),
            invariant
                progressed(*self, *old(self), true),
                t == self.spec_tokens(),
                t == old(self).spec_tokens(),
                ends == old(self).spec_ends(),
                ends == self.spec_ends(),
                p0 == old(self).spec_pos(),
                are_trees(attributes@, attrs),
                are_trees(methods@, ms),
                match (constructor, ctor) {
                    (None, None) => true,
                    (Some(a), Some(b)) => is_tree(*a, *b),
                    _ => false,
                },
            ensures
                progressed(*self, *old(self), true),
                are_trees(attributes@, attrs),
                are_trees(methods@, ms),
                match (constructor, ctor) {
                    (None, None) => true,
                    (Some(a), Some(b)) => is_tree(*a, *b),
                    _ => false,
                },
                g_class(t, ends, p0) == Some((Tree::Class(head.0, Box::new(head.1), attrs, ctor, ms), self.spec_pos())),
            decreases self.remaining(),
        {
            let ghost p = self.spec_pos();
            let peeked = self.peek_next_token_or_error()?;
            match peeked.token {
                Token::Attribute => {
                    let a = self.parse_attribute()?;
                    proof {
                        let e = result_tree(g_attribute(t, p));
                        lemma_are_trees_push(attributes@, attrs, a, e);
                        attrs = attrs.push(e);
                    }
                    attributes.push(a);
                },
                Token::Function => {
                    let f = self.parse_function()?;
                    proof {
                        let e = result_tree(g_function(t, ends, p));
                        lemma_are_trees_push(methods@, ms, f, e);
                        ms = ms.push(e);
                    }
                    methods.push(f);
                },
                Token::Constructor => {
                    let c = self.parse_constructor()?;
                    proof {
                        ctor = Some(Box::new(result_tree(g_constructor(t, ends, p))));
                    }
                    constructor = Some(Box::new(c));
                },
                Token::End => {
                    self.skip_next_token_or_error()?;
                    break;
                },
                _ => return Err(error_at(peeked.cursor, ParserErrorType::UnwantedToken(peeked.token))),
            }
        }
        let name = identifier(class_name);
        proof {
            assert(is_tree(name, head.1));
        }
        Ok(
            Syntax::Class {
                position: position(class_keyword.cursor),
                class_name: Box::new(name),
                attributes,
                constructor,
                methods,
            },
        )
    }

    /// `import a.b.c`: the path `a/b/c.leo` of the file to import. Reading
    /// and parsing that file is left to the host.
    #[verifier::spinoff_prover]
    #[verifier::rlimit(80)]
    pub fn parse_import(&mut self) -> (r: Result<Syntax, ParserError>)
        requires
            old(self).wf(),
        ensures
            progressed(*final(self), *old(self), r is Ok),
            r matches Ok(s) ==> s is Import,
            parsed(r, final(self).spec_pos(), g_import(old(self).spec_tokens(), old(self).spec_pos())),
        decreases old(self).remaining(), 44nat,
    {
        let ghost t = self.spec_tokens();
        let ghost p0 = self.spec_pos();
        let import_keyword = self.next_token_or_error()?;
        let mut path = String::new();
        while self.has_more_tokens()
            invariant_except_break
                g_import_path(t, p0 + 1, Seq::empty()) == g_import_path(t, self.spec_pos(), path@),
            invariant
                progressed(*self, *old(self), true),
                t == self.spec_tokens(),
                t == old(self).spec_tokens(),
                p0 == old(self).spec_pos(),
            ensures
                progressed(*self, *old(self), true),
                g_import_path(t, p0 + 1, Seq::empty()) == (path@, self.spec_pos()),
            decreases self.remaining(),
        {
            let peeked = self.peek_next_token_or_error()?;
            match peeked.token {
                Token::Identifier => {
                    let ident = self.next_token_or_error()?;
                    path.append(ident.text.as_str());
                    if self.peek_next_token_match(Token::Dot) {
                        path.append("/");
                        self.skip_next_token_or_error()?;
                    } else {
                        path.append(FILE_EXTENSION);
                    }
                },
                _ => break,
            }
        }
        Ok(Syntax::Import { position: position(import_keyword.cursor), path })
    }

    /// `module Name` with its members, then `end`.
    #[verifier::spinoff_prover]
    #[verifier::rlimit(80)]
    pub fn parse_module(&mut self) -> (r: Result<Syntax, ParserError>)
        requires
            old(self).wf(),
        ensures
            progressed(*final(self), *old(self), r is Ok),
            r matches Ok(s) ==> s is Module,
            parsed(r, final(self).spec_pos(), g_module(old(self).spec_tokens(), old(self).spec_ends(), old(self).spec_pos())),
        decreases old(self).remaining(), 45nat,
    {
        let ghost t = self.spec_tokens();
        let ghost ends = self.spec_ends();
        let ghost p0 = self.spec_pos();
        let module_keyword = self.next_token_or_error()?;
        let module_name = self.match_next_token_or_error(Token::Identifier)?;
        let mut body: Vec<Syntax> = Vec::new();
        let ghost mut acc: Seq<Tree> = Seq::empty();
        while self.has_more_tokens()
            invariant_except_break
                g_module_members(t, ends, p0 + 2, Seq::empty()) == g_module_members(t, ends, self.spec_pos(), acc),
            invariant
                progressed(*self, *old(self), true),
                t == self.spec_tokens(),
                t == old(self).spec_tokens(),
                ends == old(self).spec_ends(),
                ends == self.spec_ends(),
                p0 == old(self).spec_pos(),
                are_trees(body@, acc),
            ensures
                progressed(*self, *old(self), true),
                are_trees(body@, acc),
                g_module_members(t, ends, p0 + 2, Seq::empty()) == Some((acc, self.spec_pos())),
            decreases self.remaining(),
        {
            let ghost p = self.spec_pos();
            let peeked = self.peek_next_token_or_error()?;
            let member = match peeked.token {
                Token::Import => self.parse_import()?,
                Token::Constant => self.parse_constant()?,
                Token::Enum => self.parse_enum()?,
                Token::Class => self.parse_class()?,
                Token::Function => self.parse_function()?,
                Token::Module => self.parse_module()?,
                Token::End => {
                    self.skip_next_token_or_error()?;
                    break;
                },
                _ => return Err(error_at(peeked.cursor, ParserErrorType::UnwantedToken(peeked.token))),
            };
            proof {
                let e = result_tree(
                    match t[p as int].token {
                        Token::Import => g_import(t, p),
                        Token::Constant => g_constant(t, p),
                        Token::Enum => g_enum(t, p),
                        Token::Class => g_class(t, ends, p),
                        Token::Function => g_function(t, ends, p),
                        Token::Module => g_module(t, ends, p),
                        _ => None,
                    },
                );
                lemma_are_trees_push(body@, acc, member, e);
                acc = acc.push(e);
            }
            body.push(member);
        }
        let name = identifier(module_name);
        proof {
            assert(is_tree(name, name_at(t, p0 + 1)));
        }
        Ok(Syntax::Module { position: position(module_keyword.cursor), module_name: Box::new(name), body })
    }

    /// The top-level items of a script, added to the syntax tree.
    #[verifier::spinoff_prover]
    #[verifier::rlimit(80)]
    pub fn parse_script(&mut self) -> (r: Result<(), ParserError>)
        requires
            old(self).wf(),
        ensures
            final(self).went_on(*old(self)),
            r is Ok ==> final(self).spec_pos() == final(self).spec_tokens().len(),
            r is Ok ==> final(self).spec_tree().take(old(self).spec_tree().len() as int) == old(self).spec_tree(),
            r is Ok ==> forall|j: int|
                old(self).spec_tree().len() <= j < final(self).spec_tree().len() ==> is_top_level(
                    #[trigger] final(self).spec_tree()[j],
                ),
            match g_script(old(self).spec_tokens(), old(self).spec_ends(), old(self).spec_pos(), Seq::empty()) {
                Some(es) => r is Ok && are_trees(final(self).spec_tree().skip(old(self).spec_tree().len() as int), es),
                None => r is Err,
            },
            match script_stray(old(self).spec_tokens(), old(self).spec_ends(), old(self).spec_pos()) {
                Some(s) => r matches Err(err) && err.error == ParserErrorType::UnwantedToken(
                    old(self).spec_tokens()[s as int].token,
                ) && err.position == position_of(old(self).spec_tokens()[s as int].cursor),
                None => true,
            },
        decreases old(self).remaining(), 50nat,
    {
        let ghost t = self.spec_tokens();
        let ghost ends = self.spec_ends();
        let ghost p0 = self.spec_pos();
        let mut body: Vec<Syntax> = Vec::new();
        let ghost mut acc: Seq<Tree> = Seq::empty();
        while self.has_more_tokens()
            invariant
                progressed(*self, *old(self), false),
                t == self.spec_tokens(),
                t == old(self).spec_tokens(),
                ends == old(self).spec_ends(),
                ends == self.spec_ends(),
                p0 == old(self).spec_pos(),
                forall|j: int| 0 <= j < body@.len() ==> is_top_level(#[trigger] body@[j]),
                are_trees(body@, acc),
                g_script(t, ends, p0, Seq::empty()) == g_script(t, ends, self.spec_pos(), acc),
                script_stray(t, ends, p0) == script_stray(t, ends, self.spec_pos()),
            decreases self.remaining(),
        {
            let ghost p = self.spec_pos();
            let peeked = self.peek_next_token_or_error()?;
            let item = match peeked.token {
                Token::Import => self.parse_import()?,
                Token::Enum => self.parse_enum()?,
                Token::Class => self.parse_class()?,
                Token::Function => self.parse_function()?,
                Token::Module => self.parse_module()?,
                _ => return Err(error_at(peeked.cursor, ParserErrorType::UnwantedToken(peeked.token))),
            };
            proof {
                let e = result_tree(
                    match t[p as int].token {
                        Token::Import => g_import(t, p),
                        Token::Enum => g_enum(t, p),
                        Token::Class => g_class(t, ends, p),
                        Token::Function => g_function(t, ends, p),
                        Token::Module => g_module(t, ends, p),
                        _ => None,
                    },
                );
                lemma_are_trees_push(body@, acc, item, e);
                acc = acc.push(e);
            }
            body.push(item);
        }
        let ghost before = self.syntax_tree@;
        let ghost items = body@;
        self.syntax_tree.append(&mut body);
        proof {
            assert(self.syntax_tree@.take(before.len() as int) =~= before);
            assert(self.syntax_tree@.skip(before.len() as int) =~= items);
            assert forall|j: int| before.len() <= j < self.syntax_tree@.len() implies is_top_level(
                #[trigger] self.syntax_tree@[j],
            ) by {
                assert(self.syntax_tree@[j] == items[j - before.len()]);
            }
        }
        Ok(())
    }

    /// Parses a whole script and measures how long that took: the tree is
    /// what the grammar reads from the tokens of the source, and each of its
    /// items is an import, an enum, a class, a function or a module.
    pub fn parse(source: &str) -> (r: Result<ParserResult, ParserError>)
        ensures
            r matches Ok(res) ==> forall|j: int| 0 <= j < res.syntax_tree@.len() ==> is_top_level(#[trigger] res.syntax_tree@[j]),
            exists|p: Parser| #[trigger] p.reads_source(source@) && match g_script(p.spec_tokens(), p.spec_ends(), 0, Seq::empty()) {
                Some(es) => r matches Ok(res) && are_trees(res.syntax_tree@, es),
                None => r is Err,
            } && match script_stray(p.spec_tokens(), p.spec_ends(), 0) {
                Some(s) => r matches Err(err) && err.error == ParserErrorType::UnwantedToken(p.spec_tokens()[s as int].token)
                    && err.position == position_of(p.spec_tokens()[s as int].cursor),
                None => true,
            },
    {
        let parser_timer = now();
        let mut p = Parser::new(source);
        let ghost start = p;
        let result = p.parse_script();
        proof {
            assert(p.spec_tree().skip(0) =~= p.spec_tree());
            assert(start.reads_source(source@));
        }
        match result {
            Ok(()) => Ok(ParserResult { syntax_tree: p.syntax_tree, parser_time: elapsed(&parser_timer) }),
            Err(e) => Err(e),
        }
    }
}

} // verus!
