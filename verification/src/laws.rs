use vstd::prelude::*;

use crate::error::RuntimeError;
use crate::frame::{stored, variable_read, Frame};
use crate::codegen::{expr_code, list_code, local_var, pairs_code, Variable};
use crate::blocks::{arm_block, arms_block, declare, jumps_to_end, join, stmt_block, stmts_block, Block};
use crate::instruction::Instruction;
use crate::syntax::{CompilerError, CompilerErrorType, Syntax, TokenPosition};
use crate::imports::{expansion_fails, item_fail, items_fail, ImportFailure, ItemsFailure};
use crate::table::Table;
use crate::lexer::{
    advance, char_width, first_hit, is_space, lemma_first_hit, lemma_take_bytes_mono, lemma_take_bytes_step,
    lemma_take_full, matcher_value, next_result_agrees, spec_next, text_bytes, track_text, Cursor, Lexer, LexerError,
    MatchedToken, Matcher, NextOutcome, Scan,
};
use crate::parser::same_lexer_error;
use crate::grammar::{
    g_assignment, g_attribute, g_constant, g_not, g_expression, g_return, g_variable, is_tree, starts_expression, token_is, Tree,
};
use crate::token::Token;
use crate::natives::{
    dict_clear_post, dict_constructor_post, dict_contains_key_post, dict_get_post, dict_keys_post, dict_length_post,
    dict_of, dict_remove_post, dict_set_post, math_max_post, math_min_post, member, self_id, string_constructor_post,
    string_length_post, text_param,
};
use crate::ops::{binary_result, is_comparison, BinaryOp, Outcome};
use crate::variant::{
    counter_next, lemma_same_value_refl, lemma_same_value_trans, same_value, Counter, Heap, Variant, DEPTH,
    INTERNAL_CLASS_VALUE,
};
use crate::stdlib::{dictionary_class_in, math_module_in};
use crate::vm::{native_post, return_post, step_post, Execution, NativeFunction, Step, Thread};
use crate::table::{find_in, lemma_find_in_props};

verus! {

// ---------------------------------------------------------------------------
// Variables of a frame
// ---------------------------------------------------------------------------

/// Reading a variable after storing a value in it gives that value; every
/// other variable that was there reads as before.
pub proof fn law_variable_read_after_write(f0: Frame, f1: Frame, i: usize, v: Variant, j: usize)
    requires
        stored(f0, f1, i, v),
    ensures
        variable_read(f1, i) == Ok::<Variant, RuntimeError>(v),
        j != i && j < f0.variables@.len() ==> variable_read(f1, j) == variable_read(f0, j),
{
}

// ---------------------------------------------------------------------------
// The native Dictionary and String classes
// ---------------------------------------------------------------------------

/// `Dictionary.get` after `Dictionary.set` with the same key on the same
/// object gives back the value that was set.
pub proof fn law_dict_get_after_set(
    h0: Heap,
    h1: Heap,
    set_args: Seq<Variant>,
    set_result: Result<Option<Variant>, RuntimeError>,
    get_args: Seq<Variant>,
    get_result: Result<Option<Variant>, RuntimeError>,
)
    requires
        dict_set_post(h0, h1, set_args, set_result),
        set_result is Ok,
        dict_get_post(h1, h1, get_args, get_result),
        get_args.len() >= 2,
        get_args[0] == set_args[0],
        get_args[1] == set_args[1],
    ensures
        get_result matches Ok(Some(w)) && same_value(set_args[2], w, DEPTH as nat),
{
    let k = text_param(set_args, 1)->0;
    assert(text_param(get_args, 1) == text_param(set_args, 1));
    assert(self_id(get_args) == self_id(set_args));
    assert(dict_of(h1, get_args) == dict_of(h1, set_args));
    let m2 = dict_of(h1, set_args)->0;
    let v = m2.spec_get(k)->0;
    if let Ok(Some(w)) = get_result {
        lemma_same_value_trans(set_args[2], v, w, DEPTH as nat);
    }
}

/// After `Dictionary.remove` of a key, `Dictionary.contains_key` of that key
/// on the same object is false.
pub proof fn law_dict_contains_after_remove(
    h0: Heap,
    h1: Heap,
    remove_args: Seq<Variant>,
    remove_result: Result<Option<Variant>, RuntimeError>,
    args: Seq<Variant>,
    result: Result<Option<Variant>, RuntimeError>,
)
    requires
        dict_remove_post(h0, h1, remove_args, remove_result),
        remove_result is Ok,
        dict_contains_key_post(h1, h1, args, result),
        args.len() >= 2,
        args[0] == remove_args[0],
        args[1] == remove_args[1],
    ensures
        result == Ok::<Option<Variant>, RuntimeError>(Some(Variant::Bool(false))),
{
    assert(text_param(args, 1) == text_param(remove_args, 1));
    assert(self_id(args) == self_id(remove_args));
    assert(dict_of(h1, args) == dict_of(h1, remove_args));
}

/// After `Dictionary.clear`, `Dictionary.length` of the same object is 0.
pub proof fn law_dict_length_after_clear(
    h0: Heap,
    h1: Heap,
    clear_args: Seq<Variant>,
    clear_result: Result<Option<Variant>, RuntimeError>,
    args: Seq<Variant>,
    result: Result<Option<Variant>, RuntimeError>,
)
    requires
        dict_clear_post(h0, h1, clear_args, clear_result),
        clear_result is Ok,
        dict_length_post(h1, h1, args, result),
        args.len() >= 1,
        args[0] == clear_args[0],
    ensures
        result == Ok::<Option<Variant>, RuntimeError>(Some(Variant::Integer(0))),
{
    assert(self_id(args) == self_id(clear_args));
    assert(dict_of(h1, args) == dict_of(h1, clear_args));
}

/// `Dictionary.keys` lists as many keys as `Dictionary.length` counts.
pub proof fn law_dict_keys_counted_by_length(
    h: Heap,
    args: Seq<Variant>,
    keys_result: Result<Option<Variant>, RuntimeError>,
    length_result: Result<Option<Variant>, RuntimeError>,
)
    requires
        dict_keys_post(h, h, args, keys_result),
        dict_length_post(h, h, args, length_result),
        keys_result is Ok,
    ensures
        keys_result matches Ok(Some(Variant::Array(keys))) && length_result == Ok::<Option<Variant>, RuntimeError>(
            Some(Variant::Integer(keys@.len() as i64)),
        ),
{
}

/// `Dictionary.length` after `Dictionary.constructor` with a dictionary
/// counts the entries of that dictionary.
pub proof fn law_dict_length_after_constructor(
    h0: Heap,
    h1: Heap,
    ctor_args: Seq<Variant>,
    ctor_result: Result<Option<Variant>, RuntimeError>,
    args: Seq<Variant>,
    result: Result<Option<Variant>, RuntimeError>,
)
    requires
        dict_constructor_post(h0, h1, ctor_args, ctor_result),
        self_id(ctor_args) matches Some(id) && id < h0.spec_objects().len(),
        ctor_args.len() > 1,
        ctor_args[1] is Dict,
        dict_length_post(h1, h1, args, result),
        args.len() >= 1,
        args[0] == ctor_args[0],
    ensures
        ctor_args[1] matches Variant::Dict(m) && result == Ok::<Option<Variant>, RuntimeError>(
            Some(Variant::Integer(m.spec_len() as i64)),
        ),
{
    assert(self_id(args) == self_id(ctor_args));
}

/// `String.length` after `String.constructor` with a text gives the number
/// of bytes of that text.
pub proof fn law_string_length_after_constructor(
    h0: Heap,
    h1: Heap,
    ctor_args: Seq<Variant>,
    ctor_result: Result<Option<Variant>, RuntimeError>,
    args: Seq<Variant>,
    result: Result<Option<Variant>, RuntimeError>,
)
    requires
        string_constructor_post(h0, h1, ctor_args, ctor_result),
        self_id(ctor_args) matches Some(id) && id < h0.spec_objects().len(),
        ctor_args.len() > 1,
        ctor_args[1] is String,
        string_length_post(h1, h1, args, result),
        args.len() >= 1,
        args[0] == ctor_args[0],
    ensures
        ctor_args[1] matches Variant::String(s) && result == Ok::<Option<Variant>, RuntimeError>(
            Some(Variant::Integer(vstd::utf8::encode_utf8(s@).len() as usize as i64)),
        ),
{
    assert(self_id(args) == self_id(ctor_args));
    let id = self_id(ctor_args)->0;
    assert(member(h1, id, INTERNAL_CLASS_VALUE@) == Some(ctor_args[1]));
}

/// `Math.max` and `Math.min` of two integers are the larger and the smaller
/// of them: each is one of the two, and together they add up to the two.
pub proof fn law_math_max_min(
    args: Seq<Variant>,
    max_result: Result<Option<Variant>, RuntimeError>,
    min_result: Result<Option<Variant>, RuntimeError>,
)
    requires
        math_max_post(args, max_result),
        math_min_post(args, min_result),
        args.len() > 2,
        args[1] is Integer,
        args[2] is Integer,
    ensures
        args[1] matches Variant::Integer(a) && args[2] matches Variant::Integer(b) && max_result matches Ok(
            Some(Variant::Integer(hi)),
        ) && min_result matches Ok(Some(Variant::Integer(lo))) && {
            &&& lo <= a <= hi
            &&& lo <= b <= hi
            &&& hi + lo == a + b
        },
{
}

// ---------------------------------------------------------------------------
// Operators of the virtual machine
// ---------------------------------------------------------------------------

/// On integers, subtracting what was added gives back the first operand,
/// wrap-around included.
pub proof fn law_sub_undoes_add(x: i64, y: i64, sum: Variant, difference: Variant)
    requires
        binary_result(BinaryOp::Add, Variant::Integer(x), Variant::Integer(y), Outcome::Value(sum)),
        binary_result(BinaryOp::Sub, sum, Variant::Integer(y), Outcome::Value(difference)),
    ensures
        difference == Variant::Integer(x),
{
}

/// `!=` is the negation of `==` on the values the machine compares itself.
pub proof fn law_not_equal_negates_equal(a: Variant, b: Variant, eq: Variant, ne: Variant)
    requires
        !(a is Float || b is Float),
        binary_result(BinaryOp::Equal, a, b, Outcome::Value(eq)),
        binary_result(BinaryOp::NotEqual, a, b, Outcome::Value(ne)),
    ensures
        eq matches Variant::Bool(x) && ne == Variant::Bool(!x),
{
}

/// Every value the machine compares itself is equal to itself.
pub proof fn law_equal_is_reflexive(a: Variant, r: Variant)
    requires
        !(a is Float),
        binary_result(BinaryOp::Equal, a, a, Outcome::Value(r)),
    ensures
        r == Variant::Bool(true),
{
    lemma_same_value_refl(a, DEPTH as nat);
}

/// The comparison that looks the other way: `<` and `>`, `<=` and `>=`.
pub open spec fn mirrored(op: BinaryOp) -> BinaryOp {
    match op {
        BinaryOp::LessThan => BinaryOp::GreaterThan,
        BinaryOp::GreaterThan => BinaryOp::LessThan,
        BinaryOp::LessThanOrEqual => BinaryOp::GreaterThanOrEqual,
        BinaryOp::GreaterThanOrEqual => BinaryOp::LessThanOrEqual,
        _ => op,
    }
}

/// `a < b` gives what `b > a` gives, and `a <= b` what `b >= a` gives.
pub proof fn law_comparison_mirrors(op: BinaryOp, a: Variant, b: Variant, r1: Variant, r2: Variant)
    requires
        is_comparison(op),
        !(a is Float || b is Float),
        binary_result(op, a, b, Outcome::Value(r1)),
        binary_result(mirrored(op), b, a, Outcome::Value(r2)),
    ensures
        r1 == r2,
{
}

// ---------------------------------------------------------------------------
// The lexer
// ---------------------------------------------------------------------------

/// Looking at the next token does not consume it: a lexer as `peek` leaves
/// it takes the same next step, and finds the same tokens, as before.
pub proof fn law_peek_then_next<T>(before: Lexer<T>, after: Lexer<T>)
    requires
        after.same_setup(&before),
        after.spec_index() == before.spec_index(),
        after.spec_cursor() == before.spec_cursor(),
    ensures
        after.spec_step() == before.spec_step(),
        after.spec_run() == before.spec_run(),
{
}

/// Two results of the lexer are the same: the same token, text and place, or
/// the same error (an outside regular-expression error counted as one).
pub open spec fn same_lexed(
    a: Option<Result<MatchedToken<Token>, LexerError>>,
    b: Option<Result<MatchedToken<Token>, LexerError>>,
) -> bool {
    match (a, b) {
        (None, None) => true,
        (Some(Ok(x)), Some(Ok(y))) => x.token == y.token && x.text@ == y.text@ && x.cursor == y.cursor,
        (Some(Err(x)), Some(Err(y))) => same_lexer_error(x, y),
        _ => false,
    }
}

/// Calls of `peek` and `next` that take the same step give the same result:
/// so two `peek`s in a row agree, and a `peek` agrees with the `next` after it.
pub proof fn law_peek_agrees_with_next(
    ms: Seq<Matcher<Token>>,
    o: NextOutcome,
    first: Option<Result<MatchedToken<Token>, LexerError>>,
    second: Option<Result<MatchedToken<Token>, LexerError>>,
)
    requires
        next_result_agrees(ms, o, first),
        next_result_agrees(ms, o, second),
    ensures
        same_lexed(first, second),
{
    if let NextOutcome::Found { matcher, .. } = o {
        if let (Some(Ok(x)), Some(Ok(y))) = (first, second) {
            let v = matcher_value(ms[matcher])->0;
            assert(cloned(v, x.token));
            assert(cloned(v, y.token));
        }
    }
}

/// `skip` does what `next` does on the same step and keeps no token: it
/// succeeds when `next` finds one, and otherwise fails with the error `next`
/// gives, or `EndOfFile` where `next` gives nothing.
pub proof fn law_skip_follows_next(
    ms: Seq<Matcher<Token>>,
    o: NextOutcome,
    n: Option<Result<MatchedToken<Token>, LexerError>>,
    s: Result<(), LexerError>,
)
    requires
        next_result_agrees(ms, o, n),
        match o {
            NextOutcome::Found { .. } => s is Ok,
            NextOutcome::Eof => s == Err::<(), LexerError>(LexerError::EndOfFile),
            NextOutcome::NoMatch => s == Err::<(), LexerError>(LexerError::NoMatch),
            NextOutcome::RegexError { .. } => s matches Err(LexerError::InvalidRegularExpression(_)),
        },
    ensures
        match n {
            Some(Ok(_)) => s is Ok,
            Some(Err(e)) => s matches Err(f) && same_lexer_error(f, e),
            None => s == Err::<(), LexerError>(LexerError::EndOfFile),
        },
{
}

/// The bytes of the first `i + k` characters are those of the first `i` and
/// of the `k` after them.
proof fn lemma_bytes_split(s: Seq<char>, i: int, k: int)
    requires
        0 <= i,
        0 <= k,
        i + k <= s.len(),
    ensures
        text_bytes(s.take(i + k)) == text_bytes(s.take(i)) + text_bytes(s.subrange(i, s.len() as int).take(k)),
    decreases k,
{
    if k > 0 {
        let r = s.subrange(i, s.len() as int);
        lemma_bytes_split(s, i, k - 1);
        lemma_take_bytes_step(s, i + k - 1);
        lemma_take_bytes_step(r, k - 1);
        assert(r[k - 1] == s[i + k - 1]);
    }
}

/// A prefix takes no more bytes than the whole text.
proof fn lemma_prefix_bytes(s: Seq<char>, k: int)
    requires
        0 <= k <= s.len(),
    ensures
        text_bytes(s.take(k)) <= text_bytes(s),
{
    lemma_take_full(s);
    if k < s.len() {
        lemma_take_bytes_mono(s, k, s.len() as int);
    }
}

/// Each ASCII character takes one byte.
proof fn lemma_ascii_bytes(s: Seq<char>, k: int)
    requires
        0 <= k <= s.len(),
        forall|x: int| 0 <= x < s.len() ==> (#[trigger] s[x] as u32) < 0x80,
    ensures
        text_bytes(s.take(k)) == k,
    decreases k,
{
    if k > 0 {
        lemma_ascii_bytes(s, k - 1);
        lemma_take_bytes_step(s, k - 1);
        assert((s[k - 1] as u32) < 0x80);
    }
}

/// The lexer's step, from a character index whose cursor lies at the bytes
/// of the characters before it: the token it finds is the source text from
/// some index on, its cursor lies at the bytes before that text, and the new
/// cursor lies past the token's bytes, with the lines and columns of its text.
#[verifier::spinoff_prover]
#[verifier::rlimit(40)]
proof fn lemma_step_reads_source<T>(
    ms: Seq<Matcher<T>>,
    chars: Seq<char>,
    total: usize,
    idx: nat,
    cursor: Cursor,
    ws: bool,
    matcher: int,
    text: Seq<char>,
    at: Cursor,
    i2: nat,
    c2: Cursor,
)
    requires
        total == text_bytes(chars),
        idx <= chars.len(),
        cursor.position == text_bytes(chars.take(idx as int)),
        spec_next(ms, chars, total, idx, cursor, ws) == (NextOutcome::Found { matcher, text, at }, i2, c2),
        ms[matcher] matches Matcher::MatchToken { condition, .. } ==> at.position + text_bytes(condition@) <= total,
    ensures
        exists|j: int|
            idx <= j && j + text.len() == i2 && i2 <= chars.len() && text == chars.subrange(j, i2 as int)
                && at.position == #[trigger] text_bytes(chars.take(j)),
        c2.position == at.position + text_bytes(text),
        c2.position == text_bytes(chars.take(i2 as int)),
        (c2.line, c2.column) == track_text((at.line, at.column), text),
    decreases chars.len() - idx,
{
    if cursor.position >= total || idx > chars.len() {
    } else if ws && idx < chars.len() && is_space(chars[idx as int]) {
        let c = chars[idx as int];
        lemma_take_bytes_step(chars, idx as int);
        lemma_prefix_bytes(chars, idx + 1 as int);
        let next_cursor = advance(cursor, seq![c], char_width(c));
        assert(next_cursor.position == text_bytes(chars.take(idx + 1 as int)));
        lemma_step_reads_source(ms, chars, total, idx + 1, next_cursor, ws, matcher, text, at, i2, c2);
    } else {
        let rest = chars.subrange(idx as int, chars.len() as int);
        lemma_first_hit(ms, 0, rest, cursor.position, total);
        match first_hit(ms, 0, rest, cursor.position, total) {
            Some((i, Scan::Token { chars: k, bytes: b })) => {
                assert(k <= rest.len() && text_bytes(rest.take(k as int)) == b) by {
                    match ms[i] {
                        Matcher::MatchToken { condition, .. } => {
                            lemma_prefix_bytes(chars, idx as int);
                        },
                        _ => {},
                    }
                }
                lemma_bytes_split(chars, idx as int, k as int);
                lemma_prefix_bytes(chars, idx + k as int);
                assert(text == chars.subrange(idx as int, i2 as int));
                assert(at.position == text_bytes(chars.take(idx as int)));
            },
            Some((i, Scan::Skip { chars: k, bytes: b })) => {
                if k > 0 && idx + k <= chars.len() {
                    let next_cursor = advance(cursor, rest.take(k as int), b);
                    lemma_prefix_bytes(chars, idx as int);
                    assert(text_bytes(rest.take(k as int)) == b || next_cursor.position >= total) by {
                        match ms[i] {
                            Matcher::IgnoreToken { condition, .. } => {},
                            _ => {},
                        }
                    }
                    if text_bytes(rest.take(k as int)) == b {
                        lemma_bytes_split(chars, idx as int, k as int);
                        lemma_prefix_bytes(chars, idx + k as int);
                        assert(next_cursor.position == text_bytes(chars.take(idx + k as int)));
                        lemma_step_reads_source(ms, chars, total, idx + k, next_cursor, ws, matcher, text, at, i2, c2);
                    } else {
                        // a fixed text skipped at the very end moves the cursor past the end
                        assert(spec_next(ms, chars, total, idx + k, next_cursor, ws).0 is Eof);
                    }
                }
            },
            _ => {},
        }
    }
}

/// A token that `next` returns is the source text at its place: its cursor
/// lies at the bytes of the source before it, and the lexer's cursor moves
/// on by the bytes of the token's text, with the lines and columns of that
/// text; so the cursor stays at the bytes of what was consumed. On an ASCII
/// source both are counted in characters. This holds except for a keyword
/// found case-insensitively at the very end of the source in fewer bytes
/// than the keyword has (the cursor then moves by the keyword's bytes).
pub proof fn law_next_reads_source<T: Clone + PartialEq>(before: Lexer<T>, after: Lexer<T>, m: MatchedToken<T>)
    requires
        before.wf(),
        text_bytes(before.spec_source()) <= usize::MAX,
        before.spec_cursor().position == text_bytes(before.spec_source().take(before.spec_index() as int)),
        after.same_setup(&before),
        after.spec_index() == before.spec_step().1,
        after.spec_cursor() == before.spec_step().2,
        next_result_agrees(before.spec_matchers(), before.spec_step().0, Some(Ok(m))),
        before.spec_step().0 matches NextOutcome::Found { matcher, .. } && (before.spec_matchers()[matcher] matches Matcher::MatchToken {
            condition,
            ..
        } ==> m.cursor.position + text_bytes(condition@) <= text_bytes(before.spec_source())),
    ensures
        ({
            let src = before.spec_source();
            exists|j: int|
                0 <= j && j + m.text@.len() == after.spec_index() && after.spec_index() <= src.len() && m.text@ == src.subrange(
                    j,
                    after.spec_index() as int,
                ) && m.cursor.position == #[trigger] text_bytes(src.take(j)) && ((forall|x: int|
                    0 <= x < src.len() ==> (#[trigger] src[x] as u32) < 0x80) ==> m.cursor.position == j
                    && after.spec_cursor().position == j + m.text@.len())
        }),
        after.spec_cursor().position == m.cursor.position + text_bytes(m.text@),
        after.spec_cursor().position == text_bytes(before.spec_source().take(after.spec_index() as int)),
        (after.spec_cursor().line, after.spec_cursor().column) == track_text((m.cursor.line, m.cursor.column), m.text@),
{
    before.lemma_total();
    let src = before.spec_source();
    let step = before.spec_step();
    if let NextOutcome::Found { matcher, text, at } = step.0 {
        lemma_step_reads_source(
            before.spec_matchers(),
            src,
            before.spec_total(),
            before.spec_index(),
            before.spec_cursor(),
            before.spec_options().ignore_whitespace,
            matcher,
            text,
            at,
            step.1,
            step.2,
        );
        let j = choose|j: int|
            before.spec_index() <= j && j + text.len() == step.1 && step.1 <= src.len() && text == src.subrange(j, step.1 as int)
                && at.position == #[trigger] text_bytes(src.take(j));
        if forall|x: int| 0 <= x < src.len() ==> (#[trigger] src[x] as u32) < 0x80 {
            lemma_ascii_bytes(src, j);
            lemma_ascii_bytes(src, step.1 as int);
        }
        assert(m.cursor.position == text_bytes(src.take(j)));
    }
}

// ---------------------------------------------------------------------------
// Calls and returns
// ---------------------------------------------------------------------------

/// `Return` with a value, in a function that a call entered, goes back to the
/// caller: its frame, the instruction after the call, and the stack as the
/// call left it with the returned value above it.
pub proof fn law_return_resumes_caller(
    caller: Execution,
    callee: Execution,
    after: Execution,
    r: Result<Step, RuntimeError>,
    base: Seq<Variant>,
)
    requires
        callee.frames@ == caller.frames@.push(caller.current),
        callee.current.return_address == caller.ip + 1,
        callee.current.stack_pointer == base.len(),
        callee.stack@.len() > base.len(),
        callee.stack@.take(base.len() as int) == base,
        return_post(Instruction::Return { with_value: true }, callee, after, r),
    ensures
        r matches Ok(Step::Next),
        after.ip == caller.ip + 1,
        after.frames@ == caller.frames@,
        after.current == caller.current,
        after.heap == callee.heap,
        after.stack@ == base.push(callee.stack@[base.len() as int]),
{
    let s = callee.stack@;
    assert(caller.frames@.push(caller.current).drop_last() =~= caller.frames@);
    assert(s.take(base.len() as int + 1) =~= base.push(s[base.len() as int]));
    if base.len() + 1 == s.len() {
        assert(s =~= s.take(base.len() as int + 1));
    }
}

// ---------------------------------------------------------------------------
// Counters
// ---------------------------------------------------------------------------

/// `cs` are the states of a counter and `rs` what its calls of `next` gave:
/// call `i` went from `cs[i]` to `cs[i + 1]`.
pub open spec fn counter_run(cs: Seq<Counter>, rs: Seq<Option<Variant>>) -> bool {
    &&& cs.len() == rs.len() + 1
    &&& forall|i: int| 0 <= i < rs.len() ==> #[trigger] counter_next(cs[i], cs[i + 1], rs[i])
}

proof fn lemma_counter_state(cs: Seq<Counter>, rs: Seq<Option<Variant>>, i: int, n: int)
    requires
        counter_run(cs, rs),
        cs[0].spec_index() == 0,
        cs[0].spec_target() == Variant::Integer(n as i64),
        0 <= n <= usize::MAX,
        n <= i64::MAX,
        0 <= i <= rs.len(),
    ensures
        cs[i].spec_index() == if i <= n { i } else { n },
        cs[i].spec_start() == cs[0].spec_start(),
        cs[i].spec_step() == cs[0].spec_step(),
        cs[i].spec_target() == cs[0].spec_target(),
    decreases i,
{
    if i > 0 {
        lemma_counter_state(cs, rs, i - 1, n);
        let j = i - 1;
        assert(counter_next(cs[j], cs[j + 1], rs[j]));
    }
}

proof fn lemma_product_fits(x: i64, y: i64)
    requires
        i64::MIN <= x * y <= i64::MAX,
    ensures
        x.wrapping_mul(y) == x * y,
{
    let p = x * y;
    let r: int = 0x1_0000_0000_0000_0000;
    if p < 0 {
        assert(p % r == p + r) by (nonlinear_arith)
            requires
                -0x8000_0000_0000_0000 <= p < 0,
                r == 0x1_0000_0000_0000_0000,
        ;
    } else {
        assert(p % r == p) by (nonlinear_arith)
            requires
                0 <= p <= 0x7fff_ffff_ffff_ffff,
                r == 0x1_0000_0000_0000_0000,
        ;
    }
}

/// A counter over the integer `n` gives `start + i * step` for each `i`
/// from 0 while `i < n` (the count of values, not an end bound), and nothing
/// on every later call, where the values fit.
pub proof fn law_counter_counts(cs: Seq<Counter>, rs: Seq<Option<Variant>>, start: i64, step: i64, n: i64)
    requires
        counter_run(cs, rs),
        cs[0].spec_index() == 0,
        cs[0].spec_start() == start,
        cs[0].spec_step() == step,
        cs[0].spec_target() == Variant::Integer(n),
        n <= usize::MAX,
        forall|i: int| 0 <= i < n ==> i64::MIN <= #[trigger] (i * step) <= i64::MAX && i64::MIN <= start + i * step <= i64::MAX,
    ensures
        forall|i: int| 0 <= i < rs.len() ==> #[trigger] rs[i] == if i < n {
            Some(Variant::Integer((start + i * step) as i64))
        } else {
            None
        },
{
    let m: int = if n < 0 { 0 } else { n as int };
    assert forall|i: int| 0 <= i < rs.len() implies #[trigger] rs[i] == if i < n {
        Some(Variant::Integer((start + i * step) as i64))
    } else {
        None
    } by {
        if n >= 0 {
            lemma_counter_state(cs, rs, i, n as int);
            assert(counter_next(cs[i], cs[i + 1], rs[i]));
            if i < n {
                assert(i * step == i * step);
                lemma_product_fits(i as i64, step);
            }
        } else {
            assert(rs[i] is None) by {
                lemma_counter_negative(cs, rs, i, n);
            }
        }
    }
}

proof fn lemma_counter_negative(cs: Seq<Counter>, rs: Seq<Option<Variant>>, i: int, n: i64)
    requires
        counter_run(cs, rs),
        cs[0].spec_index() == 0,
        cs[0].spec_target() == Variant::Integer(n),
        n < 0,
        0 <= i < rs.len(),
    ensures
        rs[i] is None,
        cs[i].spec_index() == 0,
        cs[i].spec_target() == cs[0].spec_target(),
    decreases i,
{
    if i > 0 {
        lemma_counter_negative(cs, rs, i - 1, n);
        let j = i - 1;
        assert(counter_next(cs[j], cs[j + 1], rs[j]));
    }
    assert(counter_next(cs[i], cs[i + 1], rs[i]));
}

proof fn lemma_array_state(cs: Seq<Counter>, rs: Seq<Option<Variant>>, a: Vec<Variant>, i: int)
    requires
        counter_run(cs, rs),
        cs[0].spec_index() == 0,
        cs[0].spec_target() == Variant::Array(a),
        0 <= i <= rs.len(),
    ensures
        cs[i].spec_index() == if i <= a@.len() { i } else { a@.len() as int },
        cs[i].spec_target() == cs[0].spec_target(),
    decreases i,
{
    if i > 0 {
        lemma_array_state(cs, rs, a, i - 1);
        let j = i - 1;
        assert(counter_next(cs[j], cs[j + 1], rs[j]));
    }
}

/// A counter over an array gives copies of its items in order, and nothing
/// on every later call; its start and step play no part.
pub proof fn law_counter_walks_array(cs: Seq<Counter>, rs: Seq<Option<Variant>>, a: Vec<Variant>)
    requires
        counter_run(cs, rs),
        cs[0].spec_index() == 0,
        cs[0].spec_target() == Variant::Array(a),
    ensures
        forall|i: int| 0 <= i < rs.len() && i < a@.len() ==> (#[trigger] rs[i] matches Some(v) && same_value(a@[i], v, DEPTH as nat)),
        forall|i: int| 0 <= i < rs.len() && i >= a@.len() ==> #[trigger] rs[i] is None,
{
    assert forall|i: int| 0 <= i < rs.len() implies (i < a@.len() ==> (#[trigger] rs[i] matches Some(v) && same_value(
        a@[i],
        v,
        DEPTH as nat,
    ))) && (i >= a@.len() ==> rs[i] is None) by {
        lemma_array_state(cs, rs, a, i);
        assert(counter_next(cs[i], cs[i + 1], rs[i]));
    }
}

/// A counter over anything but an integer or an array gives nothing.
pub proof fn law_counter_over_other(c0: Counter, c1: Counter, r: Option<Variant>)
    requires
        !(c0.spec_target() is Integer),
        !(c0.spec_target() is Array),
        counter_next(c0, c1, r),
    ensures
        r is None,
{
}

// ---------------------------------------------------------------------------
// Code of expressions
// ---------------------------------------------------------------------------

/// The instruction of a binary operator of the syntax tree.
pub open spec fn operator_instruction(e: Syntax) -> Option<Instruction> {
    match e {
        Syntax::Add { .. } => Some(Instruction::Add),
        Syntax::Sub { .. } => Some(Instruction::Sub),
        Syntax::Mul { .. } => Some(Instruction::Multiply),
        Syntax::Div { .. } => Some(Instruction::Divide),
        Syntax::Pow { .. } => Some(Instruction::Pow),
        Syntax::Eq { .. } => Some(Instruction::Equal),
        Syntax::Ne { .. } => Some(Instruction::NotEqual),
        Syntax::Lt { .. } => Some(Instruction::LessThan),
        Syntax::Le { .. } => Some(Instruction::LessThanOrEqual),
        Syntax::Gt { .. } => Some(Instruction::GreaterThan),
        Syntax::Ge { .. } => Some(Instruction::GreaterThanOrEqual),
        Syntax::And { .. } => Some(Instruction::And),
        Syntax::Or { .. } => Some(Instruction::Or),
        _ => None,
    }
}

/// The operands of a binary operator of the syntax tree, left first.
pub open spec fn operands(e: Syntax) -> Option<(Syntax, Syntax)> {
    match e {
        Syntax::Add { expr1, expr2 } => Some((*expr1, *expr2)),
        Syntax::Sub { expr1, expr2 } => Some((*expr1, *expr2)),
        Syntax::Mul { expr1, expr2 } => Some((*expr1, *expr2)),
        Syntax::Div { expr1, expr2 } => Some((*expr1, *expr2)),
        Syntax::Pow { expr1, expr2 } => Some((*expr1, *expr2)),
        Syntax::Eq { expr1, expr2 } => Some((*expr1, *expr2)),
        Syntax::Ne { expr1, expr2 } => Some((*expr1, *expr2)),
        Syntax::Lt { expr1, expr2 } => Some((*expr1, *expr2)),
        Syntax::Le { expr1, expr2 } => Some((*expr1, *expr2)),
        Syntax::Gt { expr1, expr2 } => Some((*expr1, *expr2)),
        Syntax::Ge { expr1, expr2 } => Some((*expr1, *expr2)),
        Syntax::And { expr1, expr2 } => Some((*expr1, *expr2)),
        Syntax::Or { expr1, expr2 } => Some((*expr1, *expr2)),
        _ => None,
    }
}

/// A binary operator compiles to the code of its left operand, then of its
/// right one, then its instruction: operands are never swapped.
pub proof fn law_operands_in_order(e: Syntax, vars: Seq<(String, Variable)>)
    requires
        operands(e) matches Some((a, b)) && expr_code(a, vars) is Some && expr_code(b, vars) is Some,
    ensures
        match operands(e) {
            Some((a, b)) => expr_code(e, vars) == Some(
                expr_code(a, vars)->0 + expr_code(b, vars)->0 + seq![operator_instruction(e)->0],
            ),
            None => true,
        },
{
}

/// A name compiles to a load of its slot when it is a local variable, and
/// of the global of that name otherwise.
pub proof fn law_names_load(position: TokenPosition, name: String, vars: Seq<(String, Variable)>)
    ensures
        expr_code(Syntax::Identifier { position, name }, vars) == Some(
            seq![
                match local_var(vars, name@) {
                    Some(v) => Instruction::LoadLocalVariable(v.slot_index),
                    None => Instruction::LoadGlobal(name),
                },
            ],
        ),
{
}

// ---------------------------------------------------------------------------
// Imports
// ---------------------------------------------------------------------------

/// What an error of a failing import says of the files: an invalid import
/// path names a path that has no file, a file that cannot be imported names
/// a path that has one, and every such error is one of these two or a parse
/// error.
pub open spec fn import_error_agrees(files: Table<String>, e: CompilerError) -> bool {
    match e.error {
        CompilerErrorType::InvalidImportPath(p) => files.spec_get(p@) is None,
        CompilerErrorType::UnableToImportFile(p) => files.spec_get(p@) is Some,
        CompilerErrorType::ParseError(_) => true,
        _ => false,
    }
}

proof fn lemma_item_error_agrees(x: Syntax, files: Table<String>, depth: nat, f: ImportFailure, e: CompilerError)
    requires
        item_fail(x, files, depth, f, e),
    ensures
        import_error_agrees(files, e),
    decreases depth, f,
{
    match f {
        ImportFailure::InFile(t, w) => {
            lemma_items_error_agrees(t, files, (depth - 1) as nat, *w, e);
        },
        ImportFailure::InModule(w) => {
            if let Syntax::Module { body, .. } = x {
                lemma_items_error_agrees(body@, files, depth, *w, e);
            }
        },
        _ => {},
    }
}

proof fn lemma_items_error_agrees(items: Seq<Syntax>, files: Table<String>, depth: nat, w: ItemsFailure, e: CompilerError)
    requires
        items_fail(items, files, depth, w, e),
    ensures
        import_error_agrees(files, e),
    decreases depth, w,
{
    let ItemsFailure::At(i, f) = w;
    lemma_item_error_agrees(items[i], files, depth, f, e);
}

/// When imports cannot be replaced, the error names a path that has no file
/// (an invalid import path), a path whose file is there but lies too deep (a
/// file that cannot be imported), or is a parse error: so a host that adds
/// the file of an invalid import path and tries again has one file more.
pub proof fn law_import_error_names_missing_file(items: Seq<Syntax>, files: Table<String>, depth: nat, e: CompilerError)
    requires
        expansion_fails(items, files, depth, e),
    ensures
        import_error_agrees(files, e),
{
    let w = choose|w: ItemsFailure| #[trigger] items_fail(items, files, depth, w, e);
    lemma_items_error_agrees(items, files, depth, w, e);
}

// ---------------------------------------------------------------------------
// Native functions as the machine calls them
// ---------------------------------------------------------------------------

/// `Math.min` of two integers, as the machine runs it, is one of them and no
/// larger than either; the heap is left as it was.
pub proof fn law_native_min_is_smaller(h0: Heap, h1: Heap, p: Seq<Variant>, r: Result<Option<Variant>, RuntimeError>)
    requires
        native_post(NativeFunction::MathMin, h0, h1, p, r),
        p.len() > 2,
        p[1] is Integer,
        p[2] is Integer,
    ensures
        h1 == h0,
        p[1] matches Variant::Integer(i) && p[2] matches Variant::Integer(j) && r matches Ok(Some(Variant::Integer(m)))
            && m <= i && m <= j && (m == i || m == j),
{
}

/// `Math.max` of two integers, as the machine runs it, is one of them and no
/// smaller than either; the heap is left as it was.
pub proof fn law_native_max_is_larger(h0: Heap, h1: Heap, p: Seq<Variant>, r: Result<Option<Variant>, RuntimeError>)
    requires
        native_post(NativeFunction::MathMax, h0, h1, p, r),
        p.len() > 2,
        p[1] is Integer,
        p[2] is Integer,
    ensures
        h1 == h0,
        p[1] matches Variant::Integer(i) && p[2] matches Variant::Integer(j) && r matches Ok(Some(Variant::Integer(m)))
            && m >= i && m >= j && (m == i || m == j),
{
}

/// `Math.abs` of an integer, as the machine runs it, is not negative and is
/// the integer or its negation.
pub proof fn law_native_abs(h0: Heap, h1: Heap, p: Seq<Variant>, r: Result<Option<Variant>, RuntimeError>)
    requires
        native_post(NativeFunction::MathAbs, h0, h1, p, r),
        p.len() > 1,
        p[1] is Integer,
        p[1] != Variant::Integer(i64::MIN),
    ensures
        h1 == h0,
        p[1] matches Variant::Integer(i) && r matches Ok(Some(Variant::Integer(a))) && a >= 0 && (a == i || a == -i),
{
}

/// A key found at place `i` of a table is one the table contains.
proof fn lemma_entry_contained<V>(m: Table<V>, i: int)
    requires
        0 <= i < m.spec_len(),
    ensures
        m.spec_contains(m.spec_keys()[i]),
{
    lemma_find_in_props(m.spec_entries(), m.spec_keys()[i]);
    if m.spec_find(m.spec_keys()[i]) is None {
        assert(m.spec_entries()[i].0@ == m.spec_keys()[i]);
    }
}

/// `Dictionary.keys`, as the machine runs it, gives an array with one text
/// per entry of the object's dictionary: the entry's key, in order, and a key
/// the dictionary contains.
pub proof fn law_native_keys_are_the_keys(h0: Heap, h1: Heap, p: Seq<Variant>, r: Result<Option<Variant>, RuntimeError>, m: Table<Variant>)
    requires
        native_post(NativeFunction::DictionaryKeys, h0, h1, p, r),
        dict_of(h0, p) == Some(m),
    ensures
        h1 == h0,
        r matches Ok(Some(Variant::Array(ks))) && ks@.len() == m.spec_len() && forall|i: int|
            0 <= i < ks@.len() ==> (#[trigger] ks@[i] matches Variant::String(k) && k@ == m.spec_keys()[i] && m.spec_contains(k@)),
{
    if let Ok(Some(Variant::Array(ks))) = r {
        assert forall|i: int| 0 <= i < ks@.len() implies (#[trigger] ks@[i] matches Variant::String(k) && k@ == m.spec_keys()[i]
            && m.spec_contains(k@)) by {
            lemma_entry_contained(m, i);
        }
    }
}

/// `Dictionary.values`, as the machine runs it, gives an array with a copy
/// of the value of each entry of the object's dictionary, in order.
pub proof fn law_native_values_are_the_values(h0: Heap, h1: Heap, p: Seq<Variant>, r: Result<Option<Variant>, RuntimeError>, m: Table<Variant>)
    requires
        native_post(NativeFunction::DictionaryValues, h0, h1, p, r),
        dict_of(h0, p) == Some(m),
    ensures
        h1 == h0,
        r matches Ok(Some(Variant::Array(vs))) && vs@.len() == m.spec_len() && forall|i: int|
            0 <= i < vs@.len() ==> same_value(m.spec_values()[i], #[trigger] vs@[i], DEPTH as nat),
{
}

/// `Dictionary.length`, as the machine runs it, counts as many entries as
/// `Dictionary.keys` lists on the same object.
pub proof fn law_native_length_counts_keys(
    h: Heap,
    h1: Heap,
    h2: Heap,
    p: Seq<Variant>,
    keys_result: Result<Option<Variant>, RuntimeError>,
    length_result: Result<Option<Variant>, RuntimeError>,
)
    requires
        native_post(NativeFunction::DictionaryKeys, h, h1, p, keys_result),
        native_post(NativeFunction::DictionaryLength, h, h2, p, length_result),
        dict_of(h, p) is Some,
    ensures
        h2 == h,
        keys_result matches Ok(Some(Variant::Array(ks))) && length_result == Ok::<Option<Variant>, RuntimeError>(
            Some(Variant::Integer(ks@.len() as i64)),
        ),
{
}

/// `Dictionary.get` after `Dictionary.set`, both as the machine runs them,
/// on the same object and key gives back the value set, and leaves the heap.
pub proof fn law_native_get_after_set(
    h0: Heap,
    h1: Heap,
    h2: Heap,
    set_args: Seq<Variant>,
    set_result: Result<Option<Variant>, RuntimeError>,
    get_args: Seq<Variant>,
    get_result: Result<Option<Variant>, RuntimeError>,
)
    requires
        native_post(NativeFunction::DictionarySet, h0, h1, set_args, set_result),
        set_result is Ok,
        native_post(NativeFunction::DictionaryGet, h1, h2, get_args, get_result),
        get_args.len() >= 2,
        get_args[0] == set_args[0],
        get_args[1] == set_args[1],
    ensures
        h2 == h1,
        get_result matches Ok(Some(w)) && same_value(set_args[2], w, DEPTH as nat),
{
    law_dict_get_after_set(h0, h1, set_args, set_result, get_args, get_result);
}

/// `Dictionary.contains_key` after `Dictionary.set`, as the machine runs
/// them, is true for the key set, and for any other key what it was before.
pub proof fn law_native_contains_after_set(
    h0: Heap,
    h1: Heap,
    set_args: Seq<Variant>,
    set_result: Result<Option<Variant>, RuntimeError>,
    args: Seq<Variant>,
    before: Result<Option<Variant>, RuntimeError>,
    after: Result<Option<Variant>, RuntimeError>,
    hb: Heap,
    ha: Heap,
)
    requires
        native_post(NativeFunction::DictionarySet, h0, h1, set_args, set_result),
        set_result is Ok,
        native_post(NativeFunction::DictionaryContainsKey, h0, hb, args, before),
        native_post(NativeFunction::DictionaryContainsKey, h1, ha, args, after),
        args.len() >= 2,
        args[0] == set_args[0],
        args[1] is String,
    ensures
        args[1] == set_args[1] ==> after == Ok::<Option<Variant>, RuntimeError>(Some(Variant::Bool(true))),
        text_param(args, 1) != text_param(set_args, 1) ==> after == before,
{
    assert(self_id(args) == self_id(set_args));
    assert(dict_of(h1, args) == dict_of(h1, set_args));
    assert(dict_of(h0, args) == dict_of(h0, set_args));
    let k2 = text_param(args, 1)->0;
    if let (Some(m), Some(m2)) = (dict_of(h0, set_args), dict_of(h1, set_args)) {
        if text_param(args, 1) != text_param(set_args, 1) {
            assert(k2 != text_param(set_args, 1)->0);
            assert(m2.spec_get(k2) == m.spec_get(k2));
            assert(m2.spec_contains(k2) == m.spec_contains(k2));
        }
    }
}

/// `Dictionary.contains_key` after `Dictionary.remove`, as the machine runs
/// them, is false for the key removed, and for any other key what it was
/// before.
pub proof fn law_native_contains_after_remove(
    h0: Heap,
    h1: Heap,
    remove_args: Seq<Variant>,
    remove_result: Result<Option<Variant>, RuntimeError>,
    args: Seq<Variant>,
    before: Result<Option<Variant>, RuntimeError>,
    after: Result<Option<Variant>, RuntimeError>,
    hb: Heap,
    ha: Heap,
)
    requires
        native_post(NativeFunction::DictionaryRemove, h0, h1, remove_args, remove_result),
        remove_result is Ok,
        native_post(NativeFunction::DictionaryContainsKey, h0, hb, args, before),
        native_post(NativeFunction::DictionaryContainsKey, h1, ha, args, after),
        args.len() >= 2,
        args[0] == remove_args[0],
        args[1] is String,
    ensures
        args[1] == remove_args[1] ==> after == Ok::<Option<Variant>, RuntimeError>(Some(Variant::Bool(false))),
        text_param(args, 1) != text_param(remove_args, 1) ==> after == before,
{
    assert(self_id(args) == self_id(remove_args));
    assert(dict_of(h1, args) == dict_of(h1, remove_args));
    assert(dict_of(h0, args) == dict_of(h0, remove_args));
    let k2 = text_param(args, 1)->0;
    if let (Some(m), Some(m2)) = (dict_of(h0, remove_args), dict_of(h1, remove_args)) {
        if text_param(args, 1) != text_param(remove_args, 1) {
            assert(k2 != text_param(remove_args, 1)->0);
            assert(m2.spec_get(k2) == m.spec_get(k2));
            assert(m2.spec_contains(k2) == m.spec_contains(k2));
        }
    }
}

/// `Dictionary.length` after `Dictionary.clear`, as the machine runs them,
/// is 0.
pub proof fn law_native_length_after_clear(
    h0: Heap,
    h1: Heap,
    h2: Heap,
    clear_args: Seq<Variant>,
    clear_result: Result<Option<Variant>, RuntimeError>,
    args: Seq<Variant>,
    result: Result<Option<Variant>, RuntimeError>,
)
    requires
        native_post(NativeFunction::DictionaryClear, h0, h1, clear_args, clear_result),
        clear_result is Ok,
        native_post(NativeFunction::DictionaryLength, h1, h2, args, result),
        args.len() >= 1,
        args[0] == clear_args[0],
    ensures
        result == Ok::<Option<Variant>, RuntimeError>(Some(Variant::Integer(0))),
{
    law_dict_length_after_clear(h0, h1, clear_args, clear_result, args, result);
}

/// The constructors of `Dictionary` and `String`, as the machine runs them,
/// give back the object they are called on.
pub proof fn law_native_constructors_return_self(
    f: NativeFunction,
    h0: Heap,
    h1: Heap,
    p: Seq<Variant>,
    r: Result<Option<Variant>, RuntimeError>,
    id: usize,
)
    requires
        f == NativeFunction::DictionaryConstructor || f == NativeFunction::StringConstructor,
        native_post(f, h0, h1, p, r),
        p.len() > 0,
        p[0] == Variant::Object(id),
    ensures
        r == Ok::<Option<Variant>, RuntimeError>(Some(Variant::Object(id))),
{
}

/// `Dictionary.length` after `Dictionary.constructor` with a dictionary, as
/// the machine runs them, counts the entries of that dictionary.
pub proof fn law_native_length_after_constructor(
    h0: Heap,
    h1: Heap,
    h2: Heap,
    ctor_args: Seq<Variant>,
    ctor_result: Result<Option<Variant>, RuntimeError>,
    args: Seq<Variant>,
    result: Result<Option<Variant>, RuntimeError>,
)
    requires
        native_post(NativeFunction::DictionaryConstructor, h0, h1, ctor_args, ctor_result),
        self_id(ctor_args) matches Some(id) && id < h0.spec_objects().len(),
        ctor_args.len() > 1,
        ctor_args[1] is Dict,
        native_post(NativeFunction::DictionaryLength, h1, h2, args, result),
        args.len() >= 1,
        args[0] == ctor_args[0],
    ensures
        ctor_args[1] matches Variant::Dict(m) && result == Ok::<Option<Variant>, RuntimeError>(
            Some(Variant::Integer(m.spec_len() as i64)),
        ),
{
    law_dict_length_after_constructor(h0, h1, ctor_args, ctor_result, args, result);
}

/// `String.length` after `String.constructor` with a text, as the machine
/// runs them, gives the number of bytes of that text.
pub proof fn law_native_string_length_after_constructor(
    h0: Heap,
    h1: Heap,
    h2: Heap,
    ctor_args: Seq<Variant>,
    ctor_result: Result<Option<Variant>, RuntimeError>,
    args: Seq<Variant>,
    result: Result<Option<Variant>, RuntimeError>,
)
    requires
        native_post(NativeFunction::StringConstructor, h0, h1, ctor_args, ctor_result),
        self_id(ctor_args) matches Some(id) && id < h0.spec_objects().len(),
        ctor_args.len() > 1,
        ctor_args[1] is String,
        native_post(NativeFunction::StringLength, h1, h2, args, result),
        args.len() >= 1,
        args[0] == ctor_args[0],
    ensures
        h2 == h1,
        ctor_args[1] matches Variant::String(s) && result == Ok::<Option<Variant>, RuntimeError>(
            Some(Variant::Integer(vstd::utf8::encode_utf8(s@).len() as usize as i64)),
        ),
{
    law_string_length_after_constructor(h0, h1, ctor_args, ctor_result, args, result);
}

/// A host function is not one the library runs: no result of the library
/// stands for it.
pub proof fn law_native_host_is_not_run(h0: Heap, h1: Heap, p: Seq<Variant>, r: Result<Option<Variant>, RuntimeError>)
    ensures
        !native_post(NativeFunction::Host, h0, h1, p, r),
{
}

// ---------------------------------------------------------------------------
// Code of expressions: the other forms
// ---------------------------------------------------------------------------

/// `not e` compiles to the code of `e` followed by exactly one `Not`, and
/// fails exactly where `e` does.
pub proof fn law_not_negates_its_operand(e: Syntax, vars: Seq<(String, Variable)>)
    ensures
        expr_code(Syntax::Not { expr: Box::new(e) }, vars) is Some <==> expr_code(e, vars) is Some,
        expr_code(e, vars) matches Some(c) ==> expr_code(Syntax::Not { expr: Box::new(e) }, vars) == Some(
            c + seq![Instruction::Not],
        ),
{
}

/// A literal compiles to one instruction that pushes its own value.
pub proof fn law_literals_push_themselves(v: i64, b: bool, t: String, vars: Seq<(String, Variable)>)
    ensures
        expr_code(Syntax::Integer(v), vars) == Some(seq![Instruction::PushInteger(v)]),
        expr_code(Syntax::Bool(b), vars) == Some(seq![Instruction::PushBool(b)]),
        expr_code(Syntax::String(t), vars) == Some(seq![Instruction::PushString(t)]),
        expr_code(Syntax::Float(t), vars) == Some(seq![Instruction::PushFloat(t)]),
        expr_code(Syntax::Null, vars) == Some(seq![Instruction::PushNull]),
{
}

/// The code of a list of expressions is the code of its first expression,
/// then the code of the rest: the expressions are compiled in order.
pub proof fn law_list_code_in_order(x: Syntax, rest: Seq<Syntax>, vars: Seq<(String, Variable)>)
    ensures
        list_code(seq![x] + rest, vars) == match (expr_code(x, vars), list_code(rest, vars)) {
            (Some(a), Some(b)) => Some(a + b),
            _ => None,
        },
        list_code(Seq::empty(), vars) == Some(Seq::<Instruction>::empty()),
    decreases rest.len(),
{
    let s = seq![x] + rest;
    if rest.len() == 0 {
        assert(s.subrange(0, 0) =~= Seq::<Syntax>::empty());
        assert(s[0] == x);
        if let Some(a) = expr_code(x, vars) {
            assert(Seq::<Instruction>::empty() + a =~= a + Seq::<Instruction>::empty());
        }
    } else {
        let front = rest.subrange(0, rest.len() - 1);
        law_list_code_in_order(x, front, vars);
        assert(s.subrange(0, s.len() - 1) =~= seq![x] + front);
        assert(s[s.len() - 1] == rest[rest.len() - 1]);
        assert(rest.subrange(0, rest.len() - 1) =~= front);
        match (expr_code(x, vars), list_code(front, vars), expr_code(rest[rest.len() - 1], vars)) {
            (Some(a), Some(b), Some(c)) => {
                assert(a + b + c =~= a + (b + c));
            },
            _ => {},
        }
    }
}

/// The code of the pairs of a dictionary literal is, for its first pair, the
/// key pushed as a text and then the code of the value, then the code of the
/// other pairs.
pub proof fn law_pairs_code_in_order(k: String, v: Syntax, rest: Seq<(String, Syntax)>, vars: Seq<(String, Variable)>)
    ensures
        pairs_code(seq![(k, v)] + rest, vars) == match (expr_code(v, vars), pairs_code(rest, vars)) {
            (Some(a), Some(b)) => Some(seq![Instruction::PushString(k)] + a + b),
            _ => None,
        },
        pairs_code(Seq::empty(), vars) == Some(Seq::<Instruction>::empty()),
    decreases rest.len(),
{
    let s = seq![(k, v)] + rest;
    if rest.len() == 0 {
        assert(s.subrange(0, 0) =~= Seq::<(String, Syntax)>::empty());
        assert(s[0] == (k, v));
        if let Some(a) = expr_code(v, vars) {
            assert(Seq::<Instruction>::empty() + seq![Instruction::PushString(k)] + a =~= seq![Instruction::PushString(k)] + a
                + Seq::<Instruction>::empty());
        }
    } else {
        let front = rest.subrange(0, rest.len() - 1);
        law_pairs_code_in_order(k, v, front, vars);
        assert(s.subrange(0, s.len() - 1) =~= seq![(k, v)] + front);
        assert(s[s.len() - 1] == rest[rest.len() - 1]);
        assert(rest.subrange(0, rest.len() - 1) =~= front);
        let last = rest[rest.len() - 1];
        match (expr_code(v, vars), pairs_code(front, vars), expr_code(last.1, vars)) {
            (Some(a), Some(b), Some(c)) => {
                assert(seq![Instruction::PushString(k)] + a + b + seq![Instruction::PushString(last.0)] + c =~= seq![
                    Instruction::PushString(k),
                ] + a + (b + seq![Instruction::PushString(last.0)] + c));
            },
            _ => {},
        }
    }
}

/// An array literal compiles to the code of its items, in order, then one
/// instruction that collects as many items into an array.
pub proof fn law_array_collects_its_items(items: Vec<Syntax>, vars: Seq<(String, Variable)>)
    ensures
        expr_code(Syntax::Array(items), vars) == match list_code(items@, vars) {
            Some(c) => Some(c + seq![Instruction::CreateCollectionAsArray(items@.len() as usize)]),
            None => None,
        },
{
}

/// A dictionary literal compiles to the code of its pairs, in order, then one
/// instruction that collects as many pairs into a dictionary.
pub proof fn law_dictionary_collects_its_pairs(pairs: Vec<(String, Syntax)>, vars: Seq<(String, Variable)>)
    ensures
        expr_code(Syntax::Dictionary(pairs), vars) == match pairs_code(pairs@, vars) {
            Some(c) => Some(c + seq![Instruction::CreateCollectionAsDictionary(pairs@.len() as usize)]),
            None => None,
        },
{
}

/// A call compiles to the code of its target, then of its arguments in
/// order, then one `Call` with the number of arguments, one more for a
/// method, whose object the target leaves below its arguments.
pub proof fn law_call_passes_its_arguments(position: TokenPosition, target: Syntax, args: Vec<Syntax>, vars: Seq<(String, Variable)>)
    requires
        args@.len() + 1 <= usize::MAX,
    ensures
        expr_code(Syntax::Call { position, target: Box::new(target), args }, vars) == match (
            expr_code(target, vars),
            list_code(args@, vars),
        ) {
            (Some(t), Some(a)) => Some(
                t + a + seq![Instruction::Call((args@.len() + if target is MemberAccess { 1int } else { 0int }) as usize)],
            ),
            _ => None,
        },
{
}

/// `a.name` compiles to the code of `a`, then a load of its member `name`.
pub proof fn law_member_access_loads_the_member(position: TokenPosition, target: Syntax, at: TokenPosition, name: String, vars: Seq<(String, Variable)>)
    ensures
        expr_code(
            Syntax::MemberAccess {
                position,
                target: Box::new(target),
                index: Box::new(Syntax::Identifier { position: at, name }),
            },
            vars,
        ) == match expr_code(target, vars) {
            Some(t) => Some(t + seq![Instruction::LoadMember(name)]),
            None => None,
        },
{
    if let Some(t) = expr_code(target, vars) {
        assert(t.push(Instruction::LoadMember(name)) =~= t + seq![Instruction::LoadMember(name)]);
    }
}

// ---------------------------------------------------------------------------
// Parsing keeps the values it reads
// ---------------------------------------------------------------------------

/// `const name = e`: the constant that the parser gives (any item of the
/// shape the grammar reads there) holds the name written and, as its value,
/// the expression that the tokens after `=` parse to, ending where it ends;
/// the constant parses exactly when that expression does. `const name`
/// alone holds `null`.
pub proof fn law_constant_keeps_its_value(t: Seq<MatchedToken<Token>>, p: nat, s: Syntax)
    requires
        p < t.len(),
        token_is(t, p + 1, Token::Identifier),
    ensures
        token_is(t, p + 2, Token::SingleEquals) ==> (g_constant(t, p) is Some <==> g_expression(t, p + 3) is Some),
        match g_constant(t, p) {
            Some((c, q)) => is_tree(s, c) ==> (s matches Syntax::Constant { name, value, .. }
            && name@ == t[p + 1int].text@ && if token_is(t, p + 2, Token::SingleEquals) {
            g_expression(t, p + 3) matches Some((v, q2)) && q2 == q && is_tree(*value, v)
        } else {
            *value is Null && q == p + 2
        }),
            None => true,
        },
{
    reveal_with_fuel(is_tree, 2);
    if let Some((c, q)) = g_constant(t, p) {
        if is_tree(s, c) {
            if token_is(t, p + 2, Token::SingleEquals) {
                let (v, q2) = g_expression(t, p + 3)->0;
                assert(c == Tree::Constant(crate::grammar::at(t, p), t[p + 1int].text@, Box::new(v)));
            } else {
                assert(c == Tree::Constant(crate::grammar::at(t, p), t[p + 1int].text@, Box::new(Tree::Null)));
            }
        }
    }
}

/// `var name = e` (with no type): the variable declared holds, as its
/// value, the expression that the tokens after `=` parse to; without `=` it
/// holds none.
pub proof fn law_variable_keeps_its_value(t: Seq<MatchedToken<Token>>, p: nat, s: Syntax)
    requires
        token_is(t, p, Token::Var),
        token_is(t, p + 1, Token::Identifier),
        !token_is(t, p + 2, Token::As),
    ensures
        token_is(t, p + 2, Token::SingleEquals) ==> (g_variable(t, p) is Some <==> g_expression(t, p + 3) is Some),
        match g_variable(t, p) {
            Some((c, q)) => is_tree(s, c) ==> (s matches Syntax::Variable { name, value, .. }
            && (*name matches Syntax::Identifier { name: n, .. } && n@ == t[p + 1int].text@) && if token_is(
            t,
            p + 2,
            Token::SingleEquals,
        ) {
            value matches Some(v) && g_expression(t, p + 3) matches Some((e, q2)) && q2 == q && is_tree(*v, e)
        } else {
            value is None && q == p + 2
        }),
            None => true,
        },
{
    reveal_with_fuel(is_tree, 2);
    if let Some((c, q)) = g_variable(t, p) {
        if is_tree(s, c) {
            let name = Tree::Name(crate::grammar::at(t, p + 1), t[p + 1int].text@);
            if token_is(t, p + 2, Token::SingleEquals) {
                let (v, q2) = g_expression(t, p + 3)->0;
                assert(c == Tree::Var(crate::grammar::at(t, p), Box::new(name), Some(Box::new(v))));
            } else {
                assert(c == Tree::Var(crate::grammar::at(t, p), Box::new(name), None));
            }
        }
    }
}

/// `attribute name = e`: the attribute holds, as its value, the expression
/// that the tokens after `=` parse to; without `=` it holds none.
pub proof fn law_attribute_keeps_its_value(t: Seq<MatchedToken<Token>>, p: nat, s: Syntax)
    requires
        p < t.len(),
        token_is(t, p + 1, Token::Identifier),
    ensures
        token_is(t, p + 2, Token::SingleEquals) ==> (g_attribute(t, p) is Some <==> g_expression(t, p + 3) is Some),
        match g_attribute(t, p) {
            Some((c, q)) => is_tree(s, c) ==> (s matches Syntax::Attribute { value, .. } && if token_is(
            t,
            p + 2,
            Token::SingleEquals,
        ) {
            value matches Some(v) && g_expression(t, p + 3) matches Some((e, q2)) && q2 == q && is_tree(*v, e)
        } else {
            value is None && q == p + 2
        }),
            None => true,
        },
{
    if let Some((c, q)) = g_attribute(t, p) {
        if is_tree(s, c) {
            if token_is(t, p + 2, Token::SingleEquals) {
                let (v, q2) = g_expression(t, p + 3)->0;
                assert(c == Tree::Attribute(crate::grammar::at(t, p), Box::new(crate::grammar::name_at(t, p + 1)), Some(Box::new(v))));
            } else {
                assert(c == Tree::Attribute(crate::grammar::at(t, p), Box::new(crate::grammar::name_at(t, p + 1)), None));
            }
        }
    }
}

/// `return e`: the return holds the expression that follows it; a `return`
/// followed by no expression holds none.
pub proof fn law_return_keeps_its_value(t: Seq<MatchedToken<Token>>, p: nat, s: Syntax)
    requires
        token_is(t, p, Token::Return),
    ensures
        p + 1 < t.len() && starts_expression(t[p + 1int].token) ==> (g_return(t, p) is Some <==> g_expression(t, p + 1) is Some),
        match g_return(t, p) {
            Some((c, q)) => is_tree(s, c) ==> (s matches Syntax::Return { expr, .. } && if p + 1 < t.len()
            && starts_expression(t[p + 1int].token) {
            expr matches Some(x) && g_expression(t, p + 1) matches Some((e, q2)) && q2 == q && is_tree(*x, e)
        } else {
            expr is None && q == p + 1
        }),
            None => true,
        },
{
}

/// `target = e`: an assignment holds the expression read first as its
/// target and the expression after `=` as its value.
pub proof fn law_assignment_keeps_target_and_value(
    t: Seq<MatchedToken<Token>>,
    ends: Seq<Cursor>,
    p: nat,
    e: Tree,
    q0: nat,
    s: Syntax,
)
    requires
        g_expression(t, p) == Some((e, q0)),
        !(e is Call),
        token_is(t, q0, Token::SingleEquals),
    ensures
        g_assignment(t, ends, p) is Some <==> g_expression(t, q0 + 1) is Some,
        match g_assignment(t, ends, p) {
            Some((c, q)) => is_tree(s, c) ==> (s matches Syntax::Assign { target, value, .. }
            && g_expression(t, q0 + 1) matches Some((v, q2)) && is_tree(*target, e) && q2 == q && is_tree(*value, v)),
            None => true,
        },
{
}

// ---------------------------------------------------------------------------
// Operators as the machine runs them
// ---------------------------------------------------------------------------

/// The value that an operator instruction leaves for two integers, where
/// the exact result fits in 64 bits: the sum, difference or product, the
/// truth of the comparison, or the equality.
pub open spec fn integer_operation(ins: Instruction, x: i64, y: i64) -> Option<Variant> {
    match ins {
        Instruction::Add => if i64::MIN <= x + y <= i64::MAX { Some(Variant::Integer((x + y) as i64)) } else { None },
        Instruction::Sub => if i64::MIN <= x - y <= i64::MAX { Some(Variant::Integer((x - y) as i64)) } else { None },
        Instruction::Multiply => if i64::MIN <= x * y <= i64::MAX {
            Some(Variant::Integer((x * y) as i64))
        } else {
            None
        },
        Instruction::LessThan => Some(Variant::Bool(x < y)),
        Instruction::LessThanOrEqual => Some(Variant::Bool(x <= y)),
        Instruction::GreaterThan => Some(Variant::Bool(x > y)),
        Instruction::GreaterThanOrEqual => Some(Variant::Bool(x >= y)),
        Instruction::Equal => Some(Variant::Bool(x == y)),
        Instruction::NotEqual => Some(Variant::Bool(x != y)),
        _ => None,
    }
}

/// An operator instruction on two integers on top of the stack (the right
/// one on top) replaces them with the result of the operation, the left
/// operand first, and goes on to the next instruction.
pub proof fn law_machine_integer_operators(t: Thread, e0: Execution, e1: Execution, r: Result<Step, RuntimeError>, x: i64, y: i64)
    requires
        e0.ip < t.spec_program().instructions@.len(),
        integer_operation(t.spec_program().instructions@[e0.ip as int], x, y) is Some,
        e0.stack@.len() >= 2,
        e0.stack@[e0.stack@.len() - 2] == Variant::Integer(x),
        e0.stack@[e0.stack@.len() - 1] == Variant::Integer(y),
        step_post(t, e0, e1, r),
    ensures
        r matches Ok(Step::Next),
        e1.ip == e0.ip + 1,
        e1.heap == e0.heap,
        e1.stack@ == e0.stack@.take(e0.stack@.len() - 2).push(
            integer_operation(t.spec_program().instructions@[e0.ip as int], x, y)->0,
        ),
{
    let s = e0.stack@;
    let n = s.len();
    let ins = t.spec_program().instructions@[e0.ip as int];
    if ins == Instruction::Multiply {
        lemma_product_fits(x, y);
    }
    assert(e1.stack@ =~= s.take(n - 2).push(e1.stack@.last()));
}

/// `Not` on a boolean on top of the stack replaces it with its negation.
pub proof fn law_machine_not_negates(t: Thread, e0: Execution, e1: Execution, r: Result<Step, RuntimeError>, b: bool)
    requires
        e0.ip < t.spec_program().instructions@.len(),
        t.spec_program().instructions@[e0.ip as int] == Instruction::Not,
        e0.stack@.len() >= 1,
        e0.stack@.last() == Variant::Bool(b),
        step_post(t, e0, e1, r),
    ensures
        r matches Ok(Step::Next),
        e1.ip == e0.ip + 1,
        e1.stack@ == e0.stack@.drop_last().push(Variant::Bool(!b)),
{
}

// ---------------------------------------------------------------------------
// Code of statements
// ---------------------------------------------------------------------------

/// `return e` compiles to the code of `e`, then one return with a value;
/// `return` alone to one return without one.
pub proof fn law_return_code(position: TokenPosition, e: Syntax, vars: Seq<(String, Variable)>, in_loop: bool)
    ensures
        stmt_block(Syntax::Return { position, expr: None }, vars, in_loop) matches Some(b) && b.code == seq![
            Instruction::Return { with_value: false },
        ],
        match expr_code(e, vars) {
            Some(c) => stmt_block(Syntax::Return { position, expr: Some(Box::new(e)) }, vars, in_loop) matches Some(b)
                && b.code == c + seq![Instruction::Return { with_value: true }],
            None => stmt_block(Syntax::Return { position, expr: Some(Box::new(e)) }, vars, in_loop) is None,
        },
{
}

/// `print e` compiles to the code of `e`, then one `Print`.
pub proof fn law_print_code(position: TokenPosition, e: Syntax, vars: Seq<(String, Variable)>, in_loop: bool)
    ensures
        match expr_code(e, vars) {
            Some(c) => stmt_block(Syntax::Print { position, expr: Box::new(e) }, vars, in_loop) matches Some(b) && b.code == c
                + seq![Instruction::Print],
            None => stmt_block(Syntax::Print { position, expr: Box::new(e) }, vars, in_loop) is None,
        },
{
}

/// A `while` loop compiles to its condition, a jump taken when it is false
/// that lands just past the loop, its body, and a jump back to the start of
/// the condition. In the body, a `break` jumps just past the loop and a
/// `continue` back to the condition; the rest of the body is its own code.
/// The loop's own code jumps out of no loop.
pub proof fn law_while_loops(
    position: TokenPosition,
    condition: Syntax,
    body: Vec<Syntax>,
    vars: Seq<(String, Variable)>,
    in_loop: bool,
    c: Seq<Instruction>,
    b: Block,
)
    requires
        expr_code(condition, vars) == Some(c),
        stmts_block(body@, vars, true) == Some(b),
        c.len() + b.code.len() + 2 <= usize::MAX,
    ensures
        stmt_block(Syntax::WhileLoop { position, condition: Box::new(condition), body }, vars, in_loop) matches Some(w) && {
            let m = c.len() as int;
            let k = b.code.len() as int;
            let n = w.code.len() as int;
            &&& n == m + k + 2
            &&& w.code.take(m) == c
            &&& w.code[m] matches Instruction::JumpForwardIfFalse(d) && m + d == n
            &&& w.code[n - 1] matches Instruction::JumpBackward(d) && n - 1 - d == 0
            &&& forall|i: int|
                0 <= i < k && !b.breaks.contains(i) && !b.continues.contains(i) ==> #[trigger] w.code[m + 1 + i] == b.code[i]
            &&& forall|i: int|
                0 <= i < k && b.continues.contains(i) ==> (#[trigger] w.code[m + 1 + i] matches Instruction::JumpBackward(d)
                    && m + 1 + i - d == 0)
            &&& forall|i: int|
                0 <= i < k && b.breaks.contains(i) && !b.continues.contains(i) ==> (#[trigger] w.code[m + 1 + i] matches Instruction::JumpForward(
                    d,
                ) && m + 1 + i + d == n)
            &&& w.breaks.len() == 0
            &&& w.continues.len() == 0
            &&& w.vars == b.vars
        },
{
    let m = c.len() as int;
    let k = b.code.len() as int;
    let body_code = crate::blocks::loop_body(b, k + 1, -(m + 1));
    let code = c + seq![Instruction::JumpForwardIfFalse((k + 2) as usize)] + body_code + seq![Instruction::JumpBackward((m + 1 + k) as usize)];
    assert(code.take(m) =~= c);
    assert forall|i: int| 0 <= i < k implies #[trigger] code[m + 1 + i] == body_code[i] by {}
}

// ---------------------------------------------------------------------------
// The standard library as scripts reach it
// ---------------------------------------------------------------------------

/// The native function that member `key` of `members` names in `t`.
pub open spec fn member_native(t: Thread, members: Table<Variant>, key: Seq<char>) -> Option<NativeFunction> {
    match members.spec_get(key) {
        Some(Variant::NativeFunctionRef(n)) => t.spec_natives().spec_get(n@),
        _ => None,
    }
}

/// With `Math` registered, `Math.min` and `Math.max` reach natives that, on
/// two integers, give the smaller and the larger of them, and `Math.abs`
/// one that gives the absolute value (of any integer but the smallest).
pub proof fn law_math_members(
    t: Thread,
    m: Table<Variant>,
    h0: Heap,
    h1: Heap,
    p: Seq<Variant>,
    r_min: Result<Option<Variant>, RuntimeError>,
    r_max: Result<Option<Variant>, RuntimeError>,
    r_abs: Result<Option<Variant>, RuntimeError>,
    x: i64,
    y: i64,
)
    requires
        math_module_in(t),
        t.spec_program().globals.spec_get("Math"@) == Some(Variant::Module(m)),
        p.len() > 2,
        p[1] == Variant::Integer(x),
        p[2] == Variant::Integer(y),
        member_native(t, m, "min"@) matches Some(f) && native_post(f, h0, h1, p, r_min),
        member_native(t, m, "max"@) matches Some(f) && native_post(f, h0, h1, p, r_max),
        member_native(t, m, "abs"@) matches Some(f) && native_post(f, h0, h1, p, r_abs),
    ensures
        r_min matches Ok(Some(Variant::Integer(v))) && v <= x && v <= y && (v == x || v == y),
        r_max matches Ok(Some(Variant::Integer(v))) && v >= x && v >= y && (v == x || v == y),
        x != i64::MIN ==> (r_abs matches Ok(Some(Variant::Integer(v))) && v >= 0 && (v == x || v == -x)),
{
}

/// With `Dictionary` registered, its `keys` member reaches a native that
/// lists the keys of the object's dictionary as texts, in order; `values`
/// one that lists copies of its values; and `length` one that counts them.
pub proof fn law_dictionary_members(
    t: Thread,
    c: Table<Variant>,
    h: Heap,
    h1: Heap,
    p: Seq<Variant>,
    d: Table<Variant>,
    r_keys: Result<Option<Variant>, RuntimeError>,
    r_values: Result<Option<Variant>, RuntimeError>,
    r_length: Result<Option<Variant>, RuntimeError>,
)
    requires
        dictionary_class_in(t),
        t.spec_program().globals.spec_get("Dictionary"@) == Some(Variant::Class(c)),
        dict_of(h, p) == Some(d),
        member_native(t, c, "keys"@) matches Some(f) && native_post(f, h, h1, p, r_keys),
        member_native(t, c, "values"@) matches Some(f) && native_post(f, h, h1, p, r_values),
        member_native(t, c, "length"@) matches Some(f) && native_post(f, h, h1, p, r_length),
    ensures
        r_keys matches Ok(Some(Variant::Array(ks))) && ks@.len() == d.spec_len() && forall|i: int|
            0 <= i < ks@.len() ==> (#[trigger] ks@[i] matches Variant::String(k) && k@ == d.spec_keys()[i]),
        r_values matches Ok(Some(Variant::Array(vs))) && vs@.len() == d.spec_len() && forall|i: int|
            0 <= i < vs@.len() ==> same_value(d.spec_values()[i], #[trigger] vs@[i], DEPTH as nat),
        r_length == Ok::<Option<Variant>, RuntimeError>(Some(Variant::Integer(d.spec_len() as i64))),
{
    law_native_keys_are_the_keys(h, h1, p, r_keys, d);
}

/// With `Dictionary` registered, `get` after `set` through its members, on
/// the same object and key, gives back the value set.
pub proof fn law_dictionary_get_after_set_members(
    t: Thread,
    c: Table<Variant>,
    h0: Heap,
    h1: Heap,
    h2: Heap,
    set_args: Seq<Variant>,
    set_result: Result<Option<Variant>, RuntimeError>,
    get_args: Seq<Variant>,
    get_result: Result<Option<Variant>, RuntimeError>,
)
    requires
        dictionary_class_in(t),
        t.spec_program().globals.spec_get("Dictionary"@) == Some(Variant::Class(c)),
        member_native(t, c, "set"@) matches Some(f) && native_post(f, h0, h1, set_args, set_result),
        set_result is Ok,
        member_native(t, c, "get"@) matches Some(f) && native_post(f, h1, h2, get_args, get_result),
        get_args.len() >= 2,
        get_args[0] == set_args[0],
        get_args[1] == set_args[1],
    ensures
        get_result matches Ok(Some(w)) && same_value(set_args[2], w, DEPTH as nat),
{
    law_native_get_after_set(h0, h1, h2, set_args, set_result, get_args, get_result);
}

// ---------------------------------------------------------------------------
// More instructions as the machine runs them
// ---------------------------------------------------------------------------

/// A push of an integer, a boolean or `null` leaves that value on top of
/// the stack, on the stack as it was, and goes on.
pub proof fn law_machine_pushes(t: Thread, e0: Execution, e1: Execution, r: Result<Step, RuntimeError>, v: Variant)
    requires
        e0.ip < t.spec_program().instructions@.len(),
        match t.spec_program().instructions@[e0.ip as int] {
            Instruction::PushInteger(x) => v == Variant::Integer(x),
            Instruction::PushBool(b) => v == Variant::Bool(b),
            Instruction::PushNull => v == Variant::Null,
            _ => false,
        },
        step_post(t, e0, e1, r),
    ensures
        r matches Ok(Step::Next),
        e1.ip == e0.ip + 1,
        e1.stack@ == e0.stack@.push(v),
        e1.heap == e0.heap,
{
}

/// A jump forward by `d` goes `d` instructions on, a jump backward by `d`
/// goes `d` back, and a conditional jump pops the top value and jumps only
/// when it is `false`; none of them changes the rest of the stack.
pub proof fn law_machine_jumps(t: Thread, e0: Execution, e1: Execution, r: Result<Step, RuntimeError>)
    requires
        e0.ip < t.spec_program().instructions@.len(),
        step_post(t, e0, e1, r),
        r is Ok,
    ensures
        match t.spec_program().instructions@[e0.ip as int] {
            Instruction::JumpForward(d) => e1.ip == e0.ip + d && e1.stack@ == e0.stack@,
            Instruction::JumpBackward(d) => e1.ip == e0.ip - d && e1.stack@ == e0.stack@,
            Instruction::JumpForwardIfFalse(d) => e0.stack@.len() > 0 && e1.stack@ == e0.stack@.drop_last() && e1.ip == if e0.stack@.last()
                == Variant::Bool(false) {
                e0.ip + d
            } else {
                e0.ip + 1
            },
            _ => true,
        },
{
}

/// `Print` hands the top value to the host, and pops it.
pub proof fn law_machine_prints_the_top(t: Thread, e0: Execution, e1: Execution, r: Result<Step, RuntimeError>)
    requires
        e0.ip < t.spec_program().instructions@.len(),
        t.spec_program().instructions@[e0.ip as int] == Instruction::Print,
        e0.stack@.len() > 0,
        step_post(t, e0, e1, r),
    ensures
        r == Ok::<Step, RuntimeError>(Step::Print(e0.stack@.last())),
        e1.stack@ == e0.stack@.drop_last(),
        e1.ip == e0.ip + 1,
{
}

/// `sleep e` compiles to the code of `e`, then one `Sleep`.
pub proof fn law_sleep_code(position: TokenPosition, e: Syntax, vars: Seq<(String, Variable)>, in_loop: bool)
    ensures
        match expr_code(e, vars) {
            Some(c) => stmt_block(Syntax::Sleep { position, expr: Box::new(e) }, vars, in_loop) matches Some(b) && b.code == c
                + seq![Instruction::Sleep],
            None => stmt_block(Syntax::Sleep { position, expr: Box::new(e) }, vars, in_loop) is None,
        },
{
}

/// `not e` parses to the negation of the expression after `not`, ending
/// where it ends; it parses exactly when that expression does.
pub proof fn law_not_parses_its_operand(t: Seq<MatchedToken<Token>>, p: nat, s: Syntax)
    requires
        token_is(t, p, Token::Not),
    ensures
        g_not(t, p) is Some <==> g_expression(t, p + 1) is Some,
        match g_not(t, p) {
            Some((c, q)) => is_tree(s, c) ==> (s matches Syntax::Not { expr } && g_expression(t, p + 1) matches Some((e, q2))
                && q2 == q && is_tree(*expr, e)),
            None => true,
        },
{
}

// ---------------------------------------------------------------------------
// Variables: where a value is stored is where it is read
// ---------------------------------------------------------------------------

/// `var x = e` compiles to the code of `e` and a store into the next free
/// slot, and after it `x` reads from that same slot; `var x` alone stores
/// `null` there. A name already declared cannot be declared again.
pub proof fn law_declared_variable_is_read_back(
    position: TokenPosition,
    at: TokenPosition,
    name: String,
    value: Option<Box<Syntax>>,
    vars: Seq<(String, Variable)>,
    in_loop: bool,
)
    requires
        vars.len() < usize::MAX,
    ensures
        local_var(vars, name@) is Some ==> stmt_block(
            Syntax::Variable { position, name: Box::new(Syntax::Identifier { position: at, name }), value },
            vars,
            in_loop,
        ) is None,
        local_var(vars, name@) is None ==> match stmt_block(
            Syntax::Variable { position, name: Box::new(Syntax::Identifier { position: at, name }), value },
            vars,
            in_loop,
        ) {
            Some(b) => {
                &&& b.code.last() == Instruction::MoveToLocalVariable(vars.len() as usize)
                &&& b.code.drop_last() == match value {
                    Some(e) => expr_code(*e, declare(vars, name))->0,
                    None => seq![Instruction::PushNull],
                }
                &&& expr_code(Syntax::Identifier { position: at, name }, b.vars) == Some(
                    seq![Instruction::LoadLocalVariable(vars.len() as usize)],
                )
            },
            None => value matches Some(e) && expr_code(*e, declare(vars, name)) is None,
        },
{
    let v2 = declare(vars, name);
    if local_var(vars, name@) is None {
        lemma_find_in_props(vars, name@);
        assert(v2.drop_last() =~= vars);
        assert(find_in(v2, name@) == Some(vars.len() as int));
        if let Some(e) = value {
            if let Some(c) = expr_code(*e, v2) {
                assert(c.push(Instruction::MoveToLocalVariable(vars.len() as usize)).drop_last() =~= c);
            }
        } else {
            assert(seq![Instruction::PushNull, Instruction::MoveToLocalVariable(vars.len() as usize)].drop_last() =~= seq![
                Instruction::PushNull,
            ]);
        }
    }
}

/// `x = e` for a local variable `x` compiles to the code of `e` and a store
/// into the slot that `x` is read from.
pub proof fn law_assignment_stores_where_read(
    position: TokenPosition,
    at: TokenPosition,
    name: String,
    e: Syntax,
    vars: Seq<(String, Variable)>,
    in_loop: bool,
    v: Variable,
    c: Seq<Instruction>,
)
    requires
        local_var(vars, name@) == Some(v),
        expr_code(e, vars) == Some(c),
    ensures
        stmt_block(
            Syntax::Assign { position, target: Box::new(Syntax::Identifier { position: at, name }), value: Box::new(e) },
            vars,
            in_loop,
        ) matches Some(b) && b.code == c + seq![Instruction::MoveToLocalVariable(v.slot_index)] && b.vars == vars,
        expr_code(Syntax::Identifier { position: at, name }, vars) == Some(seq![Instruction::LoadLocalVariable(v.slot_index)]),
{
}

/// Storing the top value into a local slot and then loading that slot, as
/// the machine runs them, puts a copy of the value back on the stack as it
/// was before the store.
pub proof fn law_machine_store_then_load(
    t: Thread,
    e0: Execution,
    e1: Execution,
    e2: Execution,
    r1: Result<Step, RuntimeError>,
    r2: Result<Step, RuntimeError>,
    i: usize,
)
    requires
        e0.ip < t.spec_program().instructions@.len(),
        e1.ip < t.spec_program().instructions@.len(),
        t.spec_program().instructions@[e0.ip as int] == Instruction::MoveToLocalVariable(i),
        t.spec_program().instructions@[e1.ip as int] == Instruction::LoadLocalVariable(i),
        e0.stack@.len() > 0,
        step_post(t, e0, e1, r1),
        step_post(t, e1, e2, r2),
    ensures
        r1 matches Ok(Step::Next),
        r2 matches Ok(Step::Next),
        e2.stack@.len() == e0.stack@.len(),
        e2.stack@.drop_last() == e0.stack@.drop_last(),
        same_value(e0.stack@.last(), e2.stack@.last(), DEPTH as nat),
{
    let s1 = e1.stack@;
    assert(e2.stack@.take(s1.len() as int) == s1.take(s1.len() as int));
    assert(s1.take(s1.len() as int) =~= s1);
    assert(e2.stack@.drop_last() =~= e2.stack@.take(s1.len() as int));
}

/// `CreateCollectionAsArray(k)` replaces the top `k` values with one array
/// of them, the deepest first; reading item `i` of that array with
/// `GetCollectionItem` then gives a copy of the `i`-th of those values.
pub proof fn law_machine_array_keeps_order(
    t: Thread,
    e0: Execution,
    e1: Execution,
    r: Result<Step, RuntimeError>,
    k: usize,
)
    requires
        e0.ip < t.spec_program().instructions@.len(),
        t.spec_program().instructions@[e0.ip as int] == Instruction::CreateCollectionAsArray(k),
        e0.stack@.len() >= k,
        step_post(t, e0, e1, r),
    ensures
        r matches Ok(Step::Next),
        e1.stack@.len() == e0.stack@.len() - k + 1,
        e1.stack@.drop_last() == e0.stack@.take(e0.stack@.len() - k),
        e1.stack@.last() matches Variant::Array(a) && a@.len() == k && forall|i: int|
            0 <= i < k ==> #[trigger] a@[i] == e0.stack@[e0.stack@.len() - k + i],
{
    let n = e0.stack@.len();
    assert(e1.stack@.drop_last() =~= e1.stack@.take(n - k));
}

/// `if c ... else ... end` compiles to the condition, a jump taken when it
/// is false that lands on the first instruction of the `else` body, the
/// `if` body, a jump that lands just past the chain, and the `else` body;
/// the bodies keep their own code.
pub proof fn law_if_else_code(
    position: TokenPosition,
    arms: Vec<Syntax>,
    condition: Syntax,
    then_body: Seq<Syntax>,
    else_body: Seq<Syntax>,
    vars: Seq<(String, Variable)>,
    in_loop: bool,
    c: Seq<Instruction>,
    b1: Block,
    b2: Block,
)
    requires
        arms@.len() == 2,
        arms@[0] matches Syntax::If { condition: x, body, .. } && *x == condition && body@ == then_body,
        arms@[1] matches Syntax::Else { body, .. } && body@ == else_body,
        expr_code(condition, vars) == Some(c),
        stmts_block(then_body, vars, in_loop) == Some(b1),
        stmts_block(else_body, b1.vars, in_loop) == Some(b2),
        c.len() + b1.code.len() + b2.code.len() + 2 <= usize::MAX,
    ensures
        stmt_block(Syntax::IfChain { position, arms }, vars, in_loop) matches Some(w) && {
            let m = c.len() as int;
            let k1 = b1.code.len() as int;
            let k2 = b2.code.len() as int;
            let n = w.code.len() as int;
            &&& n == m + k1 + 2 + k2
            &&& w.code.take(m) == c
            &&& w.code[m] matches Instruction::JumpForwardIfFalse(d) && m + d == m + k1 + 2
            &&& w.code[m + 1 + k1] matches Instruction::JumpForward(d) && m + 1 + k1 + d == n
            &&& forall|i: int| 0 <= i < k1 ==> #[trigger] w.code[m + 1 + i] == b1.code[i]
            &&& forall|i: int| 0 <= i < k2 ==> #[trigger] w.code[m + k1 + 2 + i] == b2.code[i]
        },
{
    let s = arms@;
    let m = c.len() as int;
    let k1 = b1.code.len() as int;
    assert(s.subrange(0, 1).subrange(0, 0) =~= Seq::<Syntax>::empty());
    assert(s.subrange(0, 1)[0] == s[0]);
    assert(s.subrange(0, 2 - 1) =~= s.subrange(0, 1));
    let a0 = arms_block(Seq::<Syntax>::empty(), vars, in_loop)->0;
    let first = arm_block(s[0], vars, in_loop)->0;
    let second = arm_block(s[1], b1.vars, in_loop)->0;
    let j1 = join(a0.0, first.0);
    assert(arms_block(s.subrange(0, 1), vars, in_loop) == Some((j1, a0.1 + crate::blocks::shifted(first.1, 0))));
    assert(j1.code =~= first.0.code);
    let all = join(j1, second.0);
    let code = all.code;
    let ends = a0.1 + crate::blocks::shifted(first.1, 0) + crate::blocks::shifted(second.1, j1.code.len() as int);
    assert(ends =~= seq![m + 1 + k1]);
    let w = jumps_to_end(code, ends);
    assert(w.take(m) =~= c) by {
        assert forall|i: int| 0 <= i < m implies w[i] == c[i] by {
            assert(!ends.contains(i)) by {
                if ends.contains(i) {
                    assert(ends[0] == m + 1 + k1);
                }
            }
        }
    }
    assert(ends.contains(m + 1 + k1)) by {
        assert(ends[0] == m + 1 + k1);
    }
    assert forall|i: int| 0 <= i < k1 implies #[trigger] w[m + 1 + i] == b1.code[i] by {
        assert(!ends.contains(m + 1 + i)) by {
            if ends.contains(m + 1 + i) {
                assert(ends[0] == m + 1 + k1);
            }
        }
    }
    assert forall|i: int| 0 <= i < b2.code.len() implies #[trigger] w[m + k1 + 2 + i] == b2.code[i] by {
        assert(!ends.contains(m + k1 + 2 + i)) by {
            if ends.contains(m + k1 + 2 + i) {
                assert(ends[0] == m + 1 + k1);
            }
        }
    }
    assert(!ends.contains(m)) by {
        if ends.contains(m) {
            assert(ends[0] == m + 1 + k1);
        }
    }
}

} // verus!
