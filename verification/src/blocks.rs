use vstd::prelude::*;

use crate::codegen::{assign_code, expr_code, local_var, Function, IteratorTracker, Variable};
use crate::instruction::Instruction;
use crate::syntax::Syntax;

verus! {

/// The code of a run of statements, the local variables after it, and the
/// offsets into `code` of its `break` and `continue` jumps that leave for a
/// loop around it.
pub ghost struct Block {
    pub code: Seq<Instruction>,
    pub vars: Seq<(String, Variable)>,
    pub breaks: Seq<int>,
    pub continues: Seq<int>,
}

/// Code that jumps out of no loop.
pub open spec fn plain(code: Seq<Instruction>, vars: Seq<(String, Variable)>) -> Block {
    Block { code, vars, breaks: Seq::empty(), continues: Seq::empty() }
}

/// Each offset of `s` moved by `d`.
pub open spec fn shifted(s: Seq<int>, d: int) -> Seq<int> {
    s.map_values(|x: int| x + d)
}

/// The code of `a` followed by that of `b`.
pub open spec fn join(a: Block, b: Block) -> Block {
    Block {
        code: a.code + b.code,
        vars: b.vars,
        breaks: a.breaks + shifted(b.breaks, a.code.len() as int),
        continues: a.continues + shifted(b.continues, a.code.len() as int),
    }
}

/// `b` with its code replaced.
pub open spec fn recoded(b: Block, code: Seq<Instruction>) -> Block {
    Block { code, vars: b.vars, breaks: b.breaks, continues: b.continues }
}

/// The name that an identifier or a string gives.
pub open spec fn name_text(s: Syntax) -> Option<String> {
    match s {
        Syntax::Identifier { name, .. } => Some(name),
        Syntax::String(t) => Some(t),
        _ => None,
    }
}

/// `vars` with a variable named `name` in the next slot.
pub open spec fn declare(vars: Seq<(String, Variable)>, name: String) -> Seq<(String, Variable)> {
    vars.push((name, Variable { slot_index: vars.len() as usize, name }))
}

/// The body `b` of a loop: each of its `continue`s jumps back to offset
/// `restart` and each of its `break`s forward to offset `exit`, both counted
/// from the start of the body.
pub open spec fn loop_body(b: Block, exit: int, restart: int) -> Seq<Instruction> {
    Seq::new(
        b.code.len(),
        |i: int|
            if b.continues.contains(i) {
                Instruction::JumpBackward((i - restart) as usize)
            } else if b.breaks.contains(i) {
                Instruction::JumpForward((exit - i) as usize)
            } else {
                b.code[i]
            },
    )
}

/// `code` where the instruction at each offset of `ends` jumps to its end.
pub open spec fn jumps_to_end(code: Seq<Instruction>, ends: Seq<int>) -> Seq<Instruction> {
    Seq::new(
        code.len(),
        |i: int|
            if ends.contains(i) {
                Instruction::JumpForward((code.len() - i) as usize)
            } else {
                code[i]
            },
    )
}

/// The declaration of the variable `name`: it takes the next slot and gets
/// the value when there is one, or `null` when `with_default` asks for it.
/// `None` when the name is taken or is no name.
pub open spec fn declared_block(
    name: Syntax,
    value: Option<Box<Syntax>>,
    vars: Seq<(String, Variable)>,
    with_default: bool,
) -> Option<Block> {
    match name_text(name) {
        None => None,
        Some(t) => if local_var(vars, t@) is Some {
            None
        } else {
            let v2 = declare(vars, t);
            let store = Instruction::MoveToLocalVariable(vars.len() as usize);
            match value {
                None => Some(
                    plain(
                        if with_default {
                            seq![Instruction::PushNull, store]
                        } else {
                            Seq::empty()
                        },
                        v2,
                    ),
                ),
                Some(e) => match expr_code(*e, v2) {
                    Some(c) => Some(plain(c.push(store), v2)),
                    None => None,
                },
            }
        },
    }
}

/// The code that leaves on the stack the end, the step and the start of
/// what a `for` loop runs over: of a range, or of a collection (step 1 from
/// 0).
pub open spec fn range_code(c: Syntax, vars: Seq<(String, Variable)>) -> Option<Seq<Instruction>> {
    match c {
        Syntax::Range { start, end, step } => {
            let step_code = match step {
                Some(s) => expr_code(*s, vars),
                None => Some(seq![Instruction::PushInteger(1)]),
            };
            match (expr_code(*end, vars), step_code, expr_code(*start, vars)) {
                (Some(a), Some(b), Some(d)) => Some(a + b + d),
                _ => None,
            }
        },
        other => match expr_code(other, vars) {
            Some(a) => Some(a + seq![Instruction::PushInteger(1), Instruction::PushInteger(0)]),
            None => None,
        },
    }
}

/// The code of one statement, with `vars` the local variables before it and
/// `in_loop` whether a loop is around it; `None` when it cannot be compiled.
/// A `while` loop is its condition, a jump past the loop when it is false,
/// its body and a jump back to the condition; a `for` loop declares its
/// variable, sets up an iterator and runs its body while the iterator gives
/// items.
pub open spec fn stmt_block(s: Syntax, vars: Seq<(String, Variable)>, in_loop: bool) -> Option<Block>
    decreases s,
{
    match s {
        Syntax::Call { .. } => match expr_code(s, vars) {
            Some(c) => Some(plain(c, vars)),
            None => None,
        },
        Syntax::IfChain { arms, .. } => match arms_block(arms@, vars, in_loop) {
            Some((a, ends)) => Some(recoded(a, jumps_to_end(a.code, ends))),
            None => None,
        },
        Syntax::Match { expr, arms, default, .. } => match cases_block(*expr, arms@, vars, in_loop) {
            Some((a, ends)) => match default {
                None => Some(recoded(a, jumps_to_end(a.code, ends))),
                Some(d) => match *d {
                    Syntax::DefaultCase { body, .. } => match stmts_block(body@, a.vars, in_loop) {
                        Some(b) => Some(recoded(join(a, b), jumps_to_end(join(a, b).code, ends))),
                        None => None,
                    },
                    _ => None,
                },
            },
            None => None,
        },
        Syntax::Variable { name, value, .. } => declared_block(*name, value, vars, true),
        Syntax::Assign { target, value, .. } => match assign_code(*target, *value, vars) {
            Some(c) => Some(plain(c, vars)),
            None => None,
        },
        Syntax::Return { expr, .. } => match expr {
            None => Some(plain(seq![Instruction::Return { with_value: false }], vars)),
            Some(e) => match expr_code(*e, vars) {
                Some(c) => Some(plain(c.push(Instruction::Return { with_value: true }), vars)),
                None => None,
            },
        },
        Syntax::WhileLoop { condition, body, .. } => match (expr_code(*condition, vars), stmts_block(body@, vars, true)) {
            (Some(c), Some(b)) => {
                let k = b.code.len() as int;
                let m = c.len() as int;
                Some(
                    plain(
                        c + seq![Instruction::JumpForwardIfFalse((k + 2) as usize)] + loop_body(b, k + 1, -(m + 1))
                            + seq![Instruction::JumpBackward((m + 1 + k) as usize)],
                        b.vars,
                    ),
                )
            },
            _ => None,
        },
        Syntax::ForEach { ident, collection, body, .. } => match *ident {
            Syntax::Identifier { name, .. } => if local_var(vars, name@) is Some {
                None
            } else {
                let v1 = declare(vars, name);
                match (range_code(*collection, v1), stmts_block(body@, v1, true)) {
                    (Some(h), Some(b)) => {
                        let k = b.code.len() as int;
                        Some(
                            plain(
                                h + seq![
                                    Instruction::IteratorInit,
                                    Instruction::IteratorNext(vars.len() as usize),
                                    Instruction::JumpForwardIfFalse((k + 2) as usize),
                                ] + loop_body(b, k + 1, -2) + seq![Instruction::JumpBackward((k + 2) as usize)],
                                b.vars,
                            ),
                        )
                    },
                    _ => None,
                }
            },
            _ => None,
        },
        Syntax::Break { .. } => if in_loop {
            Some(Block { code: seq![Instruction::NoOperation], vars, breaks: seq![0], continues: Seq::empty() })
        } else {
            None
        },
        Syntax::Continue { .. } => if in_loop {
            Some(Block { code: seq![Instruction::NoOperation], vars, breaks: Seq::empty(), continues: seq![0] })
        } else {
            None
        },
        Syntax::Print { expr, .. } => match expr_code(*expr, vars) {
            Some(c) => Some(plain(c.push(Instruction::Print), vars)),
            None => None,
        },
        Syntax::Sleep { expr, .. } => match expr_code(*expr, vars) {
            Some(c) => Some(plain(c.push(Instruction::Sleep), vars)),
            None => None,
        },
        _ => Some(plain(Seq::empty(), vars)),
    }
}

/// The code of each statement of `ss` in turn.
pub open spec fn stmts_block(ss: Seq<Syntax>, vars: Seq<(String, Variable)>, in_loop: bool) -> Option<Block>
    decreases ss,
{
    if ss.len() == 0 {
        Some(plain(Seq::empty(), vars))
    } else {
        match stmts_block(ss.subrange(0, ss.len() - 1), vars, in_loop) {
            Some(a) => match stmt_block(ss[ss.len() - 1], a.vars, in_loop) {
                Some(b) => Some(join(a, b)),
                None => None,
            },
            None => None,
        }
    }
}

/// An arm of an `if` chain and the offset of its jump past the chain: an
/// `if` arm is its condition, a jump to the next arm when it is false, its
/// body and the jump past the chain; an `else` arm is its body.
pub open spec fn arm_block(arm: Syntax, vars: Seq<(String, Variable)>, in_loop: bool) -> Option<(Block, Seq<int>)>
    decreases arm,
{
    match arm {
        Syntax::If { condition, body, .. } => match (expr_code(*condition, vars), stmts_block(body@, vars, in_loop)) {
            (Some(c), Some(b)) => {
                let k = b.code.len() as int;
                let m = c.len() as int;
                Some(
                    (
                        Block {
                            code: c + seq![Instruction::JumpForwardIfFalse((k + 2) as usize)] + b.code + seq![
                                Instruction::NoOperation,
                            ],
                            vars: b.vars,
                            breaks: shifted(b.breaks, m + 1),
                            continues: shifted(b.continues, m + 1),
                        },
                        seq![m + 1 + k],
                    ),
                )
            },
            _ => None,
        },
        Syntax::Else { body, .. } => match stmts_block(body@, vars, in_loop) {
            Some(b) => Some((b, Seq::empty())),
            None => None,
        },
        _ => None,
    }
}

/// The arms of an `if` chain in turn, with the offsets of their jumps past
/// the chain.
pub open spec fn arms_block(arms: Seq<Syntax>, vars: Seq<(String, Variable)>, in_loop: bool) -> Option<(Block, Seq<int>)>
    decreases arms,
{
    if arms.len() == 0 {
        Some((plain(Seq::empty(), vars), Seq::empty()))
    } else {
        match arms_block(arms.subrange(0, arms.len() - 1), vars, in_loop) {
            Some((a, ea)) => match arm_block(arms[arms.len() - 1], a.vars, in_loop) {
                Some((b, eb)) => Some((join(a, b), ea + shifted(eb, a.code.len() as int))),
                None => None,
            },
            None => None,
        }
    }
}

/// A case of a `match` on `expr` and the offset of its jump past the match:
/// the matched expression and the case's value compared, a jump to the next
/// case when they differ, the body and the jump past the match.
pub open spec fn case_block(expr: Syntax, arm: Syntax, vars: Seq<(String, Variable)>, in_loop: bool) -> Option<
    (Block, Seq<int>),
>
    decreases arm,
{
    match arm {
        Syntax::Case { condition, body, .. } => match (
            expr_code(expr, vars),
            expr_code(*condition, vars),
            stmts_block(body@, vars, in_loop),
        ) {
            (Some(e), Some(c), Some(b)) => {
                let k = b.code.len() as int;
                let m = e.len() + c.len() + 1int;
                Some(
                    (
                        Block {
                            code: e + c + seq![
                                Instruction::Equal,
                                Instruction::JumpForwardIfFalse((k + 2) as usize),
                            ] + b.code + seq![Instruction::NoOperation],
                            vars: b.vars,
                            breaks: shifted(b.breaks, m + 1),
                            continues: shifted(b.continues, m + 1),
                        },
                        seq![m + 1 + k],
                    ),
                )
            },
            _ => None,
        },
        _ => None,
    }
}

/// The cases of a `match` on `expr` in turn, with the offsets of their jumps
/// past the match.
pub open spec fn cases_block(expr: Syntax, arms: Seq<Syntax>, vars: Seq<(String, Variable)>, in_loop: bool) -> Option<
    (Block, Seq<int>),
>
    decreases arms,
{
    if arms.len() == 0 {
        Some((plain(Seq::empty(), vars), Seq::empty()))
    } else {
        match cases_block(expr, arms.subrange(0, arms.len() - 1), vars, in_loop) {
            Some((a, ea)) => match case_block(expr, arms[arms.len() - 1], a.vars, in_loop) {
                Some((b, eb)) => Some((join(a, b), ea + shifted(eb, a.code.len() as int))),
                None => None,
            },
            None => None,
        }
    }
}

/// The jumps `new` are those of `old` followed by the offsets `added` moved
/// by `base`.
pub open spec fn jumps_added(new: Seq<usize>, old: Seq<usize>, added: Seq<int>, base: int) -> bool {
    &&& new.len() == old.len() + added.len()
    &&& forall|j: int| 0 <= j < old.len() ==> #[trigger] new[j] == old[j]
    &&& forall|j: int| 0 <= j < added.len() ==> #[trigger] new[old.len() + j] == added[j] + base
}

/// The loops being compiled went from `old` to `new` while `b` was
/// appended at `base`: the innermost one got its jumps, the others are
/// untouched.
pub open spec fn loops_after(new: Seq<IteratorTracker>, old: Seq<IteratorTracker>, b: Block, base: int) -> bool {
    &&& new.len() == old.len()
    &&& forall|i: int| 0 <= i < old.len() - 1 ==> #[trigger] new[i] == old[i]
    &&& old.len() > 0 ==> jumps_added(new.last().breaks@, old.last().breaks@, b.breaks, base)
    &&& old.len() > 0 ==> jumps_added(new.last().continues@, old.last().continues@, b.continues, base)
}

/// Every jump of `b` is inside its code.
pub open spec fn jumps_inside(b: Block) -> bool {
    &&& forall|j: int| 0 <= j < b.breaks.len() ==> 0 <= #[trigger] b.breaks[j] < b.code.len()
    &&& forall|j: int| 0 <= j < b.continues.len() ==> 0 <= #[trigger] b.continues[j] < b.code.len()
}

/// Every offset of `ends` is inside `code`.
pub open spec fn ends_inside(ends: Seq<int>, code: Seq<Instruction>) -> bool {
    forall|j: int| 0 <= j < ends.len() ==> 0 <= #[trigger] ends[j] < code.len()
}

/// Generator `new` is `old` with the block `b` appended.
pub open spec fn generated(new: Function, old: Function, b: Block) -> bool {
    &&& new.instructions@ == old.instructions@ + b.code
    &&& new.variables.spec_entries() == b.vars
    &&& new.name == old.name
    &&& loops_after(new.iterators@, old.iterators@, b, old.instructions@.len() as int)
    &&& jumps_inside(b)
}

/// Some entry of `s` is `i`.
pub open spec fn records(s: Seq<usize>, i: int) -> bool {
    exists|j: int| 0 <= j < s.len() && s[j] == i
}

/// `code` once the loop that starts at `start` is closed: its `continue`s
/// jump back to `start` and its `break`s to the end of the code.
pub open spec fn closed_loop(code: Seq<Instruction>, breaks: Seq<usize>, continues: Seq<usize>, start: int) -> Seq<
    Instruction,
> {
    Seq::new(
        code.len(),
        |i: int|
            if start <= i && records(continues, i) {
                Instruction::JumpBackward((i - start) as usize)
            } else if start <= i && records(breaks, i) {
                Instruction::JumpForward((code.len() - i) as usize)
            } else {
                code[i]
            },
    )
}

/// `code` where each recorded jump from `from` on goes to the end.
pub open spec fn ended(code: Seq<Instruction>, jumps: Seq<usize>, from: int) -> Seq<Instruction> {
    Seq::new(
        code.len(),
        |i: int|
            if from <= i && records(jumps, i) {
                Instruction::JumpForward((code.len() - i) as usize)
            } else {
                code[i]
            },
    )
}

pub proof fn lemma_stmts_block_none(ss: Seq<Syntax>, k: int, vars: Seq<(String, Variable)>, in_loop: bool)
    requires
        0 <= k <= ss.len(),
        stmts_block(ss.subrange(0, k), vars, in_loop) is None,
    ensures
        stmts_block(ss, vars, in_loop) is None,
    decreases ss.len() - k,
{
    if k < ss.len() {
        let t = ss.subrange(0, k + 1);
        assert(t.subrange(0, t.len() - 1) =~= ss.subrange(0, k));
        lemma_stmts_block_none(ss, k + 1, vars, in_loop);
    } else {
        assert(ss.subrange(0, k) =~= ss);
    }
}

pub proof fn lemma_arms_block_none(arms: Seq<Syntax>, k: int, vars: Seq<(String, Variable)>, in_loop: bool)
    requires
        0 <= k <= arms.len(),
        arms_block(arms.subrange(0, k), vars, in_loop) is None,
    ensures
        arms_block(arms, vars, in_loop) is None,
    decreases arms.len() - k,
{
    if k < arms.len() {
        let t = arms.subrange(0, k + 1);
        assert(t.subrange(0, t.len() - 1) =~= arms.subrange(0, k));
        lemma_arms_block_none(arms, k + 1, vars, in_loop);
    } else {
        assert(arms.subrange(0, k) =~= arms);
    }
}

pub proof fn lemma_cases_block_none(
    expr: Syntax,
    arms: Seq<Syntax>,
    k: int,
    vars: Seq<(String, Variable)>,
    in_loop: bool,
)
    requires
        0 <= k <= arms.len(),
        cases_block(expr, arms.subrange(0, k), vars, in_loop) is None,
    ensures
        cases_block(expr, arms, vars, in_loop) is None,
    decreases arms.len() - k,
{
    if k < arms.len() {
        let t = arms.subrange(0, k + 1);
        assert(t.subrange(0, t.len() - 1) =~= arms.subrange(0, k));
        lemma_cases_block_none(expr, arms, k + 1, vars, in_loop);
    } else {
        assert(arms.subrange(0, k) =~= arms);
    }
}

pub proof fn lemma_jumps_added_trans(z: Seq<usize>, x: Seq<usize>, y: Seq<usize>, a: Seq<int>, b: Seq<int>, base: int, d: int)
    requires
        jumps_added(x, y, a, base),
        jumps_added(z, x, b, base + d),
    ensures
        jumps_added(z, y, a + shifted(b, d), base),
{
    let ab = a + shifted(b, d);
    assert forall|j: int| 0 <= j < ab.len() implies #[trigger] z[y.len() + j] == ab[j] + base by {
        if j < a.len() {
            assert(z[y.len() + j] == x[y.len() + j]);
        } else {
            assert(z[x.len() + (j - a.len())] == b[j - a.len()] + base + d);
        }
    }
}

pub proof fn lemma_jumps_added_none(s: Seq<usize>, base: int)
    ensures
        jumps_added(s, s, Seq::empty(), base),
{
}

pub proof fn lemma_loops_after_join(z: Seq<IteratorTracker>, x: Seq<IteratorTracker>, y: Seq<IteratorTracker>, a: Block, b: Block, base: int)
    requires
        loops_after(x, y, a, base),
        loops_after(z, x, b, base + a.code.len()),
    ensures
        loops_after(z, y, join(a, b), base),
{
    if y.len() > 0 {
        lemma_jumps_added_trans(z.last().breaks@, x.last().breaks@, y.last().breaks@, a.breaks, b.breaks, base, a.code.len() as int);
        lemma_jumps_added_trans(z.last().continues@, x.last().continues@, y.last().continues@, a.continues, b.continues, base, a.code.len() as int);
    }
}

pub proof fn lemma_loops_after_same(its: Seq<IteratorTracker>, b: Block, base: int)
    requires
        b.breaks.len() == 0,
        b.continues.len() == 0,
    ensures
        loops_after(its, its, b, base),
{
}

pub proof fn lemma_jumps_inside_join(a: Block, b: Block)
    requires
        jumps_inside(a),
        jumps_inside(b),
    ensures
        jumps_inside(join(a, b)),
{
    let j = join(a, b);
    assert forall|i: int| 0 <= i < j.breaks.len() implies 0 <= #[trigger] j.breaks[i] < j.code.len() by {
        if i >= a.breaks.len() {
            assert(j.breaks[i] == b.breaks[i - a.breaks.len()] + a.code.len());
        }
    }
    assert forall|i: int| 0 <= i < j.continues.len() implies 0 <= #[trigger] j.continues[i] < j.code.len() by {
        if i >= a.continues.len() {
            assert(j.continues[i] == b.continues[i - a.continues.len()] + a.code.len());
        }
    }
}

/// The recorded jumps are the offsets `added` moved by `base`.
proof fn lemma_has_shifted(s: Seq<usize>, added: Seq<int>, base: int, i: int)
    requires
        jumps_added(s, Seq::empty(), added, base),
    ensures
        records(s, i) <==> added.contains(i - base),
{
    if records(s, i) {
        let j = choose|j: int| 0 <= j < s.len() && s[j] == i;
        assert(s[0 + j] == added[j] + base);
        assert(added[j] == i - base);
    }
    if added.contains(i - base) {
        let j = choose|j: int| 0 <= j < added.len() && added[j] == i - base;
        assert(s[0 + j] == added[j] + base);
    }
}

/// Closing a loop whose code from `start` on is `head`, the body `b` and
/// one more instruction.
pub proof fn lemma_closed_loop(
    prefix: Seq<Instruction>,
    head: Seq<Instruction>,
    b: Block,
    last: Instruction,
    breaks: Seq<usize>,
    continues: Seq<usize>,
)
    requires
        jumps_added(breaks, Seq::empty(), b.breaks, (prefix.len() + head.len()) as int),
        jumps_added(continues, Seq::empty(), b.continues, (prefix.len() + head.len()) as int),
        jumps_inside(b),
    ensures
        closed_loop(prefix + head + b.code + seq![last], breaks, continues, prefix.len() as int) == prefix + head
            + loop_body(b, b.code.len() + 1int, -(head.len() as int)) + seq![last],
{
    let code = prefix + head + b.code + seq![last];
    let start = prefix.len() as int;
    let body = start + head.len();
    let k = b.code.len() as int;
    let lhs = closed_loop(code, breaks, continues, start);
    let rhs = prefix + head + loop_body(b, k + 1, -(head.len() as int)) + seq![last];
    assert forall|i: int| 0 <= i < code.len() implies #[trigger] lhs[i] == rhs[i] by {
        lemma_has_shifted(breaks, b.breaks, body, i);
        lemma_has_shifted(continues, b.continues, body, i);
        if i < body || i >= body + k {
            assert(!b.breaks.contains(i - body)) by {
                if b.breaks.contains(i - body) {
                    let j = choose|j: int| 0 <= j < b.breaks.len() && b.breaks[j] == i - body;
                    assert(0 <= b.breaks[j] < k);
                }
            }
            assert(!b.continues.contains(i - body)) by {
                if b.continues.contains(i - body) {
                    let j = choose|j: int| 0 <= j < b.continues.len() && b.continues[j] == i - body;
                    assert(0 <= b.continues[j] < k);
                }
            }
        }
    }
    assert(lhs =~= rhs);
}

/// Sending the recorded jumps of code appended at `from` to its end.
pub proof fn lemma_ended(prefix: Seq<Instruction>, code: Seq<Instruction>, ends: Seq<int>, jumps: Seq<usize>)
    requires
        jumps_added(jumps, Seq::empty(), ends, prefix.len() as int),
        ends_inside(ends, code),
    ensures
        ended(prefix + code, jumps, prefix.len() as int) == prefix + jumps_to_end(code, ends),
{
    let from = prefix.len() as int;
    let lhs = ended(prefix + code, jumps, from);
    let rhs = prefix + jumps_to_end(code, ends);
    assert forall|i: int| 0 <= i < lhs.len() implies #[trigger] lhs[i] == rhs[i] by {
        lemma_has_shifted(jumps, ends, from, i);
        if i < from {
            assert(!ends.contains(i - from)) by {
                if ends.contains(i - from) {
                    let j = choose|j: int| 0 <= j < ends.len() && ends[j] == i - from;
                    assert(0 <= ends[j]);
                }
            }
        }
    }
    assert(lhs =~= rhs);
}

/// Jumps recorded at `base + d` are those of the offsets moved by `d`.
pub proof fn lemma_jumps_added_shift(new: Seq<usize>, old: Seq<usize>, a: Seq<int>, base: int, d: int)
    requires
        jumps_added(new, old, a, base + d),
    ensures
        jumps_added(new, old, shifted(a, d), base),
{
    let sa = shifted(a, d);
    assert forall|j: int| 0 <= j < sa.len() implies #[trigger] new[old.len() + j] == sa[j] + base by {
        assert(new[old.len() + j] == a[j] + base + d);
    }
}

/// What `loops_after` says of `b` placed `d` instructions into `c`.
pub proof fn lemma_loops_after_shift(new: Seq<IteratorTracker>, old: Seq<IteratorTracker>, b: Block, c: Block, base: int, d: int)
    requires
        loops_after(new, old, b, base + d),
        c.breaks == shifted(b.breaks, d),
        c.continues == shifted(b.continues, d),
    ensures
        loops_after(new, old, c, base),
{
    if old.len() > 0 {
        lemma_jumps_added_shift(new.last().breaks@, old.last().breaks@, b.breaks, base, d);
        lemma_jumps_added_shift(new.last().continues@, old.last().continues@, b.continues, base, d);
    }
}

/// A jump recorded at `x` after those of `ends`.
pub proof fn lemma_jumps_added_push(js: Seq<usize>, ends: Seq<int>, x: usize, from: int)
    requires
        jumps_added(js, Seq::empty(), ends, from),
    ensures
        jumps_added(js.push(x), Seq::empty(), ends.push(x - from), from),
{
    let n = js.push(x);
    let e = ends.push(x - from);
    assert forall|j: int| 0 <= j < e.len() implies #[trigger] n[0 + j] == e[j] + from by {
        if j < ends.len() {
            assert(n[j] == js[0 + j]);
        }
    }
}

/// The jumps of `b`, inside it, are inside `c` where it is placed `d`
/// instructions in.
pub proof fn lemma_jumps_inside_shift(b: Block, c: Block, d: int)
    requires
        jumps_inside(b),
        c.breaks == shifted(b.breaks, d),
        c.continues == shifted(b.continues, d),
        0 <= d,
        d + b.code.len() <= c.code.len(),
    ensures
        jumps_inside(c),
{
    assert forall|j: int| 0 <= j < c.breaks.len() implies 0 <= #[trigger] c.breaks[j] < c.code.len() by {
        assert(c.breaks[j] == b.breaks[j] + d);
    }
    assert forall|j: int| 0 <= j < c.continues.len() implies 0 <= #[trigger] c.continues[j] < c.code.len() by {
        assert(c.continues[j] == b.continues[j] + d);
    }
}

pub proof fn lemma_ends_inside_join(ea: Seq<int>, ca: Seq<Instruction>, eb: Seq<int>, cb: Seq<Instruction>)
    requires
        ends_inside(ea, ca),
        ends_inside(eb, cb),
    ensures
        ends_inside(ea + shifted(eb, ca.len() as int), ca + cb),
{
    let e = ea + shifted(eb, ca.len() as int);
    assert forall|j: int| 0 <= j < e.len() implies 0 <= #[trigger] e[j] < (ca + cb).len() by {
        if j >= ea.len() {
            assert(e[j] == eb[j - ea.len()] + ca.len());
        }
    }
}

/// The parameters of a function declared in turn, each with its default
/// value when it has one; `None` when one is no variable or its name is
/// taken.
pub open spec fn params_block(ps: Seq<Syntax>, vars: Seq<(String, Variable)>) -> Option<Block>
    decreases ps.len(),
{
    if ps.len() == 0 {
        Some(plain(Seq::empty(), vars))
    } else {
        match params_block(ps.subrange(0, ps.len() - 1), vars) {
            Some(a) => match ps[ps.len() - 1] {
                Syntax::Variable { name, value, .. } => match declared_block(*name, value, a.vars, false) {
                    Some(b) => Some(join(a, b)),
                    None => None,
                },
                _ => None,
            },
            None => None,
        }
    }
}

/// The code of a function after the instruction that pushes its stack
/// trace: its parameters, its body, a `return` when the code so far does
/// not end with one, and the instruction that pops the stack trace.
pub open spec fn function_code(parameters: Seq<Syntax>, body: Seq<Syntax>) -> Option<Seq<Instruction>> {
    match params_block(parameters, Seq::empty()) {
        Some(p) => match stmts_block(body, p.vars, false) {
            Some(b) => {
                let c = p.code + b.code;
                let ended = if c.len() > 0 && c.last() is Return {
                    c
                } else {
                    c.push(Instruction::Return { with_value: false })
                };
                Some(ended.push(Instruction::PopStackTrace))
            },
            None => None,
        },
        None => None,
    }
}

pub proof fn lemma_params_block_none(ps: Seq<Syntax>, k: int, vars: Seq<(String, Variable)>)
    requires
        0 <= k <= ps.len(),
        params_block(ps.subrange(0, k), vars) is None,
    ensures
        params_block(ps, vars) is None,
    decreases ps.len() - k,
{
    if k < ps.len() {
        let t = ps.subrange(0, k + 1);
        assert(t.subrange(0, t.len() - 1) =~= ps.subrange(0, k));
        lemma_params_block_none(ps, k + 1, vars);
    } else {
        assert(ps.subrange(0, k) =~= ps);
    }
}

} // verus!
