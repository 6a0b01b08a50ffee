use vstd::prelude::*;

use crate::lexer::{Cursor, MatchedToken};
use crate::parser::{integer_literal, position_of, unquoted, FILE_EXTENSION};
use crate::syntax::{Syntax, TokenPosition};
use crate::table::find_in;
use crate::token::Token;

verus! {

// ---------------------------------------------------------------------------
// Expression trees
// ---------------------------------------------------------------------------

/// The binary operators of expressions.
pub ghost enum BinKind {
    Or,
    And,
    Eq,
    Ne,
    Lt,
    Le,
    Gt,
    Ge,
    Add,
    Sub,
    Mul,
    Div,
    Pow,
}

/// The shape of an expression, with its texts as character sequences.
pub ghost enum Tree {
    Null,
    Integer(i64),
    Float(Seq<char>),
    Bool(bool),
    Text(Seq<char>),
    Name(TokenPosition, Seq<char>),
    List(Seq<Tree>),
    Dict(Seq<(Seq<char>, Tree)>),
    Not(Box<Tree>),
    Binary(BinKind, Box<Tree>, Box<Tree>),
    Call(TokenPosition, Box<Tree>, Seq<Tree>),
    Member(TokenPosition, Box<Tree>, Box<Tree>),
    Static(TokenPosition, Box<Tree>, Box<Tree>),
    Index(TokenPosition, Box<Tree>, Box<Tree>),
    New(TokenPosition, Box<Tree>, Seq<Tree>),
    Var(TokenPosition, Box<Tree>, Option<Box<Tree>>),
    Assign(TokenPosition, Box<Tree>, Box<Tree>),
    Return(TokenPosition, Option<Box<Tree>>),
    Continue(TokenPosition),
    Break(TokenPosition),
    IfChain(TokenPosition, Seq<Tree>),
    If(TokenPosition, Box<Tree>, Seq<Tree>),
    Else(TokenPosition, Seq<Tree>),
    Match(TokenPosition, Box<Tree>, Seq<Tree>, Option<Box<Tree>>),
    Case(TokenPosition, Box<Tree>, Seq<Tree>),
    Default(TokenPosition, Seq<Tree>),
    While(TokenPosition, Box<Tree>, Seq<Tree>),
    ForEach(TokenPosition, Box<Tree>, Box<Tree>, Seq<Tree>),
    Range(Box<Tree>, Box<Tree>, Option<Box<Tree>>),
    Function(TokenPosition, Box<Tree>, Seq<Tree>, Seq<Tree>),
    Constructor(TokenPosition, Seq<Tree>, Seq<Tree>),
    Attribute(TokenPosition, Box<Tree>, Option<Box<Tree>>),
    Constant(TokenPosition, Seq<char>, Box<Tree>),
    Enum(TokenPosition, Box<Tree>, Seq<Tree>),
    Class(TokenPosition, Box<Tree>, Seq<Tree>, Option<Box<Tree>>, Seq<Tree>),
    Import(TokenPosition, Seq<char>),
    Module(TokenPosition, Box<Tree>, Seq<Tree>),
}

/// `s` is an expression of shape `e`.
pub open spec fn is_tree(s: Syntax, e: Tree) -> bool
    decreases e,
{
    match e {
        Tree::Null => s is Null,
        Tree::Integer(v) => s == Syntax::Integer(v),
        Tree::Float(x) => s matches Syntax::Float(y) && y@ == x,
        Tree::Bool(b) => s == Syntax::Bool(b),
        Tree::Text(x) => s matches Syntax::String(y) && y@ == x,
        Tree::Name(p, x) => s matches Syntax::Identifier { position, name } && position == p && name@ == x,
        Tree::List(xs) => s matches Syntax::Array(items) && are_trees(items@, xs),
        Tree::Dict(xs) => s matches Syntax::Dictionary(items) && are_entries(items@, xs),
        Tree::Not(x) => s matches Syntax::Not { expr } && is_tree(*expr, *x),
        Tree::Binary(k, a, b) => match s {
            Syntax::Or { expr1, expr2 } => k == BinKind::Or && is_tree(*expr1, *a) && is_tree(*expr2, *b),
            Syntax::And { expr1, expr2 } => k == BinKind::And && is_tree(*expr1, *a) && is_tree(*expr2, *b),
            Syntax::Eq { expr1, expr2 } => k == BinKind::Eq && is_tree(*expr1, *a) && is_tree(*expr2, *b),
            Syntax::Ne { expr1, expr2 } => k == BinKind::Ne && is_tree(*expr1, *a) && is_tree(*expr2, *b),
            Syntax::Lt { expr1, expr2 } => k == BinKind::Lt && is_tree(*expr1, *a) && is_tree(*expr2, *b),
            Syntax::Le { expr1, expr2 } => k == BinKind::Le && is_tree(*expr1, *a) && is_tree(*expr2, *b),
            Syntax::Gt { expr1, expr2 } => k == BinKind::Gt && is_tree(*expr1, *a) && is_tree(*expr2, *b),
            Syntax::Ge { expr1, expr2 } => k == BinKind::Ge && is_tree(*expr1, *a) && is_tree(*expr2, *b),
            Syntax::Add { expr1, expr2 } => k == BinKind::Add && is_tree(*expr1, *a) && is_tree(*expr2, *b),
            Syntax::Sub { expr1, expr2 } => k == BinKind::Sub && is_tree(*expr1, *a) && is_tree(*expr2, *b),
            Syntax::Mul { expr1, expr2 } => k == BinKind::Mul && is_tree(*expr1, *a) && is_tree(*expr2, *b),
            Syntax::Div { expr1, expr2 } => k == BinKind::Div && is_tree(*expr1, *a) && is_tree(*expr2, *b),
            Syntax::Pow { expr1, expr2 } => k == BinKind::Pow && is_tree(*expr1, *a) && is_tree(*expr2, *b),
            _ => false,
        },
        Tree::Call(p, t, xs) => s matches Syntax::Call { position, target, args } && position == p && is_tree(
            *target,
            *t,
        ) && are_trees(args@, xs),
        Tree::Member(p, t, i) => s matches Syntax::MemberAccess { position, target, index } && position == p && is_tree(
            *target,
            *t,
        ) && is_tree(*index, *i),
        Tree::Static(p, t, i) => s matches Syntax::StaticAccess { position, target, index } && position == p && is_tree(
            *target,
            *t,
        ) && is_tree(*index, *i),
        Tree::Index(p, t, i) => s matches Syntax::ArrayAccess { position, target, index } && position == p && is_tree(
            *target,
            *t,
        ) && is_tree(*index, *i),
        Tree::New(p, t, xs) => s matches Syntax::NewObject { position, target, args } && position == p && is_tree(
            *target,
            *t,
        ) && are_trees(args@, xs),
        Tree::Var(p, n, v) => s matches Syntax::Variable { position, name, value } && position == p && is_tree(*name, *n)
            && match (value, v) {
            (None, None) => true,
            (Some(a), Some(b)) => is_tree(*a, *b),
            _ => false,
        },
        Tree::Assign(p, t, v) => s matches Syntax::Assign { position, target, value } && position == p && is_tree(
            *target,
            *t,
        ) && is_tree(*value, *v),
        Tree::Return(p, v) => s matches Syntax::Return { position, expr } && position == p && match (expr, v) {
            (None, None) => true,
            (Some(a), Some(b)) => is_tree(*a, *b),
            _ => false,
        },
        Tree::Continue(p) => s == Syntax::Continue { position: p },
        Tree::Break(p) => s == Syntax::Break { position: p },
        Tree::IfChain(p, xs) => s matches Syntax::IfChain { position, arms } && position == p && are_trees(arms@, xs),
        Tree::If(p, c, xs) => s matches Syntax::If { position, condition, body } && position == p && is_tree(
            *condition,
            *c,
        ) && are_trees(body@, xs),
        Tree::Else(p, xs) => s matches Syntax::Else { position, body } && position == p && are_trees(body@, xs),
        Tree::Match(p, e, xs, d) => s matches Syntax::Match { position, expr, arms, default } && position == p
            && is_tree(*expr, *e) && are_trees(arms@, xs) && match (default, d) {
            (None, None) => true,
            (Some(a), Some(b)) => is_tree(*a, *b),
            _ => false,
        },
        Tree::Case(p, c, xs) => s matches Syntax::Case { position, condition, body } && position == p && is_tree(
            *condition,
            *c,
        ) && are_trees(body@, xs),
        Tree::Default(p, xs) => s matches Syntax::DefaultCase { position, body } && position == p && are_trees(
            body@,
            xs,
        ),
        Tree::While(p, c, xs) => s matches Syntax::WhileLoop { position, condition, body } && position == p
            && is_tree(*condition, *c) && are_trees(body@, xs),
        Tree::ForEach(p, i, c, xs) => s matches Syntax::ForEach { position, ident, collection, body } && position == p
            && is_tree(*ident, *i) && is_tree(*collection, *c) && are_trees(body@, xs),
        Tree::Range(a, b, st) => s matches Syntax::Range { start, end, step } && is_tree(*start, *a) && is_tree(
            *end,
            *b,
        ) && match (step, st) {
            (None, None) => true,
            (Some(x), Some(y)) => is_tree(*x, *y),
            _ => false,
        },
        Tree::Function(p, n, ps, b) => s matches Syntax::Function { position, function_name, is_static, parameters, body }
            && position == p && !is_static && is_tree(*function_name, *n) && are_trees(parameters@, ps) && are_trees(
            body@,
            b,
        ),
        Tree::Constructor(p, ps, b) => s matches Syntax::Constructor { position, input, body } && position == p
            && are_trees(input@, ps) && are_trees(body@, b),
        Tree::Attribute(p, n, v) => s matches Syntax::Attribute { position, name, value } && position == p && is_tree(
            *name,
            *n,
        ) && match (value, v) {
            (None, None) => true,
            (Some(a), Some(b)) => is_tree(*a, *b),
            _ => false,
        },
        Tree::Constant(p, n, v) => s matches Syntax::Constant { position, name, value } && position == p && name@ == n
            && is_tree(*value, *v),
        Tree::Enum(p, n, xs) => s matches Syntax::Enum { position, name, items } && position == p && is_tree(*name, *n)
            && are_trees(items@, xs),
        Tree::Class(p, n, attrs, c, ms) => s matches Syntax::Class {
            position,
            class_name,
            attributes,
            constructor,
            methods,
        } && position == p && is_tree(*class_name, *n) && are_trees(attributes@, attrs) && are_trees(methods@, ms)
            && match (constructor, c) {
            (None, None) => true,
            (Some(a), Some(b)) => is_tree(*a, *b),
            _ => false,
        },
        Tree::Import(p, path) => s matches Syntax::Import { position, path: x } && position == p && x@ == path,
        Tree::Module(p, n, xs) => s matches Syntax::Module { position, module_name, body } && position == p && is_tree(
            *module_name,
            *n,
        ) && are_trees(body@, xs),
    }
}

/// The expressions `ss` have the shapes `es`, one by one.
pub open spec fn are_trees(ss: Seq<Syntax>, es: Seq<Tree>) -> bool
    decreases es,
{
    if es.len() == 0 {
        ss.len() == 0
    } else {
        &&& ss.len() == es.len()
        &&& are_trees(ss.drop_last(), es.drop_last())
        &&& is_tree(ss.last(), es.last())
    }
}

/// The entries `ss` have the names and shapes of `es`, one by one.
pub open spec fn are_entries(ss: Seq<(String, Syntax)>, es: Seq<(Seq<char>, Tree)>) -> bool
    decreases es,
{
    if es.len() == 0 {
        ss.len() == 0
    } else {
        &&& ss.len() == es.len()
        &&& are_entries(ss.drop_last(), es.drop_last())
        &&& ss.last().0@ == es.last().0
        &&& is_tree(ss.last().1, es.last().1)
    }
}

/// The first entry named `k`.
pub open spec fn entry_index(es: Seq<(Seq<char>, Tree)>, k: Seq<char>) -> Option<int>
    decreases es.len(),
{
    if es.len() == 0 {
        None
    } else {
        match entry_index(es.drop_last(), k) {
            Some(i) => Some(i),
            None => if es.last().0 == k {
                Some(es.len() - 1)
            } else {
                None
            },
        }
    }
}

/// A dictionary literal's entries after one more `k: v`: a name already
/// there gets the new value in its place, a new name comes last.
pub open spec fn dict_insert(es: Seq<(Seq<char>, Tree)>, k: Seq<char>, v: Tree) -> Seq<(Seq<char>, Tree)> {
    match entry_index(es, k) {
        Some(i) => es.update(i, (es[i].0, v)),
        None => es.push((k, v)),
    }
}

// ---------------------------------------------------------------------------
// The expression grammar over the tokens `t`, from token `p`: each rule gives
// the expression it reads and the position after it, or `None` where the
// parser reports an error.
// ---------------------------------------------------------------------------

/// An operator token of a binary level, and the operator it stands for.
pub open spec fn or_op(k: Token) -> Option<BinKind> {
    if k == Token::Or {
        Some(BinKind::Or)
    } else {
        None
    }
}

pub open spec fn and_op(k: Token) -> Option<BinKind> {
    if k == Token::And {
        Some(BinKind::And)
    } else {
        None
    }
}

pub open spec fn compare_op(k: Token) -> Option<BinKind> {
    match k {
        Token::DoubleEquals => Some(BinKind::Eq),
        Token::NotEquals => Some(BinKind::Ne),
        Token::Lt => Some(BinKind::Lt),
        Token::Le => Some(BinKind::Le),
        Token::Gt => Some(BinKind::Gt),
        Token::Ge => Some(BinKind::Ge),
        _ => None,
    }
}

pub open spec fn math_op(k: Token) -> Option<BinKind> {
    match k {
        Token::Plus => Some(BinKind::Add),
        Token::Minus => Some(BinKind::Sub),
        _ => None,
    }
}

pub open spec fn term_op(k: Token) -> Option<BinKind> {
    match k {
        Token::Mul => Some(BinKind::Mul),
        Token::Div => Some(BinKind::Div),
        _ => None,
    }
}

pub open spec fn pow_op(k: Token) -> Option<BinKind> {
    if k == Token::Pow {
        Some(BinKind::Pow)
    } else {
        None
    }
}

/// Where a token starts, as a syntax position.
pub open spec fn at(t: Seq<MatchedToken<Token>>, p: nat) -> TokenPosition {
    position_of(t[p as int].cursor)
}

/// An expression: `or` is the loosest operator.
pub open spec fn g_expression(t: Seq<MatchedToken<Token>>, p: nat) -> Option<(Tree, nat)>
    decreases t.len() - p, 60nat,
{
    g_or(t, p)
}

pub open spec fn g_or(t: Seq<MatchedToken<Token>>, p: nat) -> Option<(Tree, nat)>
    decreases t.len() - p, 59nat,
{
    match g_and(t, p) {
        Some((e, q)) => if p <= q <= t.len() {
            g_or_tail(t, q, e)
        } else {
            None
        },
        None => None,
    }
}

pub open spec fn g_or_tail(t: Seq<MatchedToken<Token>>, p: nat, acc: Tree) -> Option<(Tree, nat)>
    decreases t.len() - p, 58nat,
{
    if p >= t.len() {
        Some((acc, p))
    } else {
        match or_op(t[p as int].token) {
            Some(k) => match g_and(t, p + 1) {
                Some((e, q)) => if p < q <= t.len() {
                    g_or_tail(t, q, Tree::Binary(k, Box::new(acc), Box::new(e)))
                } else {
                    None
                },
                None => None,
            },
            None => Some((acc, p)),
        }
    }
}

pub open spec fn g_and(t: Seq<MatchedToken<Token>>, p: nat) -> Option<(Tree, nat)>
    decreases t.len() - p, 57nat,
{
    match g_compare(t, p) {
        Some((e, q)) => if p <= q <= t.len() {
            g_and_tail(t, q, e)
        } else {
            None
        },
        None => None,
    }
}

pub open spec fn g_and_tail(t: Seq<MatchedToken<Token>>, p: nat, acc: Tree) -> Option<(Tree, nat)>
    decreases t.len() - p, 56nat,
{
    if p >= t.len() {
        Some((acc, p))
    } else {
        match and_op(t[p as int].token) {
            Some(k) => match g_compare(t, p + 1) {
                Some((e, q)) => if p < q <= t.len() {
                    g_and_tail(t, q, Tree::Binary(k, Box::new(acc), Box::new(e)))
                } else {
                    None
                },
                None => None,
            },
            None => Some((acc, p)),
        }
    }
}

pub open spec fn g_compare(t: Seq<MatchedToken<Token>>, p: nat) -> Option<(Tree, nat)>
    decreases t.len() - p, 55nat,
{
    match g_math(t, p) {
        Some((e, q)) => if p <= q <= t.len() {
            g_compare_tail(t, q, e)
        } else {
            None
        },
        None => None,
    }
}

pub open spec fn g_compare_tail(t: Seq<MatchedToken<Token>>, p: nat, acc: Tree) -> Option<(Tree, nat)>
    decreases t.len() - p, 54nat,
{
    if p >= t.len() {
        Some((acc, p))
    } else {
        match compare_op(t[p as int].token) {
            Some(k) => match g_math(t, p + 1) {
                Some((e, q)) => if p < q <= t.len() {
                    g_compare_tail(t, q, Tree::Binary(k, Box::new(acc), Box::new(e)))
                } else {
                    None
                },
                None => None,
            },
            None => Some((acc, p)),
        }
    }
}

pub open spec fn g_math(t: Seq<MatchedToken<Token>>, p: nat) -> Option<(Tree, nat)>
    decreases t.len() - p, 53nat,
{
    match g_term(t, p) {
        Some((e, q)) => if p <= q <= t.len() {
            g_math_tail(t, q, e)
        } else {
            None
        },
        None => None,
    }
}

pub open spec fn g_math_tail(t: Seq<MatchedToken<Token>>, p: nat, acc: Tree) -> Option<(Tree, nat)>
    decreases t.len() - p, 52nat,
{
    if p >= t.len() {
        Some((acc, p))
    } else {
        match math_op(t[p as int].token) {
            Some(k) => match g_term(t, p + 1) {
                Some((e, q)) => if p < q <= t.len() {
                    g_math_tail(t, q, Tree::Binary(k, Box::new(acc), Box::new(e)))
                } else {
                    None
                },
                None => None,
            },
            None => Some((acc, p)),
        }
    }
}

pub open spec fn g_term(t: Seq<MatchedToken<Token>>, p: nat) -> Option<(Tree, nat)>
    decreases t.len() - p, 51nat,
{
    match g_pow(t, p) {
        Some((e, q)) => if p <= q <= t.len() {
            g_term_tail(t, q, e)
        } else {
            None
        },
        None => None,
    }
}

pub open spec fn g_term_tail(t: Seq<MatchedToken<Token>>, p: nat, acc: Tree) -> Option<(Tree, nat)>
    decreases t.len() - p, 50nat,
{
    if p >= t.len() {
        Some((acc, p))
    } else {
        match term_op(t[p as int].token) {
            Some(k) => match g_pow(t, p + 1) {
                Some((e, q)) => if p < q <= t.len() {
                    g_term_tail(t, q, Tree::Binary(k, Box::new(acc), Box::new(e)))
                } else {
                    None
                },
                None => None,
            },
            None => Some((acc, p)),
        }
    }
}

pub open spec fn g_pow(t: Seq<MatchedToken<Token>>, p: nat) -> Option<(Tree, nat)>
    decreases t.len() - p, 49nat,
{
    match g_not(t, p) {
        Some((e, q)) => if p <= q <= t.len() {
            g_pow_tail(t, q, e)
        } else {
            None
        },
        None => None,
    }
}

pub open spec fn g_pow_tail(t: Seq<MatchedToken<Token>>, p: nat, acc: Tree) -> Option<(Tree, nat)>
    decreases t.len() - p, 48nat,
{
    if p >= t.len() {
        Some((acc, p))
    } else {
        match pow_op(t[p as int].token) {
            Some(k) => match g_not(t, p + 1) {
                Some((e, q)) => if p < q <= t.len() {
                    g_pow_tail(t, q, Tree::Binary(k, Box::new(acc), Box::new(e)))
                } else {
                    None
                },
                None => None,
            },
            None => Some((acc, p)),
        }
    }
}

/// `not` applies to the whole expression after it.
pub open spec fn g_not(t: Seq<MatchedToken<Token>>, p: nat) -> Option<(Tree, nat)>
    decreases t.len() - p, 47nat,
{
    if p >= t.len() {
        None
    } else if t[p as int].token == Token::Not {
        match g_expression(t, p + 1) {
            Some((e, q)) => Some((Tree::Not(Box::new(e)), q)),
            None => None,
        }
    } else {
        g_access(t, p)
    }
}

/// A primary expression followed by calls, indexing, `.` and `::`.
pub open spec fn g_access(t: Seq<MatchedToken<Token>>, p: nat) -> Option<(Tree, nat)>
    decreases t.len() - p, 46nat,
{
    if p >= t.len() {
        None
    } else {
        match g_primary(t, p) {
            Some((e, q)) => if p <= q <= t.len() {
                g_access_tail(t, q, e, at(t, p))
            } else {
                None
            },
            None => None,
        }
    }
}

/// The rest of an access chain after `acc`; a call takes the position of the
/// last `[`, `.` or `::` target, `pos`.
pub open spec fn g_access_tail(t: Seq<MatchedToken<Token>>, p: nat, acc: Tree, pos: TokenPosition) -> Option<(Tree, nat)>
    decreases t.len() - p, 45nat,
{
    if p >= t.len() {
        Some((acc, p))
    } else {
        match t[p as int].token {
            Token::LeftParenthesis => match g_arguments(t, p + 1, Seq::empty()) {
                Some((args, q)) => if p < q <= t.len() {
                    g_access_tail(t, q, Tree::Call(pos, Box::new(acc), args), pos)
                } else {
                    None
                },
                None => None,
            },
            Token::LeftSquareBracket => if p + 1 >= t.len() {
                None
            } else {
                match g_array_index(t, p + 1, None) {
                    Some((i, q)) => if p < q <= t.len() {
                        g_access_tail(t, q, Tree::Index(at(t, p + 1), Box::new(acc), Box::new(i)), at(t, p + 1))
                    } else {
                        None
                    },
                    None => None,
                }
            },
            Token::Dot => if p + 1 >= t.len() {
                None
            } else {
                match g_primary(t, p + 1) {
                    Some((i, q)) => if i is Name && p < q <= t.len() {
                        g_access_tail(t, q, Tree::Member(at(t, p + 1), Box::new(acc), Box::new(i)), at(t, p + 1))
                    } else {
                        None
                    },
                    None => None,
                }
            },
            Token::DoubleColon => if p + 1 >= t.len() {
                None
            } else {
                match g_primary(t, p + 1) {
                    Some((i, q)) => if i is Name && p < q <= t.len() {
                        g_access_tail(t, q, Tree::Static(at(t, p + 1), Box::new(acc), Box::new(i)), at(t, p + 1))
                    } else {
                        None
                    },
                    None => None,
                }
            },
            _ => Some((acc, p)),
        }
    }
}

/// A literal, a name, a collection, `new`, or an expression in parentheses
/// (whatever token follows it closes it).
pub open spec fn g_primary(t: Seq<MatchedToken<Token>>, p: nat) -> Option<(Tree, nat)>
    decreases t.len() - p, 44nat,
{
    if p >= t.len() {
        None
    } else {
        let m = t[p as int];
        match m.token {
            Token::Integer => match integer_literal(m.text@) {
                Some(v) => if i64::MIN <= v <= i64::MAX {
                    Some((Tree::Integer(v as i64), p + 1))
                } else {
                    None
                },
                None => None,
            },
            Token::Float => Some((Tree::Float(m.text@), p + 1)),
            Token::Boolean => if m.text@ == "true"@ {
                Some((Tree::Bool(true), p + 1))
            } else if m.text@ == "false"@ {
                Some((Tree::Bool(false), p + 1))
            } else {
                None
            },
            Token::Null => Some((Tree::Null, p + 1)),
            Token::New => g_new_object(t, p + 1, at(t, p)),
            Token::String => Some((Tree::Text(unquoted(m.text@)), p + 1)),
            Token::Identifier => Some((Tree::Name(at(t, p), m.text@), p + 1)),
            Token::LeftSquareBracket => g_array(t, p + 1, Seq::empty()),
            Token::LeftCurlyBracket => g_map(t, p + 1, Seq::empty()),
            Token::LeftParenthesis => match g_expression(t, p + 1) {
                Some((e, q)) => if q < t.len() {
                    Some((e, q + 1))
                } else {
                    None
                },
                None => None,
            },
            _ => None,
        }
    }
}

/// The items of an array literal after `acc`, up to its `]` or the end.
pub open spec fn g_array(t: Seq<MatchedToken<Token>>, p: nat, acc: Seq<Tree>) -> Option<(Tree, nat)>
    decreases t.len() - p, 70nat,
{
    if p >= t.len() {
        Some((Tree::List(acc), p))
    } else {
        match t[p as int].token {
            Token::RightSquareBracket => Some((Tree::List(acc), p + 1)),
            Token::Comma => g_array(t, p + 1, acc),
            _ => match g_expression(t, p) {
                Some((e, q)) => if p < q <= t.len() {
                    g_array(t, q, acc.push(e))
                } else {
                    None
                },
                None => None,
            },
        }
    }
}

/// The entries of a dictionary literal after `acc`, up to its `}` or the end.
pub open spec fn g_map(t: Seq<MatchedToken<Token>>, p: nat, acc: Seq<(Seq<char>, Tree)>) -> Option<(Tree, nat)>
    decreases t.len() - p, 70nat,
{
    if p >= t.len() {
        Some((Tree::Dict(acc), p))
    } else {
        match t[p as int].token {
            Token::RightCurlyBracket => Some((Tree::Dict(acc), p + 1)),
            Token::Comma => g_map(t, p + 1, acc),
            Token::Identifier => if p + 1 < t.len() && t[p + 1int].token == Token::Colon {
                match g_expression(t, p + 2) {
                    Some((v, q)) => if p < q <= t.len() {
                        g_map(t, q, dict_insert(acc, t[p as int].text@, v))
                    } else {
                        None
                    },
                    None => None,
                }
            } else {
                None
            },
            _ => None,
        }
    }
}

/// The arguments of a call after `acc`, up to its `)` or the end; a `(` or a
/// `,` between them is passed over.
pub open spec fn g_arguments(t: Seq<MatchedToken<Token>>, p: nat, acc: Seq<Tree>) -> Option<(Seq<Tree>, nat)>
    decreases t.len() - p, 70nat,
{
    if p >= t.len() {
        Some((acc, p))
    } else {
        match t[p as int].token {
            Token::LeftParenthesis => g_arguments(t, p + 1, acc),
            Token::Comma => g_arguments(t, p + 1, acc),
            Token::RightParenthesis => Some((acc, p + 1)),
            _ => match g_expression(t, p) {
                Some((e, q)) => if p < q <= t.len() {
                    g_arguments(t, q, acc.push(e))
                } else {
                    None
                },
                None => None,
            },
        }
    }
}

/// The index inside `[ ]`: the last expression read before the `]`.
pub open spec fn g_array_index(t: Seq<MatchedToken<Token>>, p: nat, cur: Option<Tree>) -> Option<(Tree, nat)>
    decreases t.len() - p, 70nat,
{
    if p >= t.len() {
        match cur {
            Some(e) => Some((e, p)),
            None => None,
        }
    } else {
        match t[p as int].token {
            Token::LeftSquareBracket => g_array_index(t, p + 1, cur),
            Token::RightSquareBracket => match cur {
                Some(e) => Some((e, p + 1)),
                None => None,
            },
            _ => match g_expression(t, p) {
                Some((e, q)) => if p < q <= t.len() {
                    g_array_index(t, q, Some(e))
                } else {
                    None
                },
                None => None,
            },
        }
    }
}

/// `new` at `pos`: the class, reached through `::` and `.`, then the
/// arguments.
pub open spec fn g_new_object(t: Seq<MatchedToken<Token>>, p: nat, pos: TokenPosition) -> Option<(Tree, nat)>
    decreases t.len() - p, 72nat,
{
    match g_primary(t, p) {
        Some((e, q)) => if p <= q <= t.len() {
            g_new_tail(t, q, e, pos)
        } else {
            None
        },
        None => None,
    }
}

pub open spec fn g_new_tail(t: Seq<MatchedToken<Token>>, p: nat, acc: Tree, pos: TokenPosition) -> Option<(Tree, nat)>
    decreases t.len() - p, 71nat,
{
    if p >= t.len() {
        None
    } else {
        match t[p as int].token {
            Token::DoubleColon => if p + 1 >= t.len() {
                None
            } else {
                match g_primary(t, p + 1) {
                    Some((i, q)) => if i is Name && p < q <= t.len() {
                        g_new_tail(t, q, Tree::Static(at(t, p + 1), Box::new(acc), Box::new(i)), pos)
                    } else {
                        None
                    },
                    None => None,
                }
            },
            Token::Dot => if p + 1 >= t.len() {
                None
            } else {
                match g_primary(t, p + 1) {
                    Some((i, q)) => if i is Name && p < q <= t.len() {
                        g_new_tail(t, q, Tree::Member(at(t, p + 1), Box::new(acc), Box::new(i)), pos)
                    } else {
                        None
                    },
                    None => None,
                }
            },
            Token::LeftParenthesis => match g_arguments(t, p + 1, Seq::empty()) {
                Some((args, q)) => Some((Tree::New(pos, Box::new(acc), args), q)),
                None => None,
            },
            _ => None,
        }
    }
}

/// The tree of a successful rule.
pub open spec fn result_tree(o: Option<(Tree, nat)>) -> Tree {
    match o {
        Some((e, _)) => e,
        None => Tree::Null,
    }
}

/// The trees of a successful list rule.
pub open spec fn result_trees(o: Option<(Seq<Tree>, nat)>) -> Seq<Tree> {
    match o {
        Some((es, _)) => es,
        None => Seq::empty(),
    }
}

/// What a parse gave agrees with the grammar: the same tree and position,
/// or an error where the grammar has none.
pub open spec fn parsed(r: Result<Syntax, crate::syntax::ParserError>, pos: nat, g: Option<(Tree, nat)>) -> bool {
    match g {
        Some((e, q)) => r matches Ok(s) && is_tree(s, e) && pos == q,
        None => r is Err,
    }
}



// ---------------------------------------------------------------------------
// The statement grammar. `ends` holds the cursor after each token: an
// assignment is placed where the token before it ends.
// ---------------------------------------------------------------------------

/// The cursor after the first `p` tokens.
pub open spec fn cursor_at(ends: Seq<Cursor>, p: nat) -> Cursor {
    if p == 0 || p > ends.len() {
        Cursor { position: 0, line: 1, column: 1 }
    } else {
        ends[p - 1]
    }
}

/// The tokens that can start an expression.
pub open spec fn starts_expression(k: Token) -> bool {
    k == Token::Integer || k == Token::Float || k == Token::String || k == Token::Boolean || k == Token::Identifier
        || k == Token::Null || k == Token::LeftParenthesis || k == Token::Not || k == Token::New
}

/// Whether token `p` exists and is `k`.
pub open spec fn token_is(t: Seq<MatchedToken<Token>>, p: nat, k: Token) -> bool {
    p < t.len() && t[p as int].token == k
}

/// One statement of a function body.
pub open spec fn g_statement(t: Seq<MatchedToken<Token>>, ends: Seq<Cursor>, p: nat) -> Option<(Tree, nat)>
    decreases t.len() - p, 90nat,
{
    if p >= t.len() {
        None
    } else {
        match t[p as int].token {
            Token::Var => g_variable(t, p),
            Token::If => g_if(t, ends, p),
            Token::Match => g_match(t, ends, p),
            Token::For => g_for(t, ends, p),
            Token::While => g_while(t, ends, p),
            Token::Identifier => g_assignment(t, ends, p),
            Token::Continue => Some((Tree::Continue(at(t, p)), p + 1)),
            Token::Break => Some((Tree::Break(at(t, p)), p + 1)),
            Token::Return => g_return(t, p),
            _ => None,
        }
    }
}

/// `var name [as type] [= value]`.
pub open spec fn g_variable(t: Seq<MatchedToken<Token>>, p: nat) -> Option<(Tree, nat)>
    decreases t.len() - p, 85nat,
{
    if !token_is(t, p, Token::Var) || !token_is(t, p + 1, Token::Identifier) {
        None
    } else {
        let name = Tree::Name(at(t, p + 1), t[p + 1int].text@);
        let typed = token_is(t, p + 2, Token::As);
        if typed && !token_is(t, p + 3, Token::Identifier) {
            None
        } else {
            let q: nat = if typed {
                p + 4
            } else {
                p + 2
            };
            if token_is(t, q, Token::SingleEquals) {
                match g_expression(t, q + 1) {
                    Some((v, q2)) => Some((Tree::Var(at(t, p), Box::new(name), Some(Box::new(v))), q2)),
                    None => None,
                }
            } else {
                Some((Tree::Var(at(t, p), Box::new(name), None), q))
            }
        }
    }
}

/// An assignment `target = value`, or an expression on its own; a call is
/// never assigned to.
pub open spec fn g_assignment(t: Seq<MatchedToken<Token>>, ends: Seq<Cursor>, p: nat) -> Option<(Tree, nat)>
    decreases t.len() - p, 85nat,
{
    match g_expression(t, p) {
        Some((e, q)) => if e is Call {
            Some((e, q))
        } else if q >= t.len() {
            None
        } else if t[q as int].token == Token::SingleEquals {
            match g_expression(t, q + 1) {
                Some((v, q2)) => Some((Tree::Assign(position_of(cursor_at(ends, p)), Box::new(e), Box::new(v)), q2)),
                None => None,
            }
        } else {
            Some((e, q))
        },
        None => None,
    }
}

/// `return [expression]`.
pub open spec fn g_return(t: Seq<MatchedToken<Token>>, p: nat) -> Option<(Tree, nat)>
    decreases t.len() - p, 85nat,
{
    if !token_is(t, p, Token::Return) {
        None
    } else if p + 1 < t.len() && starts_expression(t[p + 1int].token) {
        match g_expression(t, p + 1) {
            Some((e, q)) => Some((Tree::Return(at(t, p), Some(Box::new(e))), q)),
            None => None,
        }
    } else {
        Some((Tree::Return(at(t, p), None), p + 1))
    }
}

/// Statements up to and including `end`, or to the end of the tokens.
pub open spec fn g_block(t: Seq<MatchedToken<Token>>, ends: Seq<Cursor>, p: nat, acc: Seq<Tree>) -> Option<(Seq<Tree>, nat)>
    decreases t.len() - p, 95nat,
{
    if p >= t.len() {
        Some((acc, p))
    } else if t[p as int].token == Token::End {
        Some((acc, p + 1))
    } else {
        match g_statement(t, ends, p) {
            Some((s, q)) => if p < q <= t.len() {
                g_block(t, ends, q, acc.push(s))
            } else {
                None
            },
            None => None,
        }
    }
}

/// Statements up to `end`, which is consumed, or up to `else`, which is not.
pub open spec fn g_if_body(t: Seq<MatchedToken<Token>>, ends: Seq<Cursor>, p: nat, acc: Seq<Tree>) -> Option<(Seq<Tree>, nat)>
    decreases t.len() - p, 95nat,
{
    if p >= t.len() {
        Some((acc, p))
    } else if t[p as int].token == Token::End {
        Some((acc, p + 1))
    } else if t[p as int].token == Token::Else {
        Some((acc, p))
    } else {
        match g_statement(t, ends, p) {
            Some((s, q)) => if p < q <= t.len() {
                g_if_body(t, ends, q, acc.push(s))
            } else {
                None
            },
            None => None,
        }
    }
}

/// `if condition then body`.
pub open spec fn g_if_block(t: Seq<MatchedToken<Token>>, ends: Seq<Cursor>, p: nat) -> Option<(Tree, nat)>
    decreases t.len() - p, 86nat,
{
    if !token_is(t, p, Token::If) {
        None
    } else {
        match g_expression(t, p + 1) {
            Some((c, q)) => if p < q && token_is(t, q, Token::Then) {
                match g_if_body(t, ends, q + 1, Seq::empty()) {
                    Some((b, q2)) => Some((Tree::If(at(t, p), Box::new(c), b), q2)),
                    None => None,
                }
            } else {
                None
            },
            None => None,
        }
    }
}

/// An `if`, its `else if`s and its `else`.
pub open spec fn g_if(t: Seq<MatchedToken<Token>>, ends: Seq<Cursor>, p: nat) -> Option<(Tree, nat)>
    decreases t.len() - p, 88nat,
{
    if p >= t.len() {
        None
    } else {
        match g_if_block(t, ends, p) {
            Some((first, q)) => if p < q <= t.len() {
                g_if_tail(t, ends, q, seq![first], at(t, p))
            } else {
                None
            },
            None => None,
        }
    }
}

/// The `else if`s and `else`s after the arms `arms` of an `if` at `pos`.
pub open spec fn g_if_tail(t: Seq<MatchedToken<Token>>, ends: Seq<Cursor>, p: nat, arms: Seq<Tree>, pos: TokenPosition) -> Option<
    (Tree, nat),
>
    decreases t.len() - p, 87nat,
{
    if !token_is(t, p, Token::Else) {
        Some((Tree::IfChain(pos, arms), p))
    } else if token_is(t, p + 1, Token::If) {
        match g_if_block(t, ends, p + 1) {
            Some((a, q)) => if p < q <= t.len() {
                g_if_tail(t, ends, q, arms.push(a), pos)
            } else {
                None
            },
            None => None,
        }
    } else {
        match g_if_body(t, ends, p + 1, Seq::empty()) {
            Some((b, q)) => if p < q <= t.len() {
                g_if_tail(t, ends, q, arms.push(Tree::Else(at(t, p), b)), pos)
            } else {
                None
            },
            None => None,
        }
    }
}

/// `match expression`, its `case`s, an optional `default`, and `end`.
pub open spec fn g_match(t: Seq<MatchedToken<Token>>, ends: Seq<Cursor>, p: nat) -> Option<(Tree, nat)>
    decreases t.len() - p, 88nat,
{
    if !token_is(t, p, Token::Match) {
        None
    } else {
        match g_expression(t, p + 1) {
            Some((e, q)) => if p < q <= t.len() {
                g_match_arms(t, ends, q, e, Seq::empty(), None, at(t, p))
            } else {
                None
            },
            None => None,
        }
    }
}

/// Where the arms of a `match` that start at `p` meet, at the start of a
/// block, a token that is neither `case`, `default` nor `end`; `None` when
/// they end, or are rejected, before any such token.
pub open spec fn match_stray(t: Seq<MatchedToken<Token>>, ends: Seq<Cursor>, p: nat) -> Option<nat>
    decreases t.len() - p,
{
    if p >= t.len() {
        None
    } else {
        match t[p as int].token {
            Token::Case => match g_expression(t, p + 1) {
                Some((c, q)) => if p < q && token_is(t, q, Token::Then) {
                    match g_if_body(t, ends, q + 1, Seq::empty()) {
                        Some((b, q2)) => if p < q2 <= t.len() {
                            match_stray(t, ends, q2)
                        } else {
                            None
                        },
                        None => None,
                    }
                } else {
                    None
                },
                None => None,
            },
            Token::Default => if token_is(t, p + 1, Token::Then) {
                match g_if_body(t, ends, p + 2, Seq::empty()) {
                    Some((b, q2)) => if p < q2 <= t.len() {
                        match_stray(t, ends, q2)
                    } else {
                        None
                    },
                    None => None,
                }
            } else {
                None
            },
            Token::End => None,
            _ => Some(p),
        }
    }
}

/// Where the arms of a `match` that starts at `p` begin: after `match` and
/// the matched expression.
pub open spec fn match_arms_start(t: Seq<MatchedToken<Token>>, p: nat) -> Option<nat> {
    if !token_is(t, p, Token::Match) {
        None
    } else {
        match g_expression(t, p + 1) {
            Some((e, q)) => if p < q <= t.len() {
                Some(q)
            } else {
                None
            },
            None => None,
        }
    }
}

/// The arms of a `match` on `e` at `pos` after `arms` and `default`; a later
/// `default` replaces an earlier one.
pub open spec fn g_match_arms(
    t: Seq<MatchedToken<Token>>,
    ends: Seq<Cursor>,
    p: nat,
    e: Tree,
    arms: Seq<Tree>,
    default: Option<Box<Tree>>,
    pos: TokenPosition,
) -> Option<(Tree, nat)>
    decreases t.len() - p, 87nat,
{
    if p >= t.len() {
        Some((Tree::Match(pos, Box::new(e), arms, default), p))
    } else {
        match t[p as int].token {
            Token::Case => match g_expression(t, p + 1) {
                Some((c, q)) => if p < q && token_is(t, q, Token::Then) {
                    match g_if_body(t, ends, q + 1, Seq::empty()) {
                        Some((b, q2)) => if p < q2 <= t.len() {
                            g_match_arms(t, ends, q2, e, arms.push(Tree::Case(at(t, p), Box::new(c), b)), default, pos)
                        } else {
                            None
                        },
                        None => None,
                    }
                } else {
                    None
                },
                None => None,
            },
            Token::Default => if token_is(t, p + 1, Token::Then) {
                match g_if_body(t, ends, p + 2, Seq::empty()) {
                    Some((b, q2)) => if p < q2 <= t.len() {
                        g_match_arms(t, ends, q2, e, arms, Some(Box::new(Tree::Default(at(t, p), b))), pos)
                    } else {
                        None
                    },
                    None => None,
                }
            } else {
                None
            },
            Token::End => Some((Tree::Match(pos, Box::new(e), arms, default), p + 1)),
            _ => None,
        }
    }
}

/// `while condition do body end`.
pub open spec fn g_while(t: Seq<MatchedToken<Token>>, ends: Seq<Cursor>, p: nat) -> Option<(Tree, nat)>
    decreases t.len() - p, 88nat,
{
    if !token_is(t, p, Token::While) {
        None
    } else {
        match g_expression(t, p + 1) {
            Some((c, q)) => if p < q && token_is(t, q, Token::Do) {
                match g_block(t, ends, q + 1, Seq::empty()) {
                    Some((b, q2)) => Some((Tree::While(at(t, p), Box::new(c), b), q2)),
                    None => None,
                }
            } else {
                None
            },
            None => None,
        }
    }
}

/// The collection of a `for`: `in collection`, or `= start to end [step s]`.
pub open spec fn g_for_collection(t: Seq<MatchedToken<Token>>, p: nat) -> Option<(Tree, nat)>
    decreases t.len() - p, 85nat,
{
    if token_is(t, p, Token::In) {
        g_expression(t, p + 1)
    } else if token_is(t, p, Token::SingleEquals) {
        g_range(t, p + 1)
    } else {
        None
    }
}

/// `start to end [step s]`.
pub open spec fn g_range(t: Seq<MatchedToken<Token>>, p: nat) -> Option<(Tree, nat)>
    decreases t.len() - p, 84nat,
{
    match g_expression(t, p) {
        Some((a, q1)) => if p <= q1 && token_is(t, q1, Token::To) {
            match g_expression(t, q1 + 1) {
                Some((b, q2)) => if token_is(t, q2, Token::Step) {
                    match g_expression(t, q2 + 1) {
                        Some((st, q3)) => Some((Tree::Range(Box::new(a), Box::new(b), Some(Box::new(st))), q3)),
                        None => None,
                    }
                } else {
                    Some((Tree::Range(Box::new(a), Box::new(b), None), q2))
                },
                None => None,
            }
        } else {
            None
        },
        None => None,
    }
}

/// `for x in collection do body end` or `for x = start to end [step s] do body end`.
pub open spec fn g_for(t: Seq<MatchedToken<Token>>, ends: Seq<Cursor>, p: nat) -> Option<(Tree, nat)>
    decreases t.len() - p, 88nat,
{
    if !token_is(t, p, Token::For) || !token_is(t, p + 1, Token::Identifier) || p + 2 >= t.len() {
        None
    } else {
        match g_for_collection(t, p + 2) {
            Some((c, q)) => if p < q && token_is(t, q, Token::Do) {
                match g_block(t, ends, q + 1, Seq::empty()) {
                    Some((b, q2)) => Some(
                        (Tree::ForEach(at(t, p), Box::new(Tree::Name(at(t, p + 1), t[p + 1int].text@)), Box::new(c), b), q2),
                    ),
                    None => None,
                }
            } else {
                None
            },
            None => None,
        }
    }
}

/// What a list rule gave agrees with the grammar.
pub open spec fn parsed_list(r: Result<Vec<Syntax>, crate::syntax::ParserError>, pos: nat, g: Option<(Seq<Tree>, nat)>) -> bool {
    match g {
        Some((es, q)) => r matches Ok(v) && are_trees(v@, es) && pos == q,
        None => r is Err,
    }
}

/// The trees of a successful list rule.
pub open spec fn result_list(o: Option<(Seq<Tree>, nat)>) -> Seq<Tree> {
    match o {
        Some((es, _)) => es,
        None => Seq::empty(),
    }
}


// ---------------------------------------------------------------------------
// The top level: functions, classes, enums, constants, imports and modules.
// ---------------------------------------------------------------------------

/// A name from token `p`, whatever kind of token it is.
pub open spec fn name_at(t: Seq<MatchedToken<Token>>, p: nat) -> Tree {
    Tree::Name(at(t, p), t[p as int].text@)
}

/// The parameters of a function, from `(` to `)` or the end of the tokens.
pub open spec fn g_parameters(t: Seq<MatchedToken<Token>>, p: nat, acc: Seq<Tree>) -> Option<(Seq<Tree>, nat)>
    decreases t.len() - p, 100nat,
{
    if p >= t.len() {
        Some((acc, p))
    } else {
        match t[p as int].token {
            Token::Identifier => g_parameters(t, p + 1, acc.push(Tree::Var(at(t, p), Box::new(name_at(t, p)), None))),
            Token::LeftParenthesis => g_parameters(t, p + 1, acc),
            Token::Comma => g_parameters(t, p + 1, acc),
            Token::RightParenthesis => Some((acc, p + 1)),
            _ => None,
        }
    }
}

/// `function name(parameters) body end`.
pub open spec fn g_function(t: Seq<MatchedToken<Token>>, ends: Seq<Cursor>, p: nat) -> Option<(Tree, nat)>
    decreases t.len() - p, 101nat,
{
    if !token_is(t, p, Token::Function) || !token_is(t, p + 1, Token::Identifier) {
        None
    } else {
        match g_parameters(t, p + 2, Seq::empty()) {
            Some((ps, q)) => if p < q <= t.len() {
                match g_block(t, ends, q, Seq::empty()) {
                    Some((b, q2)) => Some((Tree::Function(at(t, p), Box::new(name_at(t, p + 1)), ps, b), q2)),
                    None => None,
                }
            } else {
                None
            },
            None => None,
        }
    }
}

/// `constructor(parameters) body end`.
pub open spec fn g_constructor(t: Seq<MatchedToken<Token>>, ends: Seq<Cursor>, p: nat) -> Option<(Tree, nat)>
    decreases t.len() - p, 101nat,
{
    if !token_is(t, p, Token::Constructor) {
        None
    } else {
        match g_parameters(t, p + 1, Seq::empty()) {
            Some((ps, q)) => if p < q <= t.len() {
                match g_block(t, ends, q, Seq::empty()) {
                    Some((b, q2)) => Some((Tree::Constructor(at(t, p), ps, b), q2)),
                    None => None,
                }
            } else {
                None
            },
            None => None,
        }
    }
}

/// `attribute name [= value]`, from the token at `p` on.
pub open spec fn g_attribute(t: Seq<MatchedToken<Token>>, p: nat) -> Option<(Tree, nat)>
    decreases t.len() - p, 101nat,
{
    if p >= t.len() || !token_is(t, p + 1, Token::Identifier) {
        None
    } else if token_is(t, p + 2, Token::SingleEquals) {
        match g_expression(t, p + 3) {
            Some((v, q)) => Some((Tree::Attribute(at(t, p), Box::new(name_at(t, p + 1)), Some(Box::new(v))), q)),
            None => None,
        }
    } else {
        Some((Tree::Attribute(at(t, p), Box::new(name_at(t, p + 1)), None), p + 2))
    }
}

/// `const name [= value]`, from the token at `p` on; without a value the
/// constant is `null`.
pub open spec fn g_constant(t: Seq<MatchedToken<Token>>, p: nat) -> Option<(Tree, nat)>
    decreases t.len() - p, 101nat,
{
    if p >= t.len() || !token_is(t, p + 1, Token::Identifier) {
        None
    } else if token_is(t, p + 2, Token::SingleEquals) {
        match g_expression(t, p + 3) {
            Some((v, q)) => Some((Tree::Constant(at(t, p), t[p + 1int].text@, Box::new(v)), q)),
            None => None,
        }
    } else {
        Some((Tree::Constant(at(t, p), t[p + 1int].text@, Box::new(Tree::Null)), p + 2))
    }
}

/// The items of an enum after `acc`, up to `end` or the end of the tokens.
pub open spec fn g_enum_items(t: Seq<MatchedToken<Token>>, p: nat, acc: Seq<Tree>) -> Option<(Seq<Tree>, nat)>
    decreases t.len() - p, 100nat,
{
    if p >= t.len() {
        Some((acc, p))
    } else {
        match t[p as int].token {
            Token::Identifier => g_enum_items(t, p + 1, acc.push(name_at(t, p))),
            Token::End => Some((acc, p + 1)),
            _ => None,
        }
    }
}

/// `enum Name item ... end`, from the token at `p` on.
pub open spec fn g_enum(t: Seq<MatchedToken<Token>>, p: nat) -> Option<(Tree, nat)>
    decreases t.len() - p, 101nat,
{
    if p + 1 >= t.len() {
        None
    } else {
        match g_enum_items(t, p + 2, Seq::empty()) {
            Some((xs, q)) => Some((Tree::Enum(at(t, p), Box::new(name_at(t, p + 1)), xs), q)),
            None => None,
        }
    }
}

/// The path named after `import`, joined with `/`, each name that no `.`
/// follows ending in the file extension.
pub open spec fn g_import_path(t: Seq<MatchedToken<Token>>, p: nat, acc: Seq<char>) -> (Seq<char>, nat)
    decreases t.len() - p,
{
    if p >= t.len() || t[p as int].token != Token::Identifier {
        (acc, p)
    } else if token_is(t, p + 1, Token::Dot) {
        g_import_path(t, p + 2, acc + t[p as int].text@ + "/"@)
    } else {
        g_import_path(t, p + 1, acc + t[p as int].text@ + FILE_EXTENSION@)
    }
}

/// `import a.b.c`, from the token at `p` on.
pub open spec fn g_import(t: Seq<MatchedToken<Token>>, p: nat) -> Option<(Tree, nat)> {
    if p >= t.len() {
        None
    } else {
        let (path, q) = g_import_path(t, p + 1, Seq::empty());
        Some((Tree::Import(at(t, p), path), q))
    }
}

/// The members of a class after those read so far, up to `end` or the end
/// of the tokens; a later constructor replaces an earlier one.
pub open spec fn g_class_members(
    t: Seq<MatchedToken<Token>>,
    ends: Seq<Cursor>,
    p: nat,
    attrs: Seq<Tree>,
    ctor: Option<Box<Tree>>,
    methods: Seq<Tree>,
    head: (TokenPosition, Tree),
) -> Option<(Tree, nat)>
    decreases t.len() - p, 110nat,
{
    if p >= t.len() {
        Some((Tree::Class(head.0, Box::new(head.1), attrs, ctor, methods), p))
    } else {
        match t[p as int].token {
            Token::Attribute => match g_attribute(t, p) {
                Some((a, q)) => if p < q <= t.len() {
                    g_class_members(t, ends, q, attrs.push(a), ctor, methods, head)
                } else {
                    None
                },
                None => None,
            },
            Token::Function => match g_function(t, ends, p) {
                Some((f, q)) => if p < q <= t.len() {
                    g_class_members(t, ends, q, attrs, ctor, methods.push(f), head)
                } else {
                    None
                },
                None => None,
            },
            Token::Constructor => match g_constructor(t, ends, p) {
                Some((c, q)) => if p < q <= t.len() {
                    g_class_members(t, ends, q, attrs, Some(Box::new(c)), methods, head)
                } else {
                    None
                },
                None => None,
            },
            Token::End => Some((Tree::Class(head.0, Box::new(head.1), attrs, ctor, methods), p + 1)),
            _ => None,
        }
    }
}

/// `class Name` with attributes, a constructor and methods, then `end`.
pub open spec fn g_class(t: Seq<MatchedToken<Token>>, ends: Seq<Cursor>, p: nat) -> Option<(Tree, nat)>
    decreases t.len() - p, 111nat,
{
    if p >= t.len() || !token_is(t, p + 1, Token::Identifier) {
        None
    } else {
        g_class_members(t, ends, p + 2, Seq::empty(), None, Seq::empty(), (at(t, p), name_at(t, p + 1)))
    }
}

/// The members of a module after `acc`, up to `end` or the end of the tokens.
pub open spec fn g_module_members(t: Seq<MatchedToken<Token>>, ends: Seq<Cursor>, p: nat, acc: Seq<Tree>) -> Option<
    (Seq<Tree>, nat),
>
    decreases t.len() - p, 115nat,
{
    if p >= t.len() {
        Some((acc, p))
    } else if t[p as int].token == Token::End {
        Some((acc, p + 1))
    } else {
        let m = match t[p as int].token {
            Token::Import => g_import(t, p),
            Token::Constant => g_constant(t, p),
            Token::Enum => g_enum(t, p),
            Token::Class => g_class(t, ends, p),
            Token::Function => g_function(t, ends, p),
            Token::Module => g_module(t, ends, p),
            _ => None,
        };
        match m {
            Some((x, q)) => if p < q <= t.len() {
                g_module_members(t, ends, q, acc.push(x))
            } else {
                None
            },
            None => None,
        }
    }
}

/// `module Name` with its members, then `end`.
pub open spec fn g_module(t: Seq<MatchedToken<Token>>, ends: Seq<Cursor>, p: nat) -> Option<(Tree, nat)>
    decreases t.len() - p, 114nat,
{
    if p >= t.len() || !token_is(t, p + 1, Token::Identifier) {
        None
    } else {
        match g_module_members(t, ends, p + 2, Seq::empty()) {
            Some((xs, q)) => Some((Tree::Module(at(t, p), Box::new(name_at(t, p + 1)), xs), q)),
            None => None,
        }
    }
}

/// The top-level items of a script after `acc`, to the end of the tokens.
pub open spec fn g_script(t: Seq<MatchedToken<Token>>, ends: Seq<Cursor>, p: nat, acc: Seq<Tree>) -> Option<Seq<Tree>>
    decreases t.len() - p, 120nat,
{
    if p >= t.len() {
        Some(acc)
    } else {
        let m = match t[p as int].token {
            Token::Import => g_import(t, p),
            Token::Enum => g_enum(t, p),
            Token::Class => g_class(t, ends, p),
            Token::Function => g_function(t, ends, p),
            Token::Module => g_module(t, ends, p),
            _ => None,
        };
        match m {
            Some((x, q)) => if p < q <= t.len() {
                g_script(t, ends, q, acc.push(x))
            } else {
                None
            },
            None => None,
        }
    }
}

/// Where a script read from `p` on meets, where an item should start, a token
/// that starts none; `None` when the script ends, or is rejected, before any
/// such token.
pub open spec fn script_stray(t: Seq<MatchedToken<Token>>, ends: Seq<Cursor>, p: nat) -> Option<nat>
    decreases t.len() - p,
{
    if p >= t.len() {
        None
    } else {
        let m = match t[p as int].token {
            Token::Import => g_import(t, p),
            Token::Enum => g_enum(t, p),
            Token::Class => g_class(t, ends, p),
            Token::Function => g_function(t, ends, p),
            Token::Module => g_module(t, ends, p),
            _ => None,
        };
        match t[p as int].token {
            Token::Import | Token::Enum | Token::Class | Token::Function | Token::Module => match m {
                Some((x, q)) => if p < q <= t.len() {
                    script_stray(t, ends, q)
                } else {
                    None
                },
                None => None,
            },
            _ => Some(p),
        }
    }
}

// ---------------------------------------------------------------------------
// Lemmas
// ---------------------------------------------------------------------------

pub proof fn lemma_are_trees_push(ss: Seq<Syntax>, es: Seq<Tree>, s: Syntax, e: Tree)
    requires
        are_trees(ss, es),
        is_tree(s, e),
    ensures
        are_trees(ss.push(s), es.push(e)),
{
    assert(ss.len() == es.len());
    assert(ss.push(s).drop_last() =~= ss);
    assert(es.push(e).drop_last() =~= es);
}

/// The entries agree one by one.
pub open spec fn entries_agree(ss: Seq<(String, Syntax)>, es: Seq<(Seq<char>, Tree)>) -> bool {
    &&& ss.len() == es.len()
    &&& forall|i: int| 0 <= i < es.len() ==> #[trigger] ss[i].0@ == es[i].0 && is_tree(ss[i].1, es[i].1)
}

pub proof fn lemma_are_entries_agree(ss: Seq<(String, Syntax)>, es: Seq<(Seq<char>, Tree)>)
    ensures
        are_entries(ss, es) <==> entries_agree(ss, es),
    decreases es.len(),
{
    if es.len() > 0 && ss.len() == es.len() {
        let ds = ss.drop_last();
        let de = es.drop_last();
        lemma_are_entries_agree(ds, de);
        assert forall|i: int| 0 <= i < de.len() implies #[trigger] ds[i] == ss[i] && de[i] == es[i] by {}
        if entries_agree(ss, es) {
            assert(ss.last() == ss[es.len() - 1]);
            assert(es.last() == es[es.len() - 1]);
            assert(entries_agree(ds, de)) by {
                assert forall|i: int| 0 <= i < de.len() implies #[trigger] ds[i].0@ == de[i].0 && is_tree(ds[i].1, de[i].1) by {
                    assert(ds[i] == ss[i] && de[i] == es[i]);
                }
            }
        }
        if are_entries(ss, es) {
            assert forall|i: int| 0 <= i < es.len() implies #[trigger] ss[i].0@ == es[i].0 && is_tree(ss[i].1, es[i].1) by {
                if i < es.len() - 1 {
                    assert(ds[i] == ss[i] && de[i] == es[i]);
                }
            }
        }
    }
}

pub proof fn lemma_entry_index_find(ss: Seq<(String, Syntax)>, es: Seq<(Seq<char>, Tree)>, k: Seq<char>)
    requires
        ss.len() == es.len(),
        forall|i: int| 0 <= i < es.len() ==> #[trigger] ss[i].0@ == es[i].0,
    ensures
        find_in(ss, k) == entry_index(es, k),
    decreases es.len(),
{
    if es.len() > 0 {
        let ds = ss.drop_last();
        let de = es.drop_last();
        assert forall|i: int| 0 <= i < de.len() implies #[trigger] ds[i].0@ == de[i].0 by {
            assert(ds[i] == ss[i] && de[i] == es[i]);
        }
        lemma_entry_index_find(ds, de, k);
        assert(ss.last().0@ == es.last().0) by {
            assert(ss.last() == ss[es.len() - 1]);
        }
    }
}

/// Entries kept as a `Table` inserts them agree with `dict_insert`.
pub proof fn lemma_entries_insert(
    ss: Seq<(String, Syntax)>,
    es: Seq<(Seq<char>, Tree)>,
    key: String,
    v: Syntax,
    e: Tree,
    ss2: Seq<(String, Syntax)>,
)
    requires
        are_entries(ss, es),
        is_tree(v, e),
        match find_in(ss, key@) {
            Some(i) => ss2 == ss.update(i, (ss[i].0, v)),
            None => ss2 == ss.push((key, v)),
        },
    ensures
        are_entries(ss2, dict_insert(es, key@, e)),
{
    lemma_are_entries_agree(ss, es);
    lemma_entry_index_find(ss, es, key@);
    crate::table::lemma_find_in_props(ss, key@);
    let es2 = dict_insert(es, key@, e);
    assert(entries_agree(ss2, es2)) by {
        match find_in(ss, key@) {
            Some(i) => {
                assert forall|j: int| 0 <= j < es2.len() implies #[trigger] ss2[j].0@ == es2[j].0 && is_tree(ss2[j].1, es2[j].1) by {
                    if j != i {
                        assert(ss2[j] == ss[j] && es2[j] == es[j]);
                    }
                }
            },
            None => {
                assert forall|j: int| 0 <= j < es2.len() implies #[trigger] ss2[j].0@ == es2[j].0 && is_tree(ss2[j].1, es2[j].1) by {
                    if j < es.len() {
                        assert(ss2[j] == ss[j] && es2[j] == es[j]);
                    }
                }
            },
        }
    }
    lemma_are_entries_agree(ss2, es2);
}

} // verus!
