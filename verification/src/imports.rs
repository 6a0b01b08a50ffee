use vstd::prelude::*;

use crate::grammar::{are_trees, g_script, script_stray};
use crate::parser::{position_of, Parser};
use crate::script::{generate_program, program_of, script_fails, CompilerResult};
use crate::syntax::{CompilerError, CompilerErrorType, ParserErrorType, Syntax, TokenPosition};
use crate::table::Table;

verus! {

/// `tree` is what the grammar reads from the tokens of the text `text`.
pub open spec fn text_tree(text: Seq<char>, tree: Seq<Syntax>) -> bool {
    exists|p: Parser|
        #[trigger] p.reads_source(text) && (g_script(p.spec_tokens(), p.spec_ends(), 0, Seq::empty()) matches Some(es)
            && are_trees(tree, es))
}

/// How the imports of one item were replaced: the item was kept as it is, a
/// module had the imports of its body replaced, or an import was replaced by
/// the items of the tree read from its file.
pub ghost enum Expansion {
    Kept,
    Module(Seq<Expansion>),
    Import(Seq<Syntax>, Seq<Expansion>),
}

/// How many items an expansion gives.
pub open spec fn expansion_len(e: Expansion) -> int
    decreases e,
{
    match e {
        Expansion::Kept => 1,
        Expansion::Module(_) => 1,
        Expansion::Import(_, ds) => expansions_len(ds),
    }
}

/// How many items expansions give together.
pub open spec fn expansions_len(ds: Seq<Expansion>) -> int
    decreases ds,
{
    if ds.len() == 0 {
        0
    } else {
        expansions_len(ds.subrange(0, ds.len() - 1)) + expansion_len(ds[ds.len() - 1])
    }
}

/// `out` is `items` with the imports replaced as `ds` says, item by item.
pub open spec fn items_expand(items: Seq<Syntax>, files: Table<String>, depth: nat, ds: Seq<Expansion>, out: Seq<Syntax>) -> bool
    decreases depth, ds,
{
    if items.len() != ds.len() {
        false
    } else if ds.len() == 0 {
        out.len() == 0
    } else {
        let n = out.len() - expansion_len(ds[ds.len() - 1]);
        &&& 0 <= n <= out.len()
        &&& items_expand(items.subrange(0, items.len() - 1), files, depth, ds.subrange(0, ds.len() - 1), out.subrange(0, n))
        &&& item_expand(items[items.len() - 1], files, depth, ds[ds.len() - 1], out.subrange(n, out.len() as int))
    }
}

/// `out` is what the item `x` becomes as `e` says: an import, no deeper than
/// `depth` files, becomes the items of the tree that the grammar reads from
/// its file's text, their own imports replaced; a module gets the imports of
/// its body replaced; anything else stays.
pub open spec fn item_expand(x: Syntax, files: Table<String>, depth: nat, e: Expansion, out: Seq<Syntax>) -> bool
    decreases depth, e,
{
    match e {
        Expansion::Import(t, ds) => depth > 0 && (x matches Syntax::Import { path, .. } && (files.spec_get(path@) matches Some(
            text,
        ) && text_tree(text@, t) && items_expand(t, files, (depth - 1) as nat, ds, out))),
        Expansion::Module(ds) => x matches Syntax::Module { position, module_name, body } && out.len() == 1 && (
        out[0] matches Syntax::Module { position: p2, module_name: n2, body: b2 } && p2 == position && n2 == module_name
            && items_expand(body@, files, depth, ds, b2@)),
        Expansion::Kept => !(x is Import) && !(x is Module) && out == seq![x],
    }
}

/// `out` is `items` with each import replaced, in place, by the items of the
/// file it names (the texts of the files are `files`, by path), the imports
/// of imported files replaced in turn no deeper than `depth` files, and each
/// module's imports replaced inside it.
pub open spec fn expands(items: Seq<Syntax>, files: Table<String>, depth: nat, out: Seq<Syntax>) -> bool {
    exists|ds: Seq<Expansion>| #[trigger] items_expand(items, files, depth, ds, out)
}

/// Why an item's imports cannot be replaced.
pub ghost enum ImportFailure {
    TooDeep,
    NoFile,
    Rejected,
    InFile(Seq<Syntax>, Box<ItemsFailure>),
    InModule(Box<ItemsFailure>),
}

/// The first item of a sequence whose imports cannot be replaced, and why.
pub ghost enum ItemsFailure {
    At(int, ImportFailure),
}

/// The grammar rejects the tokens of the text `text`, and `k` at `pos` is
/// the error the parser gives: a token that starts no item gives
/// `UnwantedToken` of it at its place.
pub open spec fn text_rejected_with(text: Seq<char>, k: ParserErrorType, pos: TokenPosition) -> bool {
    exists|p: Parser|
        #[trigger] p.reads_source(text) && g_script(p.spec_tokens(), p.spec_ends(), 0, Seq::empty()) is None && match script_stray(
            p.spec_tokens(),
            p.spec_ends(),
            0,
        ) {
            Some(s) => k == ParserErrorType::UnwantedToken(p.spec_tokens()[s as int].token) && pos == position_of(
                p.spec_tokens()[s as int].cursor,
            ),
            None => true,
        }
}

/// The item at the place `w` names is the first one of `items` whose
/// imports cannot be replaced, and `e` is the error that reports it.
pub open spec fn items_fail(items: Seq<Syntax>, files: Table<String>, depth: nat, w: ItemsFailure, e: CompilerError) -> bool
    decreases depth, w,
{
    match w {
        ItemsFailure::At(i, f) => 0 <= i < items.len() && (exists|ds: Seq<Expansion>, out: Seq<Syntax>|
            #[trigger] items_expand(items.subrange(0, i), files, depth, ds, out)) && item_fail(items[i], files, depth, f, e),
    }
}

/// The imports of `x` cannot be replaced for the reason `f`, and `e` is the
/// error that reports it: an import whose path has no file is an invalid
/// import path at the import; one deeper than `depth` files is a file that
/// cannot be imported; a file the grammar rejects gives the parser's error;
/// and a failure within an imported file or a module gives its own error.
pub open spec fn item_fail(x: Syntax, files: Table<String>, depth: nat, f: ImportFailure, e: CompilerError) -> bool
    decreases depth, f,
{
    match f {
        ImportFailure::NoFile => x matches Syntax::Import { position, path } && files.spec_get(path@) is None && e == (
        CompilerError { error: CompilerErrorType::InvalidImportPath(path), position }),
        ImportFailure::TooDeep => x matches Syntax::Import { position, path } && files.spec_get(path@) is Some && depth == 0
            && e == (CompilerError { error: CompilerErrorType::UnableToImportFile(path), position }),
        ImportFailure::Rejected => depth > 0 && (x matches Syntax::Import { path, .. } && (files.spec_get(path@) matches Some(
            text,
        ) && (e.error matches CompilerErrorType::ParseError(k) && text_rejected_with(text@, k, e.position)))),
        ImportFailure::InFile(t, w) => depth > 0 && (x matches Syntax::Import { path, .. } && (files.spec_get(path@) matches Some(
            text,
        ) && text_tree(text@, t) && items_fail(t, files, (depth - 1) as nat, *w, e))),
        ImportFailure::InModule(w) => x matches Syntax::Module { body, .. } && items_fail(body@, files, depth, *w, e),
    }
}

/// What `x` becomes once its imports are replaced (see `item_expand`).
pub open spec fn item_expands(x: Syntax, files: Table<String>, depth: nat, out: Seq<Syntax>) -> bool {
    exists|e: Expansion| #[trigger] item_expand(x, files, depth, e, out)
}

/// The imports of `x` cannot be replaced, and `e` is the error that reports
/// the first failing import.
pub open spec fn item_fails(x: Syntax, files: Table<String>, depth: nat, e: CompilerError) -> bool {
    exists|f: ImportFailure| #[trigger] item_fail(x, files, depth, f, e)
}

/// Some import of `items` cannot be replaced, and `e` is the error that
/// reports the first failing one, in source order (within modules and
/// imported files too).
pub open spec fn expansion_fails(items: Seq<Syntax>, files: Table<String>, depth: nat, e: CompilerError) -> bool {
    exists|w: ItemsFailure| #[trigger] items_fail(items, files, depth, w, e)
}

pub proof fn lemma_expand_len(items: Seq<Syntax>, files: Table<String>, depth: nat, ds: Seq<Expansion>, out: Seq<Syntax>)
    requires
        items_expand(items, files, depth, ds, out),
    ensures
        expansions_len(ds) == out.len(),
    decreases ds.len(),
{
    if ds.len() > 0 {
        let n = out.len() - expansion_len(ds[ds.len() - 1]);
        lemma_expand_len(
            items.subrange(0, items.len() - 1),
            files,
            depth,
            ds.subrange(0, ds.len() - 1),
            out.subrange(0, n),
        );
    }
}

/// How many items an item's expansion gives.
proof fn lemma_item_expand_len(x: Syntax, files: Table<String>, depth: nat, e: Expansion, out: Seq<Syntax>)
    requires
        item_expand(x, files, depth, e, out),
    ensures
        expansion_len(e) == out.len(),
{
    if let Expansion::Import(t, ds) = e {
        lemma_expand_len(t, files, (depth - 1) as nat, ds, out);
    }
}

/// The items that one item becomes once its imports are replaced (see
/// `expand_imports`).
#[verifier::spinoff_prover]
#[verifier::rlimit(60)]
fn expand_item(x: Syntax, files: &Table<String>, depth: usize) -> (r: Result<Vec<Syntax>, CompilerError>)
    ensures
        r matches Ok(out) ==> item_expands(x, *files, depth as nat, out@),
        r matches Err(e) ==> item_fails(x, *files, depth as nat, e),
    decreases depth, x,
{
    let ghost xv = x;
    let ghost dn = depth as nat;
    match x {
        Syntax::Import { position, path } => {
            let text = match files.get(path.as_str()) {
                Some(t) => t,
                None => {
                    let err = CompilerError { error: CompilerErrorType::InvalidImportPath(path), position };
                    proof {
                        assert(item_fail(xv, *files, dn, ImportFailure::NoFile, err));
                        assert(item_fails(xv, *files, depth as nat, err));
                    }
                    return Err(err);
                },
            };
            if depth == 0 {
                let err = CompilerError { error: CompilerErrorType::UnableToImportFile(path), position };
                proof {
                    assert(item_fail(xv, *files, dn, ImportFailure::TooDeep, err));
                    assert(item_fails(xv, *files, depth as nat, err));
                }
                return Err(err);
            }
            let parsed = match Parser::parse(text.as_str()) {
                Ok(p) => p,
                Err(e) => {
                    let err = CompilerError { error: CompilerErrorType::ParseError(e.error), position: e.position };
                    proof {
                        assert(text_rejected_with(text@, e.error, e.position));
                        assert(item_fail(xv, *files, dn, ImportFailure::Rejected, err));
                        assert(item_fails(xv, *files, depth as nat, err));
                    }
                    return Err(err);
                },
            };
            let ghost t = parsed.syntax_tree@;
            proof {
                assert(text_tree(text@, t));
            }
            match expand_imports(parsed.syntax_tree, files, depth - 1) {
                Ok(sub) => {
                    proof {
                        let ds = choose|ds: Seq<Expansion>| #[trigger] items_expand(t, *files, (dn - 1) as nat, ds, sub@);
                        assert(item_expand(xv, *files, dn, Expansion::Import(t, ds), sub@));
                        assert(item_expands(xv, *files, depth as nat, sub@));
                    }
                    Ok(sub)
                },
                Err(e) => {
                    proof {
                        let w = choose|w: ItemsFailure| #[trigger] items_fail(t, *files, (dn - 1) as nat, w, e);
                        assert(item_fail(xv, *files, dn, ImportFailure::InFile(t, Box::new(w)), e));
                        assert(item_fails(xv, *files, depth as nat, e));
                    }
                    Err(e)
                },
            }
        },
        Syntax::Module { position, module_name, body } => {
            proof {
                assert(decreases_to!(xv => xv->Module_body));
            }
            let ghost bv = body@;
            match expand_imports(body, files, depth) {
                Ok(b) => {
                    let ghost bo = b@;
                    let m = Syntax::Module { position, module_name, body: b };
                    let ghost mv = m;
                    let mut out: Vec<Syntax> = Vec::new();
                    out.push(m);
                    proof {
                        assert(out@ =~= seq![mv]);
                        let ds = choose|ds: Seq<Expansion>| #[trigger] items_expand(bv, *files, dn, ds, bo);
                        assert(item_expand(xv, *files, dn, Expansion::Module(ds), out@));
                        assert(item_expands(xv, *files, depth as nat, out@));
                    }
                    Ok(out)
                },
                Err(e) => {
                    proof {
                        let w = choose|w: ItemsFailure| #[trigger] items_fail(bv, *files, dn, w, e);
                        assert(item_fail(xv, *files, dn, ImportFailure::InModule(Box::new(w)), e));
                        assert(item_fails(xv, *files, depth as nat, e));
                    }
                    Err(e)
                },
            }
        },
        other => {
            let mut out: Vec<Syntax> = Vec::new();
            out.push(other);
            proof {
                assert(out@ =~= seq![xv]);
                assert(item_expand(xv, *files, dn, Expansion::Kept, out@));
                assert(item_expands(xv, *files, depth as nat, out@));
            }
            Ok(out)
        },
    }
}

/// Replaces each import of `items` by the items of the file it names, whose
/// text is in `files` under the import's path; the imports of an imported
/// file are replaced in turn, no deeper than `depth` files, and those inside
/// a module within it. A path without a file is an invalid import path; an
/// import deeper than `depth` (as a file that imports itself would go) is a
/// file that cannot be imported; a file the grammar rejects gives its parse
/// error. The error reports the first import, in source order (within
/// modules and imported files too), whose file cannot be had.
#[verifier::loop_isolation(false)]
#[verifier::spinoff_prover]
#[verifier::rlimit(40)]
pub fn expand_imports(items: Vec<Syntax>, files: &Table<String>, depth: usize) -> (r: Result<Vec<Syntax>, CompilerError>)
    ensures
        r matches Ok(out) ==> expands(items@, *files, depth as nat, out@),
        r matches Err(e) ==> expansion_fails(items@, *files, depth as nat, e),
    decreases depth, items,
{
    let ghost whole = items;
    let ghost orig = items@;
    let ghost dn = depth as nat;
    let n = items.len();
    let mut items = items;
    let mut out: Vec<Syntax> = Vec::new();
    let mut k: usize = 0;
    let ghost mut ds: Seq<Expansion> = Seq::empty();
    proof {
        assert(orig.subrange(0, 0) =~= Seq::<Syntax>::empty());
    }
    while items.len() > 0
        invariant
            k + items@.len() == orig.len(),
            items@ == orig.subrange(k as int, orig.len() as int),
            whole@ == orig,
            items_expand(orig.subrange(0, k as int), *files, dn, ds, out@),
            orig.len() == n,
        decreases items.len(),
    {
        let x = items.remove(0);
        let ghost o0 = out@;
        let ghost pre = orig.subrange(0, k + 1);
        proof {
            assert(x == orig[k as int]);
            assert(decreases_to!(whole => whole@));
            assert(decreases_to!(whole@ => whole@[k as int]));
        }
        let mut sub = match expand_item(x, files, depth) {
            Ok(s) => s,
            Err(e) => {
                proof {
                    let f = choose|f: ImportFailure| #[trigger] item_fail(orig[k as int], *files, dn, f, e);
                    assert(item_fail(orig[k as int], *files, dn, f, e));
                    assert(items_expand(orig.subrange(0, k as int), *files, dn, ds, out@));
                    assert(items_fail(orig, *files, dn, ItemsFailure::At(k as int, f), e));
                }
                return Err(e);
            },
        };
        let ghost s = sub@;
        out.append(&mut sub);
        proof {
            let e = choose|e: Expansion| #[trigger] item_expand(orig[k as int], *files, dn, e, s);
            assert(item_expand(orig[k as int], *files, dn, e, s));
            lemma_item_expand_len(orig[k as int], *files, dn, e, s);
            let ds2 = ds.push(e);
            assert(pre.subrange(0, pre.len() - 1) =~= orig.subrange(0, k as int));
            assert(pre[pre.len() - 1] == orig[k as int]);
            assert(ds2.subrange(0, ds2.len() - 1) =~= ds);
            assert(out@.subrange(0, o0.len() as int) =~= o0);
            assert(out@.subrange(o0.len() as int, out@.len() as int) =~= s);
            assert(items_expand(pre, *files, dn, ds2, out@));
            ds = ds2;
        }
        k = k + 1;
    }
    proof {
        assert(orig.subrange(0, k as int) =~= orig);
    }
    Ok(out)
}

/// Parses and compiles a script whose imported files have the texts `files`,
/// by path: each import is replaced by the items of its file (see
/// `expand_imports`, no deeper than the number of files), then the program is
/// generated. The paths of the imported files are not listed.
pub fn compile_with_imports(source: &str, files: &Table<String>) -> (r: Result<CompilerResult, CompilerError>)
    ensures
        r matches Ok(c) ==> c.source_files@.len() == 0,
        exists|p: Parser|
            #[trigger] p.reads_source(source@) && match g_script(p.spec_tokens(), p.spec_ends(), 0, Seq::empty()) {
                None => r matches Err(e) && (e.error matches CompilerErrorType::ParseError(k) && text_rejected_with(
                    source@,
                    k,
                    e.position,
                )),
                Some(es) => exists|tree: Seq<Syntax>|
                    #[trigger] are_trees(tree, es) && (r matches Ok(c) ==> exists|out: Seq<Syntax>|
                        #[trigger] expands(tree, *files, files.spec_len(), out) && program_of(c.program, out)) && match r {
                        Err(e) => expansion_fails(tree, *files, files.spec_len(), e) || exists|out: Seq<Syntax>|
                            #[trigger] expands(tree, *files, files.spec_len(), out) && script_fails(out),
                        Ok(_) => true,
                    },
            },
{
    let parse_result = match Parser::parse(source) {
        Ok(p) => p,
        Err(e) => {
            proof {
                assert(text_rejected_with(source@, e.error, e.position));
            }
            return Err(CompilerError { error: CompilerErrorType::ParseError(e.error), position: e.position });
        },
    };
    let ghost tree = parse_result.syntax_tree@;
    let depth = files.len();
    let expanded = expand_imports(parse_result.syntax_tree, files, depth)?;
    let ghost out = expanded@;
    let compiler_result = match generate_program(expanded) {
        Ok(c) => c,
        Err(e) => {
            proof {
                assert(expands(tree, *files, files.spec_len(), out));
            }
            return Err(e);
        },
    };
    proof {
        assert(expands(tree, *files, files.spec_len(), out));
    }
    Ok(
        CompilerResult {
            program: compiler_result.program,
            compile_time: compiler_result.codegen_time,
            parser_time: parse_result.parser_time,
            source_files: Vec::new(),
        },
    )
}

} // verus!
