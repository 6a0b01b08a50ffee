use vstd::prelude::*;

use crate::lexer::{Lexer, LexerOptions, Matcher};

verus! {

/// The tokens of the scripting language.
#[derive(Clone, Copy, Debug, PartialEq, Eq, Structural)]
pub enum Token {
    Function,
    Enum,
    Import,
    Class,
    Constructor,
    Module,
    Return,
    End,
    Var,
    Constant,
    As,
    Attribute,
    While,
    For,
    To,
    In,
    Step,
    Do,
    Continue,
    Break,
    If,
    Then,
    Else,
    Match,
    Case,
    Default,
    Comment,
    Integer,
    Float,
    String,
    Boolean,
    Identifier,
    Null,
    New,
    LeftParenthesis,
    RightParenthesis,
    RightSquareBracket,
    LeftSquareBracket,
    RightCurlyBracket,
    LeftCurlyBracket,
    Comma,
    SingleEquals,
    Semicolon,
    Dot,
    Colon,
    DoubleColon,
    DoubleEquals,
    Plus,
    Minus,
    Mul,
    Div,
    Pow,
    Not,
    And,
    Or,
    NotEquals,
    Lt,
    Le,
    Gt,
    Ge,
}

/// A matcher that recognises `condition`, ignoring case, as `value`.
pub open spec fn is_keyword(m: Matcher<Token>, condition: Seq<char>, value: Token) -> bool {
    m matches Matcher::MatchToken { condition: c, case_sensitive: false, value: v } && c@ == condition && v == value
}

/// A matcher that recognises the regular expression `pattern` as `value`.
pub open spec fn is_pattern(m: Matcher<Token>, pattern: Seq<char>, value: Token) -> bool {
    m matches Matcher::MatchRegex { condition: c, value: v } && c@ == pattern && v == value
}

/// A matcher that skips what the regular expression `pattern` matches.
pub open spec fn is_skipped(m: Matcher<Token>, pattern: Seq<char>) -> bool {
    m matches Matcher::IgnoreRegex { condition: c } && c@ == pattern
}

fn keyword(condition: &str, value: Token) -> (m: Matcher<Token>)
    ensures
        is_keyword(m, condition@, value),
{
    Matcher::MatchToken { condition: condition.to_owned(), case_sensitive: false, value }
}

fn pattern(condition: &str, value: Token) -> (m: Matcher<Token>)
    ensures
        is_pattern(m, condition@, value),
{
    Matcher::MatchRegex { condition: condition.to_owned(), value }
}

fn skipped(condition: &str) -> (m: Matcher<Token>)
    ensures
        is_skipped(m, condition@),
{
    Matcher::IgnoreRegex { condition: condition.to_owned() }
}

/// The matchers of the language, in the order in which they are tried: white
/// space and `--` comments are skipped; keywords, symbols and literals come
/// before identifiers, which match greedily.
pub open spec fn language_matchers(ms: Seq<Matcher<Token>>) -> bool {
    &&& ms.len() == 61
    &&& is_skipped(ms[0], r#"^\s+"#@)
    &&& is_skipped(ms[1], r#"^--[^\n]*"#@)
    &&& is_keyword(ms[2], "function"@, Token::Function)
    &&& is_keyword(ms[3], "constructor"@, Token::Constructor)
    &&& is_keyword(ms[4], "enum"@, Token::Enum)
    &&& is_keyword(ms[5], "class"@, Token::Class)
    &&& is_keyword(ms[6], "module"@, Token::Module)
    &&& is_keyword(ms[7], "import"@, Token::Import)
    &&& is_keyword(ms[8], "return"@, Token::Return)
    &&& is_keyword(ms[9], "end"@, Token::End)
    &&& is_keyword(ms[10], "var "@, Token::Var)
    &&& is_keyword(ms[11], "const "@, Token::Constant)
    &&& is_keyword(ms[12], "as "@, Token::As)
    &&& is_keyword(ms[13], "attribute "@, Token::Attribute)
    &&& is_keyword(ms[14], "new "@, Token::New)
    &&& is_keyword(ms[15], "("@, Token::LeftParenthesis)
    &&& is_keyword(ms[16], ")"@, Token::RightParenthesis)
    &&& is_keyword(ms[17], "["@, Token::LeftSquareBracket)
    &&& is_keyword(ms[18], "]"@, Token::RightSquareBracket)
    &&& is_keyword(ms[19], "{"@, Token::LeftCurlyBracket)
    &&& is_keyword(ms[20], "}"@, Token::RightCurlyBracket)
    &&& is_keyword(ms[21], ","@, Token::Comma)
    &&& is_keyword(ms[22], "."@, Token::Dot)
    &&& is_keyword(ms[23], "::"@, Token::DoubleColon)
    &&& is_keyword(ms[24], ":"@, Token::Colon)
    &&& is_pattern(ms[25], r#"^[0-9]+\.[0-9]+"#@, Token::Float)
    &&& is_pattern(ms[26], "^[-]?[0-9]+"@, Token::Integer)
    &&& is_pattern(ms[27], r#"^"[^"]*""#@, Token::String)
    &&& is_keyword(ms[28], "true"@, Token::Boolean)
    &&& is_keyword(ms[29], "false"@, Token::Boolean)
    &&& is_keyword(ms[30], "null"@, Token::Null)
    &&& is_keyword(ms[31], "if"@, Token::If)
    &&& is_keyword(ms[32], "then"@, Token::Then)
    &&& is_keyword(ms[33], "else"@, Token::Else)
    &&& is_keyword(ms[34], "match"@, Token::Match)
    &&& is_keyword(ms[35], "case"@, Token::Case)
    &&& is_keyword(ms[36], "default"@, Token::Default)
    &&& is_keyword(ms[37], "while "@, Token::While)
    &&& is_keyword(ms[38], "for "@, Token::For)
    &&& is_keyword(ms[39], "to "@, Token::To)
    &&& is_keyword(ms[40], "in "@, Token::In)
    &&& is_keyword(ms[41], "step "@, Token::Step)
    &&& is_pattern(ms[42], r#"^\bdo\s+"#@, Token::Do)
    &&& is_keyword(ms[43], "continue"@, Token::Continue)
    &&& is_keyword(ms[44], "break"@, Token::Break)
    &&& is_keyword(ms[45], "=="@, Token::DoubleEquals)
    &&& is_keyword(ms[46], "!="@, Token::NotEquals)
    &&& is_keyword(ms[47], "+"@, Token::Plus)
    &&& is_keyword(ms[48], "-"@, Token::Minus)
    &&& is_keyword(ms[49], "*"@, Token::Mul)
    &&& is_keyword(ms[50], "/"@, Token::Div)
    &&& is_keyword(ms[51], "^"@, Token::Pow)
    &&& is_keyword(ms[52], "<="@, Token::Le)
    &&& is_keyword(ms[53], ">="@, Token::Ge)
    &&& is_keyword(ms[54], "<"@, Token::Lt)
    &&& is_keyword(ms[55], ">"@, Token::Gt)
    &&& is_keyword(ms[56], "not"@, Token::Not)
    &&& is_keyword(ms[57], "and "@, Token::And)
    &&& is_keyword(ms[58], "or "@, Token::Or)
    &&& is_keyword(ms[59], "="@, Token::SingleEquals)
    &&& is_pattern(ms[60], "^[a-zA-Z0-9_]+"@, Token::Identifier)
}

/// The lexer of the language over `input`.
#[verifier::rlimit(100)]
pub fn get_lexer(input: &str) -> (r: Lexer<Token>)
    ensures
        r.wf(),
        language_matchers(r.spec_matchers()),
        r.spec_source() == input@,
        r.spec_index() == 0,
        r.spec_cursor() == (crate::lexer::Cursor { position: 0, line: 1, column: 1 }),
        !r.spec_options().ignore_whitespace,
        r.spec_run() == crate::lexer::initial_run(r.spec_matchers(), input@, false),
        r.spec_total() == crate::lexer::sat(crate::lexer::text_bytes(input@) as int),
{
    let mut tokens: Vec<Matcher<Token>> = Vec::new();
    tokens.push(skipped(r#"^\s+"#));
    tokens.push(skipped(r#"^--[^\n]*"#));
    tokens.push(keyword("function", Token::Function));
    tokens.push(keyword("constructor", Token::Constructor));
    tokens.push(keyword("enum", Token::Enum));
    tokens.push(keyword("class", Token::Class));
    tokens.push(keyword("module", Token::Module));
    tokens.push(keyword("import", Token::Import));
    tokens.push(keyword("return", Token::Return));
    tokens.push(keyword("end", Token::End));
    tokens.push(keyword("var ", Token::Var));
    tokens.push(keyword("const ", Token::Constant));
    tokens.push(keyword("as ", Token::As));
    tokens.push(keyword("attribute ", Token::Attribute));
    tokens.push(keyword("new ", Token::New));
    tokens.push(keyword("(", Token::LeftParenthesis));
    tokens.push(keyword(")", Token::RightParenthesis));
    tokens.push(keyword("[", Token::LeftSquareBracket));
    tokens.push(keyword("]", Token::RightSquareBracket));
    tokens.push(keyword("{", Token::LeftCurlyBracket));
    tokens.push(keyword("}", Token::RightCurlyBracket));
    tokens.push(keyword(",", Token::Comma));
    tokens.push(keyword(".", Token::Dot));
    tokens.push(keyword("::", Token::DoubleColon));
    tokens.push(keyword(":", Token::Colon));
    tokens.push(pattern(r#"^[0-9]+\.[0-9]+"#, Token::Float));
    tokens.push(pattern("^[-]?[0-9]+", Token::Integer));
    tokens.push(pattern(r#"^"[^"]*""#, Token::String));
    tokens.push(keyword("true", Token::Boolean));
    tokens.push(keyword("false", Token::Boolean));
    tokens.push(keyword("null", Token::Null));
    tokens.push(keyword("if", Token::If));
    tokens.push(keyword("then", Token::Then));
    tokens.push(keyword("else", Token::Else));
    tokens.push(keyword("match", Token::Match));
    tokens.push(keyword("case", Token::Case));
    tokens.push(keyword("default", Token::Default));
    tokens.push(keyword("while ", Token::While));
    tokens.push(keyword("for ", Token::For));
    tokens.push(keyword("to ", Token::To));
    tokens.push(keyword("in ", Token::In));
    tokens.push(keyword("step ", Token::Step));
    tokens.push(pattern(r#"^\bdo\s+"#, Token::Do));
    tokens.push(keyword("continue", Token::Continue));
    tokens.push(keyword("break", Token::Break));
    tokens.push(keyword("==", Token::DoubleEquals));
    tokens.push(keyword("!=", Token::NotEquals));
    tokens.push(keyword("+", Token::Plus));
    tokens.push(keyword("-", Token::Minus));
    tokens.push(keyword("*", Token::Mul));
    tokens.push(keyword("/", Token::Div));
    tokens.push(keyword("^", Token::Pow));
    tokens.push(keyword("<=", Token::Le));
    tokens.push(keyword(">=", Token::Ge));
    tokens.push(keyword("<", Token::Lt));
    tokens.push(keyword(">", Token::Gt));
    tokens.push(keyword("not", Token::Not));
    tokens.push(keyword("and ", Token::And));
    tokens.push(keyword("or ", Token::Or));
    tokens.push(keyword("=", Token::SingleEquals));
    tokens.push(pattern("^[a-zA-Z0-9_]+", Token::Identifier));
    Lexer::new(input, tokens, LexerOptions::default())
}

} // verus!
