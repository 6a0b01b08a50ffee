use vstd::prelude::*;

use crate::lexer::LexerError;
use crate::token::Token;

verus! {

/// Where a piece of syntax starts in the source.
#[derive(Clone, Copy, Debug, PartialEq, Eq, Structural)]
pub struct TokenPosition {
    pub line: usize,
    pub column: usize,
}

impl Default for TokenPosition {
    fn default() -> (r: Self)
        ensures
            r == (TokenPosition { line: 0, column: 0 }),
    {
        TokenPosition { line: 0, column: 0 }
    }
}

/// Whether a member can be seen from outside its class.
#[derive(Clone, Copy, Debug, PartialEq, Eq, Structural)]
pub enum Visibility {
    Public,
    Private,
}

/// The syntax tree of a script. A floating-point literal keeps its text.
#[derive(Debug, PartialEq)]
pub enum Syntax {
    Import { position: TokenPosition, path: String },
    Comment { position: TokenPosition, text: String },
    Print { position: TokenPosition, expr: Box<Syntax> },
    Sleep { position: TokenPosition, expr: Box<Syntax> },
    Constructor { position: TokenPosition, input: Vec<Syntax>, body: Vec<Syntax> },
    Function {
        position: TokenPosition,
        function_name: Box<Syntax>,
        is_static: bool,
        parameters: Vec<Syntax>,
        body: Vec<Syntax>,
    },
    Module { position: TokenPosition, module_name: Box<Syntax>, body: Vec<Syntax> },
    Class {
        position: TokenPosition,
        class_name: Box<Syntax>,
        attributes: Vec<Syntax>,
        constructor: Option<Box<Syntax>>,
        methods: Vec<Syntax>,
    },
    Identifier { position: TokenPosition, name: String },
    Variable { position: TokenPosition, name: Box<Syntax>, value: Option<Box<Syntax>> },
    Attribute { position: TokenPosition, name: Box<Syntax>, value: Option<Box<Syntax>> },
    Constant { position: TokenPosition, name: String, value: Box<Syntax> },
    NewObject { position: TokenPosition, target: Box<Syntax>, args: Vec<Syntax> },
    Assign { position: TokenPosition, target: Box<Syntax>, value: Box<Syntax> },
    Null,
    Integer(i64),
    Float(String),
    Bool(bool),
    String(String),
    Array(Vec<Syntax>),
    Dictionary(Vec<(String, Syntax)>),
    Enum { position: TokenPosition, name: Box<Syntax>, items: Vec<Syntax> },
    Not { expr: Box<Syntax> },
    And { expr1: Box<Syntax>, expr2: Box<Syntax> },
    Or { expr1: Box<Syntax>, expr2: Box<Syntax> },
    Eq { expr1: Box<Syntax>, expr2: Box<Syntax> },
    Ne { expr1: Box<Syntax>, expr2: Box<Syntax> },
    Lt { expr1: Box<Syntax>, expr2: Box<Syntax> },
    Le { expr1: Box<Syntax>, expr2: Box<Syntax> },
    Gt { expr1: Box<Syntax>, expr2: Box<Syntax> },
    Ge { expr1: Box<Syntax>, expr2: Box<Syntax> },
    Add { expr1: Box<Syntax>, expr2: Box<Syntax> },
    Sub { expr1: Box<Syntax>, expr2: Box<Syntax> },
    Mul { expr1: Box<Syntax>, expr2: Box<Syntax> },
    Div { expr1: Box<Syntax>, expr2: Box<Syntax> },
    Pow { expr1: Box<Syntax>, expr2: Box<Syntax> },
    IfChain { position: TokenPosition, arms: Vec<Syntax> },
    If { position: TokenPosition, condition: Box<Syntax>, body: Vec<Syntax> },
    Else { position: TokenPosition, body: Vec<Syntax> },
    Match { position: TokenPosition, expr: Box<Syntax>, arms: Vec<Syntax>, default: Option<Box<Syntax>> },
    Case { position: TokenPosition, condition: Box<Syntax>, body: Vec<Syntax> },
    DefaultCase { position: TokenPosition, body: Vec<Syntax> },
    WhileLoop { position: TokenPosition, condition: Box<Syntax>, body: Vec<Syntax> },
    ForEach { position: TokenPosition, ident: Box<Syntax>, collection: Box<Syntax>, body: Vec<Syntax> },
    Range { start: Box<Syntax>, end: Box<Syntax>, step: Option<Box<Syntax>> },
    Break { position: TokenPosition },
    Continue { position: TokenPosition },
    Call { position: TokenPosition, target: Box<Syntax>, args: Vec<Syntax> },
    MemberAccess { position: TokenPosition, target: Box<Syntax>, index: Box<Syntax> },
    StaticAccess { position: TokenPosition, target: Box<Syntax>, index: Box<Syntax> },
    ArrayAccess { position: TokenPosition, target: Box<Syntax>, index: Box<Syntax> },
    Return { position: TokenPosition, expr: Option<Box<Syntax>> },
}

/// Why an identifier is not acceptable.
#[derive(Debug, PartialEq)]
pub enum IdentifierError {
    InvalidIdentifier(String),
    IdentifierStartsWithNumber(String),
}

/// A syntax error and where it is.
#[derive(Debug, PartialEq)]
pub struct ParserError {
    pub error: ParserErrorType,
    pub position: TokenPosition,
}

#[derive(Debug, PartialEq)]
pub enum ParserErrorType {
    InvalidIdentifier(String),
    InvalidParameterName { name: String, reason: IdentifierError },
    InvalidFunctionName { name: String, reason: IdentifierError },
    UnrecognizedToken(String),
    InvalidVariableName { name: String, reason: IdentifierError },
    IdentifierStartsWithNumber(String),
    UnexpectedToken { expected: Token, found: Token },
    UnwantedToken(Token),
    InvalidArgumentName { name: String, reason: IdentifierError },
    UnexpectedParserError(LexerError),
    NoMatchFound,
    UnexpectedError,
    InvalidLiteral(String),
    InvalidExpressionItem(String),
    InvalidChainedItem(String),
    UnexpectedEnd,
    InvalidArrayAccess,
    InvalidMemberAccess,
    InvalidStaticAccess,
    InvalidNewObject,
    InvalidMapItem(String),
}

/// A code generation error and where it is.
#[derive(Debug, PartialEq)]
pub struct CompilerError {
    pub error: CompilerErrorType,
    pub position: TokenPosition,
}

#[derive(Debug, PartialEq)]
pub enum CompilerErrorType {
    ParseError(ParserErrorType),
    NoTokens,
    GlobalNotFound(String),
    VariableNotDeclared(String),
    VariableAlreadyDeclared(String),
    UnableToAssign,
    UnknownParameterToken,
    FeatureNotImplemented,
    UnableToCompile,
    UnableToCompileScript,
    IfStatementInvalid,
    UnrecognizedItem,
    BreakOutsideOfLoop,
    ContinueOutsideOfLoop,
    InvalidChainItem,
    InvalidDefaultCase,
    InvalidMatchArm,
    InvalidImportExpression(String),
    InvalidImportPath(String),
    UnableToImportFile(String),
    UnknownError(String),
    UnableToGetWorkingDirectory,
    UnableToReadFile(String),
    UnableToParseTokens,
    ExpectedBlockEnd,
    NothingToParse,
    InvalidImportReference { position: TokenPosition, name: String },
    InvalidIdentifier { position: TokenPosition, name: String },
    NoInstructionsGenerated,
    NoTokensGenerated,
    UnableToCompileFunction(String),
    UnableToCompileParameterVariable(Syntax),
    UnableToCompileChainItem(Syntax),
    UnableToAssignItem(Box<Syntax>),
    UnableToCreateNewObjectFrom(Box<Syntax>),
    UnableToIterateOver(Box<Syntax>),
    NoIteratorJumpsFound,
    InvalidExpressionItem(Box<Syntax>),
    InvalidIteratorVariable,
    InvalidMatch,
}

/// A warning of the compiler.
#[derive(Clone, Copy, Debug, PartialEq, Eq, Structural)]
pub enum CompilerWarning {
    NothingToImport,
}

/// A warning about a script, with where it is.
#[derive(Clone, Copy, Debug, PartialEq, Eq, Structural)]
pub enum ScriptWarning {
    CompilerWarning { warning: CompilerWarning, line: usize, column: usize },
}

} // verus!
