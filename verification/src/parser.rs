//! What the grammar hands to the syntax tree builder: a tree of nodes, each
//! tagged with the rule that matched it, or the account of a failed match.
use vstd::prelude::*;
use crate::error::{ErrorView, QKaledioscopeError, describe, rule_error_as_parse_error, rule_error_span};

verus! {

/// The rules of the grammar.
#[allow(non_camel_case_types)]
#[derive(Debug, Clone, Copy, PartialEq, Eq, Hash, Structural)]
pub enum Rule {
    /// The end of the input.
    EOI,
    WHITESPACE,
    COMMENT,
    program,
    declaration,
    definition,
    prototype,
    arg_decls,
    arg_decl,
    return_decl,
    qubit_type,
    number_type,
    bit_type,
    Ident,
    variable_declaration,
    assignment,
    call_expr,
    if_stmt,
    if_block,
    else_block,
    while_stmt,
    return_stmt,
    TrueKeyword,
    FalseKeyword,
    number_literal,
    qubit_literal,
}

impl Rule {
    /// The rule's name, as it is written in the grammar.
    pub open spec fn spec_name(self) -> Seq<char> {
        match self {
            Rule::EOI => "EOI"@,
            Rule::WHITESPACE => "WHITESPACE"@,
            Rule::COMMENT => "COMMENT"@,
            Rule::program => "program"@,
            Rule::declaration => "declaration"@,
            Rule::definition => "definition"@,
            Rule::prototype => "prototype"@,
            Rule::arg_decls => "arg_decls"@,
            Rule::arg_decl => "arg_decl"@,
            Rule::return_decl => "return_decl"@,
            Rule::qubit_type => "qubit_type"@,
            Rule::number_type => "number_type"@,
            Rule::bit_type => "bit_type"@,
            Rule::Ident => "Ident"@,
            Rule::variable_declaration => "variable_declaration"@,
            Rule::assignment => "assignment"@,
            Rule::call_expr => "call_expr"@,
            Rule::if_stmt => "if_stmt"@,
            Rule::if_block => "if_block"@,
            Rule::else_block => "else_block"@,
            Rule::while_stmt => "while_stmt"@,
            Rule::return_stmt => "return_stmt"@,
            Rule::TrueKeyword => "TrueKeyword"@,
            Rule::FalseKeyword => "FalseKeyword"@,
            Rule::number_literal => "number_literal"@,
            Rule::qubit_literal => "qubit_literal"@,
        }
    }

    /// The rule's name, as it is written in the grammar.
    pub fn name(self) -> (name: &'static str)
        ensures
            name@ == self.spec_name(),
    {
        match self {
            Rule::EOI => "EOI",
            Rule::WHITESPACE => "WHITESPACE",
            Rule::COMMENT => "COMMENT",
            Rule::program => "program",
            Rule::declaration => "declaration",
            Rule::definition => "definition",
            Rule::prototype => "prototype",
            Rule::arg_decls => "arg_decls",
            Rule::arg_decl => "arg_decl",
            Rule::return_decl => "return_decl",
            Rule::qubit_type => "qubit_type",
            Rule::number_type => "number_type",
            Rule::bit_type => "bit_type",
            Rule::Ident => "Ident",
            Rule::variable_declaration => "variable_declaration",
            Rule::assignment => "assignment",
            Rule::call_expr => "call_expr",
            Rule::if_stmt => "if_stmt",
            Rule::if_block => "if_block",
            Rule::else_block => "else_block",
            Rule::while_stmt => "while_stmt",
            Rule::return_stmt => "return_stmt",
            Rule::TrueKeyword => "TrueKeyword",
            Rule::FalseKeyword => "FalseKeyword",
            Rule::number_literal => "number_literal",
            Rule::qubit_literal => "qubit_literal",
        }
    }
}

/// A node of the tree that the grammar produced for a source text.
#[derive(Debug, PartialEq, Eq)]
pub struct ParseNode {
    /// The rule that matched.
    pub rule: Rule,
    /// The byte offset in the source where the match starts.
    pub start: usize,
    /// The byte offset in the source where the match ends.
    pub end: usize,
    /// The matched text.
    pub text: String,
    /// The matched text read as a double-precision number, as its IEEE 754
    /// bit pattern; `None` where the text is not a number. Whoever builds the
    /// tree reads the number: the builder of the syntax tree computes with
    /// integers only.
    pub number: Option<u64>,
    /// The matches of the rules inside this one, in source order.
    pub children: Vec<ParseNode>,
}

/// Why the grammar did not match.
#[derive(Debug, PartialEq, Eq)]
pub enum ErrorVariant {
    /// The rules that were expected (`positives`) and those that were found
    /// where they may not stand (`negatives`).
    ParsingError { positives: Vec<Rule>, negatives: Vec<Rule> },
    CustomError { message: String },
}

/// Where the grammar did not match: a position, or the two ends of a region,
/// each as a line and a column counted from 1.
#[derive(Debug, Clone, Copy, PartialEq, Eq)]
pub enum LineColLocation {
    Pos((usize, usize)),
    Span((usize, usize), (usize, usize)),
}

/// The account of a source text that the grammar did not match.
#[derive(Debug, PartialEq, Eq)]
pub struct RuleError {
    pub variant: ErrorVariant,
    pub line_col: LineColLocation,
}

/// What the grammar made of a source text, with a failed match turned into
/// the syntax error that reports it.
pub fn parse(source: &str, outcome: Result<Vec<ParseNode>, RuleError>) -> (pairs: Result<
    Vec<ParseNode>,
    QKaledioscopeError,
>)
    ensures
        match outcome {
            Ok(nodes) => pairs == Ok::<Vec<ParseNode>, QKaledioscopeError>(nodes),
            Err(error) => pairs is Err && pairs->Err_0@ == (ErrorView::ParseError {
                description: describe(error.variant),
                src: source@,
                err_span: rule_error_span(source@, error.line_col),
                causes: Seq::empty(),
            }),
        },
{
    match outcome {
        Ok(nodes) => Ok(nodes),
        Err(error) => Err(rule_error_as_parse_error(source, error)),
    }
}

} // verus!
