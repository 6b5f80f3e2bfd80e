//! The errors that a run can end in, and how a failed match of the grammar
//! becomes one of them.
use vstd::prelude::*;
use vstd::string::StringExecFns;
use crate::parser::{ErrorVariant, LineColLocation, Rule, RuleError};
use crate::span::SourceSpan;

verus! {

/// Why a text is not a non-negative whole number.
#[derive(Debug, Clone, Copy, PartialEq, Eq, Structural)]
pub enum IntErrorKind {
    /// The text is empty.
    Empty,
    /// The text holds a character that is not a digit, or only a sign.
    InvalidDigit,
    /// The number is too large for an index.
    PosOverflow,
}

/// Why a text is not a number.
#[derive(Debug, Clone, Copy, PartialEq, Eq, Structural)]
pub enum FloatErrorKind {
    /// The text is empty.
    Empty,
    /// The text is not a number.
    Invalid,
}

/// What a run can end in. The errors that point into the source carry the
/// text and the spans that they point at; a span is missing where a node has
/// no location.
#[derive(Debug, PartialEq, Eq)]
pub enum QKaledioscopeError {
    /// A file could not be read.
    IOError { cause: String, subject: Option<String> },
    ParseIntError(IntErrorKind),
    ParseFloatError(FloatErrorKind),
    /// The source is malformed at `err_span`; the faults found inside that
    /// region are the `causes`.
    ParseError {
        description: String,
        src: String,
        err_span: Option<SourceSpan>,
        causes: Vec<QKaledioscopeError>,
    },
    /// Two top-level elements have the same name.
    DuplicateNameError {
        name: String,
        src: String,
        old_span: Option<SourceSpan>,
        new_span: Option<SourceSpan>,
    },
    /// The program has no function `qmain`.
    NoQMainError,
    /// A function that was declared but never defined has been called.
    LinkingError { name: String, src: String, span: Option<SourceSpan> },
    /// A value is not of the type that its place asks for.
    TypeError {
        expected: String,
        actual: String,
        src: String,
        expr_span: Option<SourceSpan>,
        type_span: Option<SourceSpan>,
    },
    /// A name was used that nothing in the current frame binds.
    UndefinedVariableError { name: String, src: String, span: Option<SourceSpan> },
    /// A function was called that the function table does not hold.
    UndefinedFunctionError { name: String, src: String, span: Option<SourceSpan> },
    /// A call stands where a value is needed, and returned none.
    MissingValueError { name: String, src: String, span: Option<SourceSpan> },
    /// The limit of the run was reached: each call and each round of a loop
    /// goes on with a limit that is lower by one.
    StepLimitError,
    JsonError(String),
}

/// The view of an error.
pub enum ErrorView {
    IOError { cause: Seq<char>, subject: Option<Seq<char>> },
    ParseIntError(IntErrorKind),
    ParseFloatError(FloatErrorKind),
    ParseError {
        description: Seq<char>,
        src: Seq<char>,
        err_span: Option<SourceSpan>,
        causes: Seq<ErrorView>,
    },
    DuplicateNameError {
        name: Seq<char>,
        src: Seq<char>,
        old_span: Option<SourceSpan>,
        new_span: Option<SourceSpan>,
    },
    NoQMainError,
    LinkingError { name: Seq<char>, src: Seq<char>, span: Option<SourceSpan> },
    TypeError {
        expected: Seq<char>,
        actual: Seq<char>,
        src: Seq<char>,
        expr_span: Option<SourceSpan>,
        type_span: Option<SourceSpan>,
    },
    UndefinedVariableError { name: Seq<char>, src: Seq<char>, span: Option<SourceSpan> },
    UndefinedFunctionError { name: Seq<char>, src: Seq<char>, span: Option<SourceSpan> },
    MissingValueError { name: Seq<char>, src: Seq<char>, span: Option<SourceSpan> },
    StepLimitError,
    JsonError(Seq<char>),
}

/// The views of a sequence of errors.
pub open spec fn errors_view(errors: Vec<QKaledioscopeError>) -> Seq<ErrorView>
    decreases errors,
{
    Seq::new(
        errors.len() as nat,
        |i: int|
            if 0 <= i < errors.len() {
                errors[i]@
            } else {
                arbitrary()
            },
    )
}

impl View for QKaledioscopeError {
    type V = ErrorView;

    open spec fn view(&self) -> ErrorView
        decreases self,
    {
        match self {
            QKaledioscopeError::IOError { cause, subject } => ErrorView::IOError {
                cause: cause@,
                subject: match subject {
                    Some(subject) => Some(subject@),
                    None => None,
                },
            },
            QKaledioscopeError::ParseIntError(kind) => ErrorView::ParseIntError(*kind),
            QKaledioscopeError::ParseFloatError(kind) => ErrorView::ParseFloatError(*kind),
            QKaledioscopeError::ParseError { description, src, err_span, causes } => {
                ErrorView::ParseError {
                    description: description@,
                    src: src@,
                    err_span: *err_span,
                    causes: errors_view(*causes),
                }
            },
            QKaledioscopeError::DuplicateNameError { name, src, old_span, new_span } => {
                ErrorView::DuplicateNameError {
                    name: name@,
                    src: src@,
                    old_span: *old_span,
                    new_span: *new_span,
                }
            },
            QKaledioscopeError::NoQMainError => ErrorView::NoQMainError,
            QKaledioscopeError::LinkingError { name, src, span } => ErrorView::LinkingError {
                name: name@,
                src: src@,
                span: *span,
            },
            QKaledioscopeError::TypeError { expected, actual, src, expr_span, type_span } => {
                ErrorView::TypeError {
                    expected: expected@,
                    actual: actual@,
                    src: src@,
                    expr_span: *expr_span,
                    type_span: *type_span,
                }
            },
            QKaledioscopeError::UndefinedVariableError { name, src, span } => {
                ErrorView::UndefinedVariableError { name: name@, src: src@, span: *span }
            },
            QKaledioscopeError::UndefinedFunctionError { name, src, span } => {
                ErrorView::UndefinedFunctionError { name: name@, src: src@, span: *span }
            },
            QKaledioscopeError::MissingValueError { name, src, span } => {
                ErrorView::MissingValueError { name: name@, src: src@, span: *span }
            },
            QKaledioscopeError::StepLimitError => ErrorView::StepLimitError,
            QKaledioscopeError::JsonError(message) => ErrorView::JsonError(message@),
        }
    }
}

/// The syntax error that marks the region from `span.0` up to `span.1` with
/// a description.
pub open spec fn parse_error(
    source: Seq<char>,
    description: Seq<char>,
    span: (usize, usize),
    causes: Seq<ErrorView>,
) -> ErrorView {
    ErrorView::ParseError {
        description,
        src: source,
        err_span: SourceSpan::spec_between(span.0, span.1),
        causes,
    }
}

/// A syntax error at the region of the source between the bounds `span`,
/// with the faults found inside it as its causes.
pub fn wrong_rule_as_parse_error(
    source: &str,
    description: &str,
    span: (usize, usize),
    causes: Vec<QKaledioscopeError>,
) -> (error: QKaledioscopeError)
    ensures
        error@ == parse_error(source@, description@, span, errors_view(causes)),
{
    QKaledioscopeError::ParseError {
        description: String::from_str(description),
        causes,
        src: String::from_str(source),
        err_span: SourceSpan::between(span.0, span.1),
    }
}

/// The names of the rules, separated by a comma and a space.
pub open spec fn rules_list(rules: Seq<Rule>) -> Seq<char>
    decreases rules.len(),
{
    if rules.len() == 0 {
        Seq::empty()
    } else if rules.len() == 1 {
        rules[0].spec_name()
    } else {
        rules_list(rules.drop_last()) + ", "@ + rules.last().spec_name()
    }
}

/// The rules as a list in square brackets.
pub open spec fn rules_text(rules: Seq<Rule>) -> Seq<char> {
    "["@ + rules_list(rules) + "]"@
}

/// The rules as a list in square brackets, their names separated by a comma
/// and a space.
pub fn format_rules(rules: &Vec<Rule>) -> (text: String)
    ensures
        text@ == rules_text(rules@),
{
    let mut text = String::from_str("[");
    let mut i: usize = 0;
    while i < rules.len()
        invariant
            i <= rules.len(),
            text@ == "["@ + rules_list(rules@.take(i as int)),
        decreases rules.len() - i,
    {
        let ghost before = rules@.take(i as int);
        let ghost after = rules@.take(i + 1);
        proof {
            assert(after.drop_last() == before);
            assert(after.last() == rules@[i as int]);
        }
        if i > 0 {
            text.append(", ");
        }
        text.append(rules[i].name());
        proof {
            if i == 0 {
                assert(rules_list(before) == Seq::<char>::empty());
                assert(text@ == "["@ + rules_list(after));
            } else {
                assert(text@ == "["@ + (rules_list(before) + ", "@ + rules@[i as int].spec_name()));
            }
        }
        i += 1;
    }
    assert(rules@.take(i as int) == rules@);
    text.append("]");
    text
}

/// What the grammar says of a failed match: the rules it found out of place
/// and those it expected, or the grammar's own message.
pub open spec fn describe(variant: ErrorVariant) -> Seq<char> {
    match variant {
        ErrorVariant::ParsingError { positives, negatives } => {
            if negatives.len() != 0 && positives.len() != 0 {
                "unexpected "@ + rules_text(negatives@) + "; expected "@ + rules_text(positives@)
            } else if negatives.len() != 0 {
                "unexpected "@ + rules_text(negatives@)
            } else if positives.len() != 0 {
                "expected "@ + rules_text(positives@)
            } else {
                "unknown parsing error"@
            }
        },
        ErrorVariant::CustomError { message } => message@,
    }
}

/// The description of a failed match.
pub fn description_of(variant: &ErrorVariant) -> (description: String)
    ensures
        description@ == describe(*variant),
{
    match variant {
        ErrorVariant::ParsingError { positives, negatives } => {
            if negatives.len() != 0 && positives.len() != 0 {
                let mut text = String::from_str("unexpected ");
                text.append(format_rules(negatives).as_str());
                text.append("; expected ");
                text.append(format_rules(positives).as_str());
                text
            } else if negatives.len() != 0 {
                let mut text = String::from_str("unexpected ");
                text.append(format_rules(negatives).as_str());
                text
            } else if positives.len() != 0 {
                let mut text = String::from_str("expected ");
                text.append(format_rules(positives).as_str());
                text
            } else {
                String::from_str("unknown parsing error")
            }
        },
        ErrorVariant::CustomError { message } => message.clone(),
    }
}

/// The byte offset at which `miette` places a line and a column, both counted
/// from 1, in a source text.
pub uninterp spec fn location_offset(source: Seq<char>, line: usize, column: usize) -> usize;

/// Calls `miette::SourceOffset::from_location` and takes the offset out of
/// what it returns. The offset depends on the text, the line and the column
/// alone; nothing more is claimed of it.
#[verifier::external_body]
fn offset_from_location(source: &str, line: usize, column: usize) -> (offset: usize)
    ensures
        offset == location_offset(source@, line, column),
{
    miette::SourceOffset::from_location(source, line, column).offset()
}

/// The region that a failed match points at. A position becomes the one
/// byte at the column behind it; a region runs between the offsets of its two
/// ends. There is no span where the column cannot be stepped, or where the
/// end is placed before the start.
pub open spec fn rule_error_span(source: Seq<char>, line_col: LineColLocation) -> Option<
    SourceSpan,
> {
    match line_col {
        LineColLocation::Pos(pos) => {
            if pos.1 < usize::MAX {
                Some(
                    SourceSpan {
                        offset: location_offset(source, pos.0, (pos.1 + 1) as usize),
                        length: 1,
                    },
                )
            } else {
                None
            }
        },
        LineColLocation::Span(start, end) => SourceSpan::spec_between(
            location_offset(source, start.0, start.1),
            location_offset(source, end.0, end.1),
        ),
    }
}

/// The syntax error for a source text that the grammar did not match: it
/// carries the grammar's description and points at the place of the failure.
pub fn rule_error_as_parse_error(source: &str, error: RuleError) -> (result: QKaledioscopeError)
    ensures
        result@ == (ErrorView::ParseError {
            description: describe(error.variant),
            src: source@,
            err_span: rule_error_span(source@, error.line_col),
            causes: Seq::empty(),
        }),
{
    let description = description_of(&error.variant);
    let span = match error.line_col {
        LineColLocation::Pos(pos) => {
            if pos.1 < usize::MAX {
                Some(
                    SourceSpan {
                        offset: offset_from_location(source, pos.0, 1 + pos.1),
                        length: 1,
                    },
                )
            } else {
                None
            }
        },
        LineColLocation::Span(start, end) => {
            let start = offset_from_location(source, start.0, start.1);
            let end = offset_from_location(source, end.0, end.1);
            SourceSpan::between(start, end)
        },
    };
    let causes: Vec<QKaledioscopeError> = Vec::new();
    assert(errors_view(causes) == Seq::<ErrorView>::empty());
    QKaledioscopeError::ParseError {
        causes,
        description,
        src: String::from_str(source),
        err_span: span,
    }
}

} // verus!
