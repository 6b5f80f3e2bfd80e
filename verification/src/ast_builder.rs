//! From the grammar's tree of nodes to the typed, located syntax tree.
//!
//! Each kind of node of the syntax tree has a spec function that says which
//! node, or which syntax error, a grammar node stands for, and a function
//! that computes it. The faults of all the members of a block are reported
//! together, as the causes of one error.
use vstd::prelude::*;
use vstd::string::{StrSliceExecFns, StringExecFns};
use crate::ast::{
    ArgumentDeclaration, ArgumentDeclarationView, Expression, ExpressionView, FileElement,
    FileElementView, Identifier, Located, Program, ProgramView, Prototype, PrototypeView,
    Statement, StatementView, Type, element_located, expression_located, expressions_view,
    program_located, prototype_located, statement_located, statements_view,
};
use crate::error::{
    ErrorView, FloatErrorKind, IntErrorKind, QKaledioscopeError, describe, errors_view,
    parse_error, rule_error_as_parse_error, rule_error_span, wrong_rule_as_parse_error,
};
use crate::parser::{ParseNode, Rule, RuleError};
use crate::util::{errors_of, lemma_values_of_all_ok, try_collect, values_of};

verus! {

/// The view of an outcome: that of the value, or that of the error.
pub open spec fn result_view<T: View>(result: Result<T, QKaledioscopeError>) -> Result<
    T::V,
    ErrorView,
> {
    match result {
        Ok(value) => Ok(value@),
        Err(error) => Err(error@),
    }
}

/// A value at the place of a grammar node.
pub open spec fn located<T>(pair: ParseNode, value: T) -> Located<T> {
    Located { value, location: Some((pair.start, pair.end)) }
}

/// An outcome whose value, if there is one, is put at the place of a grammar
/// node.
pub open spec fn located_result<T>(pair: ParseNode, result: Result<T, ErrorView>) -> Result<
    Located<T>,
    ErrorView,
> {
    match result {
        Ok(value) => Ok(located(pair, value)),
        Err(error) => Err(error),
    }
}

/// The syntax error, without causes, that marks a grammar node.
pub open spec fn wrong_rule(source: Seq<char>, description: Seq<char>, pair: ParseNode) -> ErrorView {
    parse_error(source, description, (pair.start, pair.end), Seq::empty())
}

/// The outcome of a block: the members, if every one of them was built, and
/// otherwise one error at `span` whose causes are the errors of all the
/// members that were not.
pub open spec fn gathered<T>(
    source: Seq<char>,
    description: Seq<char>,
    span: (usize, usize),
    results: Seq<Result<T, ErrorView>>,
) -> Result<Seq<T>, ErrorView> {
    if errors_of(results).len() > 0 {
        Err(parse_error(source, description, span, errors_of(results)))
    } else {
        Ok(values_of(results))
    }
}

/// The views of the items, one for one.
pub open spec fn views_of<T: View>(items: Seq<T>) -> Seq<T::V> {
    Seq::new(items.len(), |i: int| items[i]@)
}

/// The views of the outcomes, one for one.
pub open spec fn result_views<T: View>(results: Seq<Result<T, QKaledioscopeError>>) -> Seq<
    Result<T::V, ErrorView>,
> {
    Seq::new(results.len(), |i: int| result_view(results[i]))
}

/// The syntax error, without causes, that marks a grammar node.
fn wrong_rule_at(source: &str, description: &str, pair: &ParseNode) -> (error: QKaledioscopeError)
    ensures
        error@ == wrong_rule(source@, description@, *pair),
{
    let causes: Vec<QKaledioscopeError> = Vec::new();
    assert(errors_view(causes) == Seq::<ErrorView>::empty());
    wrong_rule_as_parse_error(source, description, (pair.start, pair.end), causes)
}

/// Gathers the outcomes of the members of a block into the outcome of the
/// block.
fn gather<T: View>(
    source: &str,
    description: &str,
    span: (usize, usize),
    results: Vec<Result<T, QKaledioscopeError>>,
) -> (block: Result<Vec<T>, QKaledioscopeError>)
    ensures
        match block {
            Ok(members) => gathered(source@, description@, span, result_views(results@)) == Ok::<
                Seq<T::V>,
                ErrorView,
            >(views_of(members@)),
            Err(error) => gathered(source@, description@, span, result_views(results@)) == Err::<
                Seq<T::V>,
                ErrorView,
            >(error@),
        },
{
    proof {
        crate::util::lemma_collect_mapped(
            results@,
            result_views(results@),
            |value: T| value@,
            |error: QKaledioscopeError| error@,
        );
    }
    match try_collect(results) {
        Ok(members) => {
            assert(views_of(members@) == members@.map_values(|value: T| value@));
            Ok(members)
        },
        Err(errors) => {
            assert(errors_view(errors) == errors@.map_values(|error: QKaledioscopeError| error@));
            Err(wrong_rule_as_parse_error(source, description, span, errors))
        },
    }
}

/// The value of a run of decimal digits, where it fits an index.
pub open spec fn digits_value(digits: Seq<char>) -> Result<usize, IntErrorKind>
    decreases digits.len(),
{
    if digits.len() == 0 {
        Ok(0)
    } else {
        match digits_value(digits.drop_last()) {
            Err(kind) => Err(kind),
            Ok(value) => {
                let digit = digits.last();
                if !('0' <= digit <= '9') {
                    Err(IntErrorKind::InvalidDigit)
                } else if value * 10 + (digit as int - '0' as int) > usize::MAX {
                    Err(IntErrorKind::PosOverflow)
                } else {
                    Ok((value * 10 + (digit as int - '0' as int)) as usize)
                }
            },
        }
    }
}

/// The index that a text denotes: decimal digits, with a plus sign in front
/// of them or none.
pub open spec fn index_of(text: Seq<char>) -> Result<usize, IntErrorKind> {
    if text.len() == 0 {
        Err(IntErrorKind::Empty)
    } else if text[0] == '+' || text[0] == '-' {
        if text.len() == 1 || text[0] == '-' {
            Err(IntErrorKind::InvalidDigit)
        } else {
            digits_value(text.skip(1))
        }
    } else {
        digits_value(text)
    }
}

/// The characters of `text` from the one at `from` on.
pub open spec fn text_from(text: Seq<char>, from: int) -> Seq<char> {
    if 0 <= from <= text.len() {
        text.skip(from)
    } else {
        Seq::empty()
    }
}

/// Reads the characters of `text` from the one at `from` on as an index.
pub fn parse_index(text: &str, from: usize) -> (index: Result<usize, IntErrorKind>)
    ensures
        index == index_of(text_from(text@, from as int)),
{
    let len = text.unicode_len();
    if from >= len {
        return Err(IntErrorKind::Empty);
    }
    let ghost digits = text@.skip(from as int);
    let first = text.get_char(from);
    let mut i: usize = from;
    if first == '+' || first == '-' {
        if len - from == 1 || first == '-' {
            return Err(IntErrorKind::InvalidDigit);
        }
        i = from + 1;
    }
    let start = i;
    let ghost run = text@.skip(start as int);
    assert(run == if start == from { digits } else { digits.skip(1) });
    let mut value: usize = 0;
    assert(run.take(0) == Seq::<char>::empty());
    while i < len
        invariant
            start <= i <= len,
            len == text@.len(),
            run == text@.skip(start as int),
            index_of(text_from(text@, from as int)) == digits_value(run),
            digits_value(run.take(i - start)) == Ok::<usize, IntErrorKind>(value),
        decreases len - i,
    {
        let c = text.get_char(i);
        proof {
            let next = run.take(i - start + 1);
            assert(next.drop_last() == run.take(i - start));
            assert(next.last() == c);
            if !('0' <= c <= '9') || value * 10 + (c as int - '0' as int) > usize::MAX {
                // An error at one digit is the error of every longer run.
                lemma_digits_value_error(run, i - start + 1);
            }
        }
        if !('0' <= c && c <= '9') {
            return Err(IntErrorKind::InvalidDigit);
        }
        let digit: usize = (c as u32 - '0' as u32) as usize;
        if value > (usize::MAX - digit) / 10 {
            return Err(IntErrorKind::PosOverflow);
        }
        value = value * 10 + digit;
        i += 1;
    }
    assert(run.take(i - start) == run);
    Ok(value)
}

/// A run of digits that has a prefix without a value has none itself, for
/// the same reason.
pub proof fn lemma_digits_value_error(digits: Seq<char>, n: int)
    requires
        0 <= n <= digits.len(),
        digits_value(digits.take(n)) is Err,
    ensures
        digits_value(digits) == digits_value(digits.take(n)),
    decreases digits.len() - n,
{
    if n == digits.len() {
        assert(digits.take(n) == digits);
    } else {
        assert(digits.take(n + 1).drop_last() == digits.take(n));
        lemma_digits_value_error(digits, n + 1);
    }
}

/// The name that a grammar node stands for.
pub open spec fn identifier_of(source: Seq<char>, pair: ParseNode) -> Result<Seq<char>, ErrorView> {
    if pair.rule == Rule::Ident {
        Ok(pair.text@)
    } else {
        Err(wrong_rule(source, "Expected identifier"@, pair))
    }
}

/// The name, with its place, that the member `i` of a grammar node stands
/// for. A node that has no such member is itself at fault.
pub open spec fn identifier_at(source: Seq<char>, parent: ParseNode, i: int) -> Result<
    Located<Seq<char>>,
    ErrorView,
> {
    if 0 <= i < parent.children.len() {
        located_result(parent.children[i], identifier_of(source, parent.children[i]))
    } else {
        Err(wrong_rule(source, "Expected identifier"@, parent))
    }
}

impl Identifier {
    /// Builds a name from a grammar node of the rule for names.
    pub fn try_parse_raw(source: &str, pair: &ParseNode) -> (name: Result<
        Identifier,
        QKaledioscopeError,
    >)
        ensures
            result_view(name) == identifier_of(source@, *pair),
    {
        match pair.rule {
            Rule::Ident => Ok(Identifier(pair.text.clone())),
            _ => Err(wrong_rule_at(source, "Expected identifier", pair)),
        }
    }

    /// Builds a name and puts it at the place of its grammar node.
    pub fn try_parse(source: &str, pair: &ParseNode) -> (name: Result<
        Located<Identifier>,
        QKaledioscopeError,
    >)
        ensures
            result_view(name) == located_result(*pair, identifier_of(source@, *pair)),
    {
        match Identifier::try_parse_raw(source, pair) {
            Ok(raw) => Ok(Located { value: raw, location: Some((pair.start, pair.end)) }),
            Err(error) => Err(error),
        }
    }

    /// Builds the name that is the member `i` of a grammar node.
    pub fn try_parse_at(source: &str, parent: &ParseNode, i: usize) -> (name: Result<
        Located<Identifier>,
        QKaledioscopeError,
    >)
        ensures
            result_view(name) == identifier_at(source@, *parent, i as int),
    {
        if i < parent.children.len() {
            Identifier::try_parse(source, &parent.children[i])
        } else {
            Err(wrong_rule_at(source, "Expected identifier", parent))
        }
    }
}

/// The type that a grammar node stands for.
pub open spec fn type_of(source: Seq<char>, pair: ParseNode) -> Result<Type, ErrorView> {
    match pair.rule {
        Rule::qubit_type => Ok(Type::Qubit),
        Rule::number_type => Ok(Type::Number),
        Rule::bit_type => Ok(Type::Bit),
        _ => Err(wrong_rule(source, "Expected a valid type"@, pair)),
    }
}

/// The type, with its place, that the member `i` of a grammar node stands
/// for.
pub open spec fn type_at(source: Seq<char>, parent: ParseNode, i: int) -> Result<
    Located<Type>,
    ErrorView,
> {
    if 0 <= i < parent.children.len() {
        located_result(parent.children[i], type_of(source, parent.children[i]))
    } else {
        Err(wrong_rule(source, "Expected a valid type"@, parent))
    }
}

impl Type {
    /// Builds a type from a grammar node of one of the three rules for types.
    pub fn try_parse_raw(source: &str, pair: &ParseNode) -> (type_sig: Result<
        Type,
        QKaledioscopeError,
    >)
        ensures
            result_view(type_sig) == type_of(source@, *pair),
    {
        match pair.rule {
            Rule::qubit_type => Ok(Type::Qubit),
            Rule::number_type => Ok(Type::Number),
            Rule::bit_type => Ok(Type::Bit),
            _ => Err(wrong_rule_at(source, "Expected a valid type", pair)),
        }
    }

    /// Builds a type and puts it at the place of its grammar node.
    pub fn try_parse(source: &str, pair: &ParseNode) -> (type_sig: Result<
        Located<Type>,
        QKaledioscopeError,
    >)
        ensures
            result_view(type_sig) == located_result(*pair, type_of(source@, *pair)),
    {
        match Type::try_parse_raw(source, pair) {
            Ok(raw) => Ok(Located { value: raw, location: Some((pair.start, pair.end)) }),
            Err(error) => Err(error),
        }
    }

    /// Builds the type that is the member `i` of a grammar node.
    pub fn try_parse_at(source: &str, parent: &ParseNode, i: usize) -> (type_sig: Result<
        Located<Type>,
        QKaledioscopeError,
    >)
        ensures
            result_view(type_sig) == type_at(source@, *parent, i as int),
    {
        if i < parent.children.len() {
            Type::try_parse(source, &parent.children[i])
        } else {
            Err(wrong_rule_at(source, "Expected a valid type", parent))
        }
    }
}

/// The parameter that a grammar node stands for: a name, then a type.
pub open spec fn argument_of(source: Seq<char>, pair: ParseNode) -> Result<
    ArgumentDeclarationView,
    ErrorView,
> {
    if pair.rule == Rule::arg_decl {
        match identifier_at(source, pair, 0) {
            Err(error) => Err(error),
            Ok(name) => match type_at(source, pair, 1) {
                Err(error) => Err(error),
                Ok(type_sig) => Ok(ArgumentDeclarationView(name, type_sig)),
            },
        }
    } else {
        Err(wrong_rule(source, "Expected argument declaration"@, pair))
    }
}

/// The outcomes of building a parameter from each member of a grammar node.
pub open spec fn argument_results(source: Seq<char>, parent: ParseNode) -> Seq<
    Result<Located<ArgumentDeclarationView>, ErrorView>,
> {
    Seq::new(
        parent.children.len() as nat,
        |i: int| located_result(parent.children[i], argument_of(source, parent.children[i])),
    )
}

impl ArgumentDeclaration {
    /// Builds a parameter from a grammar node of the rule for parameters.
    pub fn try_parse_raw(source: &str, pair: &ParseNode) -> (argument: Result<
        ArgumentDeclaration,
        QKaledioscopeError,
    >)
        ensures
            result_view(argument) == argument_of(source@, *pair),
    {
        match pair.rule {
            Rule::arg_decl => {
                let name = match Identifier::try_parse_at(source, pair, 0) {
                    Ok(name) => name,
                    Err(error) => { return Err(error); },
                };
                let type_sig = match Type::try_parse_at(source, pair, 1) {
                    Ok(type_sig) => type_sig,
                    Err(error) => { return Err(error); },
                };
                Ok(ArgumentDeclaration(name, type_sig))
            },
            _ => Err(wrong_rule_at(source, "Expected argument declaration", pair)),
        }
    }

    /// Builds a parameter and puts it at the place of its grammar node.
    pub fn try_parse(source: &str, pair: &ParseNode) -> (argument: Result<
        Located<ArgumentDeclaration>,
        QKaledioscopeError,
    >)
        ensures
            result_view(argument) == located_result(*pair, argument_of(source@, *pair)),
    {
        match ArgumentDeclaration::try_parse_raw(source, pair) {
            Ok(raw) => Ok(Located { value: raw, location: Some((pair.start, pair.end)) }),
            Err(error) => Err(error),
        }
    }
}

/// The return type of a prototype: none where the grammar node of the
/// prototype has no third member, and otherwise the type inside that member.
pub open spec fn return_type_of(source: Seq<char>, pair: ParseNode) -> Result<
    Option<Located<Type>>,
    ErrorView,
> {
    if pair.children.len() < 3 {
        Ok(None)
    } else {
        match type_at(source, pair.children[2], 0) {
            Err(error) => Err(error),
            Ok(type_sig) => Ok(Some(type_sig)),
        }
    }
}

/// The prototype that a grammar node stands for: a name, then the list of
/// the parameters, then the return type if there is one. The faults of all
/// the parameters are reported together.
pub open spec fn prototype_of(source: Seq<char>, pair: ParseNode) -> Result<
    PrototypeView,
    ErrorView,
> {
    if pair.rule != Rule::prototype {
        Err(wrong_rule(source, "Expected prototype."@, pair))
    } else {
        match identifier_at(source, pair, 0) {
            Err(error) => Err(error),
            Ok(name) => {
                if pair.children.len() < 2 {
                    Err(wrong_rule(source, "Expected argument declarations"@, pair))
                } else {
                    match gathered(
                        source,
                        "Expected argument declarations"@,
                        (pair.start, pair.end),
                        argument_results(source, pair.children[1]),
                    ) {
                        Err(error) => Err(error),
                        Ok(arguments) => match return_type_of(source, pair) {
                            Err(error) => Err(error),
                            Ok(return_type) => Ok(PrototypeView { name, arguments, return_type }),
                        },
                    }
                }
            },
        }
    }
}

/// The prototype, with its place, that the member `i` of a grammar node
/// stands for.
pub open spec fn prototype_at(source: Seq<char>, parent: ParseNode, i: int) -> Result<
    Located<PrototypeView>,
    ErrorView,
> {
    if 0 <= i < parent.children.len() {
        located_result(parent.children[i], prototype_of(source, parent.children[i]))
    } else {
        Err(wrong_rule(source, "Expected prototype."@, parent))
    }
}

impl Prototype {
    /// Builds a prototype from a grammar node of the rule for prototypes.
    pub fn try_parse_raw(source: &str, pair: &ParseNode) -> (prototype: Result<
        Prototype,
        QKaledioscopeError,
    >)
        ensures
            result_view(prototype) == prototype_of(source@, *pair),
    {
        match pair.rule {
            Rule::prototype => {},
            _ => {
                return Err(wrong_rule_at(source, "Expected prototype.", pair));
            },
        }
        let name = match Identifier::try_parse_at(source, pair, 0) {
            Ok(name) => name,
            Err(error) => { return Err(error); },
        };
        if pair.children.len() < 2 {
            return Err(wrong_rule_at(source, "Expected argument declarations", pair));
        }
        let list = &pair.children[1];
        let mut results: Vec<Result<Located<ArgumentDeclaration>, QKaledioscopeError>> =
            Vec::new();
        let mut i: usize = 0;
        while i < list.children.len()
            invariant
                i <= list.children.len(),
                results@.len() == i,
                forall|j: int|
                    0 <= j < i ==> result_view(#[trigger] results@[j]) == argument_results(
                        source@,
                        *list,
                    )[j],
            decreases list.children.len() - i,
        {
            results.push(ArgumentDeclaration::try_parse(source, &list.children[i]));
            i += 1;
        }
        assert(result_views(results@) =~= argument_results(source@, *list));
        match gather(source, "Expected argument declarations", (pair.start, pair.end), results) {
            Err(error) => Err(error),
            Ok(arguments) => {
                let return_type = if pair.children.len() < 3 {
                    None
                } else {
                    match Type::try_parse_at(source, &pair.children[2], 0) {
                        Ok(type_sig) => Some(type_sig),
                        Err(error) => { return Err(error); },
                    }
                };
                let prototype = Prototype { name, arguments, return_type };
                assert(prototype@.arguments =~= views_of(arguments@));
                Ok(prototype)
            },
        }
    }

    /// Builds a prototype and puts it at the place of its grammar node.
    pub fn try_parse(source: &str, pair: &ParseNode) -> (prototype: Result<
        Located<Prototype>,
        QKaledioscopeError,
    >)
        ensures
            result_view(prototype) == located_result(*pair, prototype_of(source@, *pair)),
    {
        match Prototype::try_parse_raw(source, pair) {
            Ok(raw) => Ok(Located { value: raw, location: Some((pair.start, pair.end)) }),
            Err(error) => Err(error),
        }
    }

    /// Builds the prototype that is the member `i` of a grammar node.
    pub fn try_parse_at(source: &str, parent: &ParseNode, i: usize) -> (prototype: Result<
        Located<Prototype>,
        QKaledioscopeError,
    >)
        ensures
            result_view(prototype) == prototype_at(source@, *parent, i as int),
    {
        if i < parent.children.len() {
            Prototype::try_parse(source, &parent.children[i])
        } else {
            Err(wrong_rule_at(source, "Expected prototype.", parent))
        }
    }
}

/// The outcomes of building an expression from each member of a grammar
/// node, from the member `from` on.
pub open spec fn expression_results(source: Seq<char>, parent: ParseNode, from: int) -> Seq<
    Result<Located<ExpressionView>, ErrorView>,
>
    decreases parent, 0int,
{
    Seq::new(
        if 0 <= from <= parent.children.len() {
            (parent.children.len() - from) as nat
        } else {
            0
        },
        |i: int|
            if 0 <= from && 0 <= i && from + i < parent.children.len() {
                located_result(
                    parent.children[from + i],
                    expression_of(source, parent.children[from + i]),
                )
            } else {
                arbitrary()
            },
    )
}

/// What is reported of a literal that cannot be read.
pub open spec fn literal_error(
    source: Seq<char>,
    pair: ParseNode,
    kind_of_literal: Seq<char>,
    cause: ErrorView,
) -> ErrorView {
    parse_error(
        source,
        "Could not convert `"@ + pair.text@ + "` to "@ + kind_of_literal,
        (pair.start, pair.end),
        seq![cause],
    )
}

/// The expression that a grammar node stands for.
///
/// A call is a name followed by its arguments, whose faults are reported
/// together. A number literal has the value that the node carries. A qubit
/// literal is a sigil followed by an index.
pub open spec fn expression_of(source: Seq<char>, pair: ParseNode) -> Result<
    ExpressionView,
    ErrorView,
>
    decreases pair, 1int,
{
    match pair.rule {
        Rule::call_expr => match identifier_at(source, pair, 0) {
            Err(error) => Err(error),
            Ok(name) => match gathered(
                source,
                "Expected definition body"@,
                (pair.start, pair.end),
                expression_results(source, pair, 1),
            ) {
                Err(error) => Err(error),
                Ok(arguments) => Ok(ExpressionView::Call(name, arguments)),
            },
        },
        Rule::Ident => Ok(ExpressionView::Identifier(pair.text@)),
        Rule::TrueKeyword => Ok(ExpressionView::BitLiteral(true)),
        Rule::FalseKeyword => Ok(ExpressionView::BitLiteral(false)),
        Rule::number_literal => match pair.number {
            Some(bits) => Ok(ExpressionView::NumberLiteral(bits)),
            None => Err(
                literal_error(
                    source,
                    pair,
                    "number literal"@,
                    ErrorView::ParseFloatError(
                        if pair.text@.len() == 0 {
                            FloatErrorKind::Empty
                        } else {
                            FloatErrorKind::Invalid
                        },
                    ),
                ),
            ),
        },
        Rule::qubit_literal => match index_of(text_from(pair.text@, 1)) {
            Ok(index) => Ok(ExpressionView::QubitLiteral(index)),
            Err(kind) => Err(
                literal_error(source, pair, "qubit literal"@, ErrorView::ParseIntError(kind)),
            ),
        },
        _ => Err(wrong_rule(source, "Expected a valid expression"@, pair)),
    }
}

/// The expression, with its place, that the member `i` of a grammar node
/// stands for.
pub open spec fn expression_at(source: Seq<char>, parent: ParseNode, i: int) -> Result<
    Located<ExpressionView>,
    ErrorView,
> {
    if 0 <= i < parent.children.len() {
        located_result(parent.children[i], expression_of(source, parent.children[i]))
    } else {
        Err(wrong_rule(source, "Expected a valid expression"@, parent))
    }
}

/// The view of the outcome of a block of expressions.
pub open spec fn expressions_result_view(
    result: Result<Vec<Located<Expression>>, QKaledioscopeError>,
) -> Result<Seq<Located<ExpressionView>>, ErrorView> {
    match result {
        Ok(expressions) => Ok(expressions_view(expressions)),
        Err(error) => Err(error@),
    }
}

/// Reports a literal that cannot be read.
fn literal_error_at(
    source: &str,
    pair: &ParseNode,
    kind_of_literal: &str,
    cause: QKaledioscopeError,
) -> (error: QKaledioscopeError)
    ensures
        error@ == literal_error(source@, *pair, kind_of_literal@, cause@),
{
    let mut description = String::from_str("Could not convert `");
    description.append(pair.text.as_str());
    description.append("` to ");
    description.append(kind_of_literal);
    let mut causes: Vec<QKaledioscopeError> = Vec::new();
    causes.push(cause);
    assert(errors_view(causes) == seq![cause@]);
    wrong_rule_as_parse_error(source, description.as_str(), (pair.start, pair.end), causes)
}

impl Expression {
    /// Builds an expression from a grammar node.
    pub fn try_parse_raw(source: &str, pair: &ParseNode) -> (expression: Result<
        Expression,
        QKaledioscopeError,
    >)
        ensures
            result_view(expression) == expression_of(source@, *pair),
        decreases *pair, 1int,
    {
        match pair.rule {
            Rule::call_expr => {
                let name = match Identifier::try_parse_at(source, pair, 0) {
                    Ok(name) => name,
                    Err(error) => { return Err(error); },
                };
                match Expression::try_parse_many(source, (pair.start, pair.end), pair, 1) {
                    Ok(arguments) => Ok(Expression::Call(name, arguments)),
                    Err(error) => Err(error),
                }
            },
            Rule::Ident => Ok(Expression::Identifier(Identifier(pair.text.clone()))),
            Rule::TrueKeyword => Ok(Expression::BitLiteral(true)),
            Rule::FalseKeyword => Ok(Expression::BitLiteral(false)),
            Rule::number_literal => match pair.number {
                Some(bits) => Ok(Expression::NumberLiteral(bits)),
                None => {
                    let kind = if pair.text.as_str().is_empty() {
                        FloatErrorKind::Empty
                    } else {
                        FloatErrorKind::Invalid
                    };
                    Err(
                        literal_error_at(
                            source,
                            pair,
                            "number literal",
                            QKaledioscopeError::ParseFloatError(kind),
                        ),
                    )
                },
            },
            Rule::qubit_literal => match parse_index(pair.text.as_str(), 1) {
                Ok(index) => Ok(Expression::QubitLiteral(index)),
                Err(kind) => Err(
                    literal_error_at(
                        source,
                        pair,
                        "qubit literal",
                        QKaledioscopeError::ParseIntError(kind),
                    ),
                ),
            },
            _ => Err(wrong_rule_at(source, "Expected a valid expression", pair)),
        }
    }

    /// Builds an expression and puts it at the place of its grammar node.
    pub fn try_parse(source: &str, pair: &ParseNode) -> (expression: Result<
        Located<Expression>,
        QKaledioscopeError,
    >)
        ensures
            result_view(expression) == located_result(*pair, expression_of(source@, *pair)),
        decreases *pair, 2int,
    {
        match Expression::try_parse_raw(source, pair) {
            Ok(raw) => Ok(Located { value: raw, location: Some((pair.start, pair.end)) }),
            Err(error) => Err(error),
        }
    }

    /// Builds the expression that is the member `i` of a grammar node.
    pub fn try_parse_at(source: &str, parent: &ParseNode, i: usize) -> (expression: Result<
        Located<Expression>,
        QKaledioscopeError,
    >)
        ensures
            result_view(expression) == expression_at(source@, *parent, i as int),
    {
        if i < parent.children.len() {
            Expression::try_parse(source, &parent.children[i])
        } else {
            Err(wrong_rule_at(source, "Expected a valid expression", parent))
        }
    }

    /// Builds an expression from each member of a grammar node, from the
    /// member `from` on. Where some cannot be built, the errors of all of
    /// them are the causes of one error at `span`.
    pub fn try_parse_many(source: &str, span: (usize, usize), parent: &ParseNode, from: usize) -> (many:
        Result<Vec<Located<Expression>>, QKaledioscopeError>)
        ensures
            expressions_result_view(many) == gathered(
                source@,
                "Expected definition body"@,
                span,
                expression_results(source@, *parent, from as int),
            ),
        decreases *parent, 0int,
    {
        let mut results: Vec<Result<Located<Expression>, QKaledioscopeError>> = Vec::new();
        let mut i: usize = from;
        while i < parent.children.len()
            invariant
                from <= i,
                i <= parent.children.len() || i == from,
                results@.len() == i - from,
                forall|j: int|
                    0 <= j < i - from ==> result_view(#[trigger] results@[j])
                        == expression_results(source@, *parent, from as int)[j],
            decreases parent.children.len() - i,
        {
            proof {
                vstd::std_specs::vec::axiom_vec_index_decreases(parent.children, i as int);
                assert(decreases_to!(*parent => parent.children));
                assert(decreases_to!(parent.children => parent.children[i as int]));
            }
            results.push(Expression::try_parse(source, &parent.children[i]));
            i += 1;
        }
        proof {
            let expected = expression_results(source@, *parent, from as int);
            assert(expected.len() == results@.len());
            assert forall|j: int| 0 <= j < results@.len() implies result_views(results@)[j]
                == expected[j] by {
                assert(result_view(results@[j]) == expected[j]);
            }
            assert(result_views(results@) =~= expected);
        }
        match gather(source, "Expected definition body", span, results) {
            Ok(expressions) => {
                assert(expressions_view(expressions) =~= views_of(expressions@));
                Ok(expressions)
            },
            Err(error) => Err(error),
        }
    }
}

/// The outcomes of building a statement from each member of a grammar
/// node, from the member `from` on.
pub open spec fn statement_results(source: Seq<char>, parent: ParseNode, from: int) -> Seq<
    Result<Located<StatementView>, ErrorView>,
>
    decreases parent, 0int,
{
    Seq::new(
        if 0 <= from <= parent.children.len() {
            (parent.children.len() - from) as nat
        } else {
            0
        },
        |i: int|
            if 0 <= from && 0 <= i && from + i < parent.children.len() {
                located_result(
                    parent.children[from + i],
                    statement_of(source, parent.children[from + i]),
                )
            } else {
                arbitrary()
            },
    )
}

/// The block of statements that the members of a grammar node stand for,
/// from the member `from` on.
pub open spec fn block_of(source: Seq<char>, parent: ParseNode, from: int) -> Result<
    Seq<Located<StatementView>>,
    ErrorView,
>
    decreases parent, 1int,
{
    gathered(
        source,
        "Expected definition body"@,
        (parent.start, parent.end),
        statement_results(source, parent, from),
    )
}

/// The statement that a grammar node stands for.
///
/// The members of a declaration are a name, a type and a value; those of an
/// assignment a name and a value; those of a call a name and the arguments.
/// A conditional holds a block that starts with the condition, and after it
/// the block of the other branch, if there is one. A loop starts with its
/// condition. The faults of all the statements of a block are reported
/// together.
pub open spec fn statement_of(source: Seq<char>, pair: ParseNode) -> Result<
    StatementView,
    ErrorView,
>
    decreases pair, 2int,
{
    match pair.rule {
        Rule::variable_declaration => match identifier_at(source, pair, 0) {
            Err(error) => Err(error),
            Ok(name) => match type_at(source, pair, 1) {
                Err(error) => Err(error),
                Ok(type_sig) => match expression_at(source, pair, 2) {
                    Err(error) => Err(error),
                    Ok(value) => Ok(StatementView::VariableDeclaration(name, type_sig, value)),
                },
            },
        },
        Rule::assignment => match identifier_at(source, pair, 0) {
            Err(error) => Err(error),
            Ok(name) => match expression_at(source, pair, 1) {
                Err(error) => Err(error),
                Ok(value) => Ok(StatementView::Assignment(name, value)),
            },
        },
        Rule::call_expr => match identifier_at(source, pair, 0) {
            Err(error) => Err(error),
            Ok(name) => match gathered(
                source,
                "Expected definition body"@,
                (pair.start, pair.end),
                expression_results(source, pair, 1),
            ) {
                Err(error) => Err(error),
                Ok(arguments) => Ok(StatementView::Call(name, arguments)),
            },
        },
        Rule::if_stmt => {
            if pair.children.len() == 0 {
                Err(wrong_rule(source, "Expected a valid statement"@, pair))
            } else {
                match expression_at(source, pair.children[0], 0) {
                    Err(error) => Err(error),
                    Ok(condition) => match block_of(source, pair.children[0], 1) {
                        Err(error) => Err(error),
                        Ok(true_body) => {
                            if pair.children.len() < 2 {
                                Ok(
                                    StatementView::If {
                                        condition,
                                        true_body,
                                        false_body: Seq::empty(),
                                    },
                                )
                            } else {
                                match block_of(source, pair.children[1], 0) {
                                    Err(error) => Err(error),
                                    Ok(false_body) => Ok(
                                        StatementView::If { condition, true_body, false_body },
                                    ),
                                }
                            }
                        },
                    },
                }
            }
        },
        Rule::while_stmt => match expression_at(source, pair, 0) {
            Err(error) => Err(error),
            Ok(condition) => match block_of(source, pair, 1) {
                Err(error) => Err(error),
                Ok(body) => Ok(StatementView::While { condition, body }),
            },
        },
        Rule::return_stmt => match expression_at(source, pair, 0) {
            Err(error) => Err(error),
            Ok(value) => Ok(StatementView::Return(value)),
        },
        _ => Err(wrong_rule(source, "Expected a valid statement"@, pair)),
    }
}

/// The view of the outcome of a block of statements.
pub open spec fn statements_result_view(
    result: Result<Vec<Located<Statement>>, QKaledioscopeError>,
) -> Result<Seq<Located<StatementView>>, ErrorView> {
    match result {
        Ok(statements) => Ok(statements_view(statements)),
        Err(error) => Err(error@),
    }
}

impl Statement {
    /// Builds a statement from a grammar node.
    pub fn try_parse_raw(source: &str, pair: &ParseNode) -> (statement: Result<
        Statement,
        QKaledioscopeError,
    >)
        ensures
            result_view(statement) == statement_of(source@, *pair),
        decreases *pair, 2int,
    {
        match pair.rule {
            Rule::variable_declaration => {
                let name = match Identifier::try_parse_at(source, pair, 0) {
                    Ok(name) => name,
                    Err(error) => { return Err(error); },
                };
                let type_sig = match Type::try_parse_at(source, pair, 1) {
                    Ok(type_sig) => type_sig,
                    Err(error) => { return Err(error); },
                };
                let value = match Expression::try_parse_at(source, pair, 2) {
                    Ok(value) => value,
                    Err(error) => { return Err(error); },
                };
                Ok(Statement::VariableDeclaration(name, type_sig, value))
            },
            Rule::assignment => {
                let name = match Identifier::try_parse_at(source, pair, 0) {
                    Ok(name) => name,
                    Err(error) => { return Err(error); },
                };
                let value = match Expression::try_parse_at(source, pair, 1) {
                    Ok(value) => value,
                    Err(error) => { return Err(error); },
                };
                Ok(Statement::Assignment(name, value))
            },
            Rule::call_expr => {
                let name = match Identifier::try_parse_at(source, pair, 0) {
                    Ok(name) => name,
                    Err(error) => { return Err(error); },
                };
                match Expression::try_parse_many(source, (pair.start, pair.end), pair, 1) {
                    Ok(arguments) => Ok(Statement::Call(name, arguments)),
                    Err(error) => Err(error),
                }
            },
            Rule::if_stmt => {
                if pair.children.len() == 0 {
                    return Err(wrong_rule_at(source, "Expected a valid statement", pair));
                }
                let if_block = &pair.children[0];
                proof {
                    vstd::std_specs::vec::axiom_vec_index_decreases(pair.children, 0);
                    assert(decreases_to!(*pair => pair.children));
                    assert(decreases_to!(pair.children => pair.children[0]));
                }
                let condition = match Expression::try_parse_at(source, if_block, 0) {
                    Ok(condition) => condition,
                    Err(error) => { return Err(error); },
                };
                let true_body = match Statement::try_parse_many(
                    source,
                    (if_block.start, if_block.end),
                    if_block,
                    1,
                ) {
                    Ok(body) => body,
                    Err(error) => { return Err(error); },
                };
                let false_body = if pair.children.len() < 2 {
                    let body: Vec<Located<Statement>> = Vec::new();
                    assert(statements_view(body) =~= Seq::empty());
                    body
                } else {
                    let else_block = &pair.children[1];
                    proof {
                        vstd::std_specs::vec::axiom_vec_index_decreases(pair.children, 1);
                        assert(decreases_to!(pair.children => pair.children[1]));
                    }
                    match Statement::try_parse_many(
                        source,
                        (else_block.start, else_block.end),
                        else_block,
                        0,
                    ) {
                        Ok(body) => body,
                        Err(error) => { return Err(error); },
                    }
                };
                Ok(Statement::If { condition, true_body, false_body })
            },
            Rule::while_stmt => {
                let condition = match Expression::try_parse_at(source, pair, 0) {
                    Ok(condition) => condition,
                    Err(error) => { return Err(error); },
                };
                match Statement::try_parse_many(source, (pair.start, pair.end), pair, 1) {
                    Ok(body) => Ok(Statement::While { condition, body }),
                    Err(error) => Err(error),
                }
            },
            Rule::return_stmt => {
                match Expression::try_parse_at(source, pair, 0) {
                    Ok(value) => Ok(Statement::Return(value)),
                    Err(error) => Err(error),
                }
            },
            _ => Err(wrong_rule_at(source, "Expected a valid statement", pair)),
        }
    }

    /// Builds a statement and puts it at the place of its grammar node.
    pub fn try_parse(source: &str, pair: &ParseNode) -> (statement: Result<
        Located<Statement>,
        QKaledioscopeError,
    >)
        ensures
            result_view(statement) == located_result(*pair, statement_of(source@, *pair)),
        decreases *pair, 3int,
    {
        match Statement::try_parse_raw(source, pair) {
            Ok(raw) => Ok(Located { value: raw, location: Some((pair.start, pair.end)) }),
            Err(error) => Err(error),
        }
    }

    /// Builds a statement from each member of a grammar node, from the
    /// member `from` on. Where some cannot be built, the errors of all of
    /// them are the causes of one error at `span`.
    pub fn try_parse_many(source: &str, span: (usize, usize), parent: &ParseNode, from: usize) -> (many:
        Result<Vec<Located<Statement>>, QKaledioscopeError>)
        ensures
            statements_result_view(many) == gathered(
                source@,
                "Expected definition body"@,
                span,
                statement_results(source@, *parent, from as int),
            ),
        decreases *parent, 0int,
    {
        let mut results: Vec<Result<Located<Statement>, QKaledioscopeError>> = Vec::new();
        let mut i: usize = from;
        while i < parent.children.len()
            invariant
                from <= i,
                i <= parent.children.len() || i == from,
                results@.len() == i - from,
                forall|j: int|
                    0 <= j < i - from ==> result_view(#[trigger] results@[j]) == statement_results(
                        source@,
                        *parent,
                        from as int,
                    )[j],
            decreases parent.children.len() - i,
        {
            proof {
                vstd::std_specs::vec::axiom_vec_index_decreases(parent.children, i as int);
                assert(decreases_to!(*parent => parent.children));
                assert(decreases_to!(parent.children => parent.children[i as int]));
            }
            results.push(Statement::try_parse(source, &parent.children[i]));
            i += 1;
        }
        proof {
            let expected = statement_results(source@, *parent, from as int);
            assert(expected.len() == results@.len());
            assert forall|j: int| 0 <= j < results@.len() implies result_views(results@)[j]
                == expected[j] by {
                assert(result_view(results@[j]) == expected[j]);
            }
            assert(result_views(results@) =~= expected);
        }
        match gather(source, "Expected definition body", span, results) {
            Ok(statements) => {
                assert(statements_view(statements) =~= views_of(statements@));
                Ok(statements)
            },
            Err(error) => Err(error),
        }
    }
}

/// The top-level element that a grammar node stands for: a declaration holds
/// a prototype, a definition a prototype and then the statements of the
/// body.
#[verifier::opaque]
pub open spec fn file_element_of(source: Seq<char>, pair: ParseNode) -> Result<
    FileElementView,
    ErrorView,
> {
    match pair.rule {
        Rule::declaration => match prototype_at(source, pair, 0) {
            Err(error) => Err(error),
            Ok(prototype) => Ok(FileElementView::Declaration(prototype)),
        },
        Rule::definition => match prototype_at(source, pair, 0) {
            Err(error) => Err(error),
            Ok(prototype) => match block_of(source, pair, 1) {
                Err(error) => Err(error),
                Ok(body) => Ok(FileElementView::Definition { prototype, body }),
            },
        },
        _ => Err(wrong_rule(source, "Expected declaration or definition."@, pair)),
    }
}

impl FileElement {
    /// Builds a top-level element from a grammar node.
    pub fn try_parse_raw(source: &str, pair: &ParseNode) -> (element: Result<
        FileElement,
        QKaledioscopeError,
    >)
        ensures
            result_view(element) == file_element_of(source@, *pair),
    {
        reveal(file_element_of);
        match pair.rule {
            Rule::declaration => {
                match Prototype::try_parse_at(source, pair, 0) {
                    Ok(prototype) => Ok(FileElement::Declaration(prototype)),
                    Err(error) => Err(error),
                }
            },
            Rule::definition => {
                let prototype = match Prototype::try_parse_at(source, pair, 0) {
                    Ok(prototype) => prototype,
                    Err(error) => { return Err(error); },
                };
                match Statement::try_parse_many(source, (pair.start, pair.end), pair, 1) {
                    Ok(body) => Ok(FileElement::Definition { prototype, body }),
                    Err(error) => Err(error),
                }
            },
            _ => Err(wrong_rule_at(source, "Expected declaration or definition.", pair)),
        }
    }

    /// Builds a top-level element and puts it at the place of its grammar
    /// node.
    pub fn try_parse(source: &str, pair: &ParseNode) -> (element: Result<
        Located<FileElement>,
        QKaledioscopeError,
    >)
        ensures
            result_view(element) == located_result(*pair, file_element_of(source@, *pair)),
    {
        match FileElement::try_parse_raw(source, pair) {
            Ok(raw) => Ok(Located { value: raw, location: Some((pair.start, pair.end)) }),
            Err(error) => Err(error),
        }
    }
}

/// The elements of the program that the grammar's nodes stand for: one for
/// each node in order, but for the marks of the end of the input. The first
/// node that is at fault decides the error.
pub open spec fn elements_of(source: Seq<char>, pairs: Seq<ParseNode>) -> Result<
    Seq<Located<FileElementView>>,
    ErrorView,
>
    decreases pairs.len(),
{
    if pairs.len() == 0 {
        Ok(Seq::empty())
    } else {
        match elements_of(source, pairs.drop_last()) {
            Err(error) => Err(error),
            Ok(elements) => {
                if pairs.last().rule == Rule::EOI {
                    Ok(elements)
                } else {
                    match located_result(pairs.last(), file_element_of(source, pairs.last())) {
                        Err(error) => Err(error),
                        Ok(element) => Ok(elements.push(element)),
                    }
                }
            },
        }
    }
}

/// The program that the grammar's outcome for a source text stands for: the
/// syntax error of a text that it did not match, and otherwise what its
/// nodes stand for.
pub open spec fn program_of(source: Seq<char>, outcome: Result<Vec<ParseNode>, RuleError>) -> Result<
    ProgramView,
    ErrorView,
> {
    match outcome {
        Err(error) => Err(
            ErrorView::ParseError {
                description: describe(error.variant),
                src: source,
                err_span: rule_error_span(source, error.line_col),
                causes: Seq::empty(),
            },
        ),
        Ok(pairs) => match elements_of(source, pairs@) {
            Err(error) => Err(error),
            Ok(elements) => Ok(ProgramView(elements)),
        },
    }
}

/// A failed match has no elements beyond the nodes that were built before
/// it.
proof fn lemma_elements_of_error(source: Seq<char>, pairs: Seq<ParseNode>, n: int)
    requires
        0 <= n <= pairs.len(),
        elements_of(source, pairs.take(n)) is Err,
    ensures
        elements_of(source, pairs) == elements_of(source, pairs.take(n)),
    decreases pairs.len() - n,
{
    if n == pairs.len() {
        assert(pairs.take(n) == pairs);
    } else {
        assert(pairs.take(n + 1).drop_last() == pairs.take(n));
        lemma_elements_of_error(source, pairs, n + 1);
    }
}

/// Builds the program of a source text from what the grammar made of the
/// text.
pub fn parse(source: &str, outcome: Result<Vec<ParseNode>, RuleError>) -> (program: Result<
    Program,
    QKaledioscopeError,
>)
    ensures
        result_view(program) == program_of(source@, outcome),
{
    let pairs = match outcome {
        Ok(pairs) => pairs,
        Err(error) => {
            return Err(rule_error_as_parse_error(source, error));
        },
    };
    let mut program: Vec<Located<FileElement>> = Vec::new();
    let mut i: usize = 0;
    proof {
        assert(pairs@.take(0) =~= Seq::empty());
        assert(views_of(program@) =~= Seq::empty());
    }
    while i < pairs.len()
        invariant
            i <= pairs.len(),
            outcome == Ok::<Vec<ParseNode>, RuleError>(pairs),
            elements_of(source@, pairs@.take(i as int)) == Ok::<
                Seq<Located<FileElementView>>,
                ErrorView,
            >(views_of(program@)),
        decreases pairs.len() - i,
    {
        let pair = &pairs[i];
        proof {
            assert(pairs@.take(i + 1).drop_last() == pairs@.take(i as int));
            assert(pairs@.take(i + 1).last() == *pair);
        }
        match pair.rule {
            Rule::EOI => {},
            _ => {
                let ghost before = views_of(program@);
                match FileElement::try_parse(source, pair) {
                    Ok(element) => {
                        program.push(element);
                        assert(views_of(program@) =~= before.push(element@));
                    },
                    Err(error) => {
                        proof {
                            lemma_elements_of_error(source@, pairs@, i + 1);
                        }
                        return Err(error);
                    },
                }
            },
        }
        i += 1;
    }
    assert(pairs@.take(i as int) == pairs@);
    let program = Program(program);
    assert(program@.0 =~= views_of(program.0@));
    Ok(program)
}

/// Building is deterministic: two outcomes of building a program from the
/// same text and the same outcome of the grammar are the same tree with the
/// same places, or the same error.
pub proof fn lemma_parse_deterministic(
    source: Seq<char>,
    outcome: Result<Vec<ParseNode>, RuleError>,
    first: Result<Program, QKaledioscopeError>,
    second: Result<Program, QKaledioscopeError>,
)
    requires
        result_view(first) == program_of(source, outcome),
        result_view(second) == program_of(source, outcome),
    ensures
        result_view(first) == result_view(second),
        first is Ok ==> second is Ok && first->Ok_0@ == second->Ok_0@,
        first is Err ==> second is Err && first->Err_0@ == second->Err_0@,
{
}

/// An expression that was built has a location, and so has every node
/// inside it.
pub proof fn lemma_expression_is_located(source: Seq<char>, pair: ParseNode)
    requires
        expression_of(source, pair) is Ok,
    ensures
        expression_located(located(pair, expression_of(source, pair)->Ok_0)),
    decreases pair,
{
    if pair.rule == Rule::call_expr {
        lemma_expressions_are_located(source, pair, 1);
    }
}

/// The expressions of a block that was built have locations throughout.
pub proof fn lemma_expressions_are_located(source: Seq<char>, parent: ParseNode, from: int)
    requires
        0 <= from,
        errors_of(expression_results(source, parent, from)).len() == 0,
    ensures
        forall|i: int|
            0 <= i < values_of(expression_results(source, parent, from)).len()
                ==> expression_located(
                #[trigger] values_of(expression_results(source, parent, from))[i],
            ),
    decreases parent, 0int,
{
    let results = expression_results(source, parent, from);
    lemma_values_of_all_ok(results);
    assert forall|i: int| 0 <= i < values_of(results).len() implies expression_located(
        #[trigger] values_of(results)[i],
    ) by {
        assert(results[i] == Ok::<Located<ExpressionView>, ErrorView>(values_of(results)[i]));
        lemma_expression_is_located(source, parent.children[from + i]);
    }
}

/// A statement that was built has a location, and so has every node inside
/// it.
pub proof fn lemma_statement_is_located(source: Seq<char>, pair: ParseNode)
    requires
        statement_of(source, pair) is Ok,
    ensures
        statement_located(located(pair, statement_of(source, pair)->Ok_0)),
    decreases pair, 1int,
{
    match pair.rule {
        Rule::variable_declaration => {
            lemma_expression_is_located(source, pair.children[2]);
        },
        Rule::assignment => {
            lemma_expression_is_located(source, pair.children[1]);
        },
        Rule::call_expr => {
            lemma_expressions_are_located(source, pair, 1);
        },
        Rule::if_stmt => {
            let if_block = pair.children[0];
            lemma_expression_is_located(source, if_block.children[0]);
            lemma_statements_are_located(source, if_block, 1);
            assert(block_of(source, if_block, 1)->Ok_0 == values_of(
                statement_results(source, if_block, 1),
            ));
            if pair.children.len() >= 2 {
                let else_block = pair.children[1];
                lemma_statements_are_located(source, else_block, 0);
                assert(block_of(source, else_block, 0)->Ok_0 == values_of(
                    statement_results(source, else_block, 0),
                ));
            }
        },
        Rule::while_stmt => {
            lemma_expression_is_located(source, pair.children[0]);
            lemma_statements_are_located(source, pair, 1);
            assert(block_of(source, pair, 1)->Ok_0 == values_of(statement_results(source, pair, 1)));
        },
        Rule::return_stmt => {
            lemma_expression_is_located(source, pair.children[0]);
        },
        _ => {},
    }
}

/// The statements of a block that was built have locations throughout.
pub proof fn lemma_statements_are_located(source: Seq<char>, parent: ParseNode, from: int)
    requires
        0 <= from,
        errors_of(statement_results(source, parent, from)).len() == 0,
    ensures
        forall|i: int|
            0 <= i < values_of(statement_results(source, parent, from)).len()
                ==> statement_located(
                #[trigger] values_of(statement_results(source, parent, from))[i],
            ),
    decreases parent, 0int,
{
    let results = statement_results(source, parent, from);
    lemma_values_of_all_ok(results);
    assert forall|i: int| 0 <= i < values_of(results).len() implies statement_located(
        #[trigger] values_of(results)[i],
    ) by {
        assert(results[i] == Ok::<Located<StatementView>, ErrorView>(values_of(results)[i]));
        lemma_statement_is_located(source, parent.children[from + i]);
    }
}

/// A prototype that was built has a location, and so has every node inside
/// it.
pub proof fn lemma_prototype_is_located(source: Seq<char>, pair: ParseNode)
    requires
        prototype_of(source, pair) is Ok,
    ensures
        prototype_located(located(pair, prototype_of(source, pair)->Ok_0)),
{
    let results = argument_results(source, pair.children[1]);
    lemma_values_of_all_ok(results);
    let prototype = prototype_of(source, pair)->Ok_0;
    assert forall|i: int| 0 <= i < prototype.arguments.len() implies {
        &&& (#[trigger] prototype.arguments[i]).location is Some
        &&& prototype.arguments[i].value.0.location is Some
        &&& prototype.arguments[i].value.1.location is Some
    } by {
        assert(results[i] == Ok::<Located<ArgumentDeclarationView>, ErrorView>(
            values_of(results)[i],
        ));
    }
}

/// A top-level element that was built has a location, and so has every node
/// inside it.
pub proof fn lemma_element_is_located(source: Seq<char>, pair: ParseNode)
    requires
        file_element_of(source, pair) is Ok,
    ensures
        element_located(located(pair, file_element_of(source, pair)->Ok_0)),
{
    reveal(file_element_of);
    match pair.rule {
        Rule::declaration => {
            lemma_prototype_is_located(source, pair.children[0]);
        },
        Rule::definition => {
            lemma_prototype_is_located(source, pair.children[0]);
            lemma_statements_are_located(source, pair, 1);
            assert(block_of(source, pair, 1)->Ok_0 == values_of(statement_results(source, pair, 1)));
        },
        _ => {},
    }
}

/// Every node of a program that was built has a location: a node without
/// one is never the work of the builder.
pub proof fn lemma_program_is_located(source: Seq<char>, pairs: Seq<ParseNode>)
    requires
        elements_of(source, pairs) is Ok,
    ensures
        program_located(ProgramView(elements_of(source, pairs)->Ok_0)),
    decreases pairs.len(),
{
    if pairs.len() != 0 {
        lemma_program_is_located(source, pairs.drop_last());
        let front = elements_of(source, pairs.drop_last())->Ok_0;
        let all = elements_of(source, pairs)->Ok_0;
        if pairs.last().rule != Rule::EOI {
            lemma_element_is_located(source, pairs.last());
            assert forall|i: int| 0 <= i < all.len() implies element_located(#[trigger] all[i]) by {
                if i < front.len() {
                    assert(all[i] == front[i]);
                    assert(element_located(ProgramView(front).0[i]));
                }
            }
        } else {
            assert forall|i: int| 0 <= i < all.len() implies element_located(#[trigger] all[i]) by {
                assert(element_located(ProgramView(front).0[i]));
            }
        }
    }
}

} // verus!
