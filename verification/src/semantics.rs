//! What a program means.
//!
//! The meaning of an expression, a statement or a call is a function of the
//! program, the frame of local variables, a limit, and the calls of built-in
//! operations that are made on the way, in their order: which operation was
//! called, with which arguments, and what it answered. The limit makes every
//! run end: what a call runs, and what follows a round of a loop, goes on
//! with a limit that is lower by one, and nothing runs at the limit 0. Each function returns its outcome together with the calls that
//! it has not used. A call that is not the one that the program makes next
//! is never used.
use vstd::prelude::*;
use crate::ast::{
    ArgumentDeclaration, Expression, FileElement, Identifier, Located, Statement, Type,
};
use crate::error::ErrorView;
use crate::interpreter::{
    FunctionTableEntry, InterpreterValue, StandardBuiltins, lemma_table_of_distinct, table_of,
};
use crate::span::SourceSpan;

verus! {

/// What a call returns: a value, nothing, or an error.
pub type Response = Result<Option<InterpreterValue>, ErrorView>;

/// One call of a built-in operation: the operation, the arguments that it was
/// given, and what it answered.
pub struct Invocation<'a, B> {
    pub callee: &'a B,
    pub args: Seq<InterpreterValue>,
    pub answer: Response,
}

/// The local variables of a call.
pub type Frame = Map<Seq<char>, InterpreterValue>;

/// The value of a variable, or the error of a name that the frame does not
/// bind.
pub open spec fn lookup(
    source: Seq<char>,
    frame: Frame,
    name: Seq<char>,
    span: Option<SourceSpan>,
) -> Result<InterpreterValue, ErrorView> {
    if frame.contains_key(name) {
        Ok(frame[name])
    } else {
        Err(ErrorView::UndefinedVariableError { name, src: source, span })
    }
}

/// The frame after a declaration: the name is bound to the value, which has
/// to be of the declared type exactly.
pub open spec fn declare(
    source: Seq<char>,
    frame: Frame,
    name: Seq<char>,
    type_sig: Located<Type>,
    value: InterpreterValue,
    expr_span: Option<SourceSpan>,
) -> Result<Frame, ErrorView> {
    if value.spec_type_of() == type_sig.value {
        Ok(frame.insert(name, value))
    } else {
        Err(
            ErrorView::TypeError {
                expected: type_sig.value.spec_name(),
                actual: value.spec_type_of().spec_name(),
                src: source,
                expr_span,
                type_span: type_sig.span(),
            },
        )
    }
}

/// The frame after an assignment: the name, which has to be bound already,
/// is bound to the value.
pub open spec fn assign(
    source: Seq<char>,
    frame: Frame,
    name: Located<Identifier>,
    value: InterpreterValue,
) -> Result<Frame, ErrorView> {
    if frame.contains_key(name.value@) {
        Ok(frame.insert(name.value@, value))
    } else {
        Err(
            ErrorView::UndefinedVariableError {
                name: name.value@,
                src: source,
                span: name.span(),
            },
        )
    }
}

/// The bit that a condition evaluated to; a value of another type is a type
/// error.
pub open spec fn condition(
    source: Seq<char>,
    value: InterpreterValue,
    span: Option<SourceSpan>,
) -> Result<bool, ErrorView> {
    match value {
        InterpreterValue::Bit(bit) => Ok(bit),
        _ => Err(
            ErrorView::TypeError {
                expected: Type::Bit.spec_name(),
                actual: value.spec_type_of().spec_name(),
                src: source,
                expr_span: span,
                type_span: None,
            },
        ),
    }
}

/// The value of a call that stands where a value is needed.
pub open spec fn expect_value(
    source: Seq<char>,
    name: Seq<char>,
    span: Option<SourceSpan>,
    result: Result<Option<InterpreterValue>, ErrorView>,
) -> Result<InterpreterValue, ErrorView> {
    match result {
        Err(error) => Err(error),
        Ok(Some(value)) => Ok(value),
        Ok(None) => Err(ErrorView::MissingValueError { name, src: source, span }),
    }
}

/// The frame that binds the first `n` parameters to the first `n` values.
pub open spec fn bind_first(
    parameters: Seq<Located<ArgumentDeclaration>>,
    values: Seq<InterpreterValue>,
    n: nat,
) -> Frame
    decreases n,
{
    if n == 0 {
        Map::empty()
    } else {
        bind_first(parameters, values, (n - 1) as nat).insert(
            parameters[n - 1].value.0.value@,
            values[n - 1],
        )
    }
}

/// The frame of a call: the parameters bound to the values by position, as
/// far as both go.
pub open spec fn bind(
    parameters: Seq<Located<ArgumentDeclaration>>,
    values: Seq<InterpreterValue>,
) -> Frame {
    bind_first(
        parameters,
        values,
        if parameters.len() <= values.len() {
            parameters.len()
        } else {
            values.len()
        },
    )
}

/// The value of an expression in a frame.
pub open spec fn eval<'a, B>(
    source: Seq<char>,
    table: Map<Seq<char>, FunctionTableEntry<'a, B>>,
    expression: Located<Expression>,
    frame: Frame,
    fuel: nat,
    responses: Seq<Invocation<'a, B>>,
) -> (Result<InterpreterValue, ErrorView>, Seq<Invocation<'a, B>>)
    decreases fuel, 0int, expression, 0int,
{
    match expression.value {
        Expression::BitLiteral(bit) => (Ok(InterpreterValue::Bit(bit)), responses),
        Expression::NumberLiteral(bits) => (Ok(InterpreterValue::Number(bits)), responses),
        Expression::QubitLiteral(index) => (Ok(InterpreterValue::QubitRef(index)), responses),
        Expression::Identifier(name) => (
            lookup(source, frame, name@, expression.span()),
            responses,
        ),
        Expression::Call(name, arguments) => {
            let (result, rest) = call(source, table, name, arguments, frame, fuel, responses);
            (expect_value(source, name.value@, expression.span(), result), rest)
        },
    }
}

/// The values of the first `n` of the arguments of a call, evaluated from
/// left to right up to the first error.
pub open spec fn eval_args<'a, B>(
    source: Seq<char>,
    table: Map<Seq<char>, FunctionTableEntry<'a, B>>,
    arguments: Vec<Located<Expression>>,
    n: nat,
    frame: Frame,
    fuel: nat,
    responses: Seq<Invocation<'a, B>>,
) -> (Result<Seq<InterpreterValue>, ErrorView>, Seq<Invocation<'a, B>>)
    decreases fuel, 0int, arguments, n,
{
    if n == 0 || n > arguments.len() {
        (Ok(Seq::empty()), responses)
    } else {
        let (values, rest) = eval_args(
            source,
            table,
            arguments,
            (n - 1) as nat,
            frame,
            fuel,
            responses,
        );
        match values {
            Err(error) => (Err(error), rest),
            Ok(values) => {
                let (value, rest) = eval(source, table, arguments[n - 1], frame, fuel, rest);
                match value {
                    Err(error) => (Err(error), rest),
                    Ok(value) => (Ok(values.push(value)), rest),
                }
            },
        }
    }
}

/// What a call of a name with arguments returns. The name is looked up
/// first, then the arguments are evaluated; the call itself takes one from
/// the limit.
pub open spec fn call<'a, B>(
    source: Seq<char>,
    table: Map<Seq<char>, FunctionTableEntry<'a, B>>,
    name: Located<Identifier>,
    arguments: Vec<Located<Expression>>,
    frame: Frame,
    fuel: nat,
    responses: Seq<Invocation<'a, B>>,
) -> (Result<Option<InterpreterValue>, ErrorView>, Seq<Invocation<'a, B>>)
    decreases fuel, 0int, arguments, arguments.len() + 1,
{
    if !table.contains_key(name.value@) {
        (
            Err(
                ErrorView::UndefinedFunctionError {
                    name: name.value@,
                    src: source,
                    span: name.span(),
                },
            ),
            responses,
        )
    } else {
        let (values, rest) = eval_args(
            source,
            table,
            arguments,
            arguments.len() as nat,
            frame,
            fuel,
            responses,
        );
        match values {
            Err(error) => (Err(error), rest),
            Ok(values) => {
                if fuel == 0 {
                    (Err(ErrorView::StepLimitError), rest)
                } else {
                    run(source, table, table[name.value@], values, (fuel - 1) as nat, rest)
                }
            },
        }
    }
}

/// What an entry of the function table returns for given arguments.
///
/// A built-in operation returns what it answered in the next of
/// `responses`, which has to be a call of this operation with these
/// arguments. A function that is only declared cannot be run. A defined function runs its
/// body in a fresh frame that binds its parameters, and returns what the
/// body returns, or nothing where the body ends without returning.
pub open spec fn run<'a, B>(
    source: Seq<char>,
    table: Map<Seq<char>, FunctionTableEntry<'a, B>>,
    entry: FunctionTableEntry<'a, B>,
    values: Seq<InterpreterValue>,
    fuel: nat,
    responses: Seq<Invocation<'a, B>>,
) -> (Result<Option<InterpreterValue>, ErrorView>, Seq<Invocation<'a, B>>)
    decreases fuel, 2int,
{
    match entry {
        FunctionTableEntry::Builtin(operation) => {
            if responses.len() > 0 && responses[0].callee == operation && responses[0].args
                == values {
                (responses[0].answer, responses.skip(1))
            } else {
                (Ok(None), responses)
            }
        },
        FunctionTableEntry::Interpreted(element) => match element.value {
            FileElement::Declaration(prototype) => (
                Err(
                    ErrorView::LinkingError {
                        name: prototype.value.name.value@,
                        src: source,
                        span: prototype.span(),
                    },
                ),
                responses,
            ),
            FileElement::Definition { prototype, body } => {
                let (flow, rest) = exec_block(
                    source,
                    table,
                    body,
                    body.len() as nat,
                    bind(prototype.value.arguments@, values),
                    fuel,
                    responses,
                );
                match flow {
                    Err(error) => (Err(error), rest),
                    Ok((_, returned)) => (Ok(returned), rest),
                }
            },
        },
    }
}

/// The frame after the first `n` statements of a block, and the value that
/// one of them returned, if one did: the statements after it are not run.
pub open spec fn exec_block<'a, B>(
    source: Seq<char>,
    table: Map<Seq<char>, FunctionTableEntry<'a, B>>,
    body: Vec<Located<Statement>>,
    n: nat,
    frame: Frame,
    fuel: nat,
    responses: Seq<Invocation<'a, B>>,
) -> (Result<(Frame, Option<InterpreterValue>), ErrorView>, Seq<Invocation<'a, B>>)
    decreases fuel, 1int, body, n,
{
    if n == 0 || n > body.len() {
        (Ok((frame, None)), responses)
    } else {
        let (flow, rest) = exec_block(
            source,
            table,
            body,
            (n - 1) as nat,
            frame,
            fuel,
            responses,
        );
        match flow {
            Err(error) => (Err(error), rest),
            Ok((frame, Some(value))) => (Ok((frame, Some(value))), rest),
            Ok((frame, None)) => exec_statement(source, table, body[n - 1], frame, fuel, rest),
        }
    }
}

/// The frame after a statement, and the value that it returned, if it did.
///
/// A declaration and an assignment evaluate their expression and then bind
/// the name. A call drops what it returns. A conditional and a loop need a
/// bit as their condition; their blocks run in the frame of the call. Each
/// round of a loop takes one from the limit.
pub open spec fn exec_statement<'a, B>(
    source: Seq<char>,
    table: Map<Seq<char>, FunctionTableEntry<'a, B>>,
    statement: Located<Statement>,
    frame: Frame,
    fuel: nat,
    responses: Seq<Invocation<'a, B>>,
) -> (Result<(Frame, Option<InterpreterValue>), ErrorView>, Seq<Invocation<'a, B>>)
    decreases fuel, 1int, statement, 0int,
{
    match statement.value {
        Statement::VariableDeclaration(name, type_sig, expression) => {
            let (value, rest) = eval(source, table, expression, frame, fuel, responses);
            match value {
                Err(error) => (Err(error), rest),
                Ok(value) => match declare(
                    source,
                    frame,
                    name.value@,
                    type_sig,
                    value,
                    expression.span(),
                ) {
                    Err(error) => (Err(error), rest),
                    Ok(frame) => (Ok((frame, None)), rest),
                },
            }
        },
        Statement::Assignment(name, expression) => {
            let (value, rest) = eval(source, table, expression, frame, fuel, responses);
            match value {
                Err(error) => (Err(error), rest),
                Ok(value) => match assign(source, frame, name, value) {
                    Err(error) => (Err(error), rest),
                    Ok(frame) => (Ok((frame, None)), rest),
                },
            }
        },
        Statement::Call(name, arguments) => {
            let (result, rest) = call(source, table, name, arguments, frame, fuel, responses);
            match result {
                Err(error) => (Err(error), rest),
                Ok(_) => (Ok((frame, None)), rest),
            }
        },
        Statement::Return(expression) => {
            let (value, rest) = eval(source, table, expression, frame, fuel, responses);
            match value {
                Err(error) => (Err(error), rest),
                Ok(value) => (Ok((frame, Some(value))), rest),
            }
        },
        Statement::If { condition: test, true_body, false_body } => {
            let (value, rest) = eval(source, table, test, frame, fuel, responses);
            match value {
                Err(error) => (Err(error), rest),
                Ok(value) => match condition(source, value, test.span()) {
                    Err(error) => (Err(error), rest),
                    Ok(true) => exec_block(
                        source,
                        table,
                        true_body,
                        true_body.len() as nat,
                        frame,
                        fuel,
                        rest,
                    ),
                    Ok(false) => exec_block(
                        source,
                        table,
                        false_body,
                        false_body.len() as nat,
                        frame,
                        fuel,
                        rest,
                    ),
                },
            }
        },
        Statement::While { condition: test, body } => {
            let (value, rest) = eval(source, table, test, frame, fuel, responses);
            match value {
                Err(error) => (Err(error), rest),
                Ok(value) => match condition(source, value, test.span()) {
                    Err(error) => (Err(error), rest),
                    Ok(false) => (Ok((frame, None)), rest),
                    Ok(true) => {
                        if fuel == 0 {
                            (Err(ErrorView::StepLimitError), rest)
                        } else {
                            let (flow, rest) = exec_block(
                                source,
                                table,
                                body,
                                body.len() as nat,
                                frame,
                                (fuel - 1) as nat,
                                rest,
                            );
                            match flow {
                                Err(error) => (Err(error), rest),
                                Ok((frame, Some(value))) => (Ok((frame, Some(value))), rest),
                                Ok((frame, None)) => exec_statement(
                                    source,
                                    table,
                                    statement,
                                    frame,
                                    (fuel - 1) as nat,
                                    rest,
                                ),
                            }
                        }
                    },
                },
            }
        },
    }
}

/// Evaluating the expression, with the built-in operations answering
/// `answers` in this order, uses up exactly these answers and has the given
/// outcome.
pub open spec fn evaluates_to<'a, B>(
    source: Seq<char>,
    table: Map<Seq<char>, FunctionTableEntry<'a, B>>,
    expression: Located<Expression>,
    frame: Frame,
    fuel: nat,
    answers: Seq<Invocation<'a, B>>,
    outcome: Result<InterpreterValue, ErrorView>,
) -> bool {
    forall|rest: Seq<Invocation<'a, B>>| #[trigger]
        eval(source, table, expression, frame, fuel, answers + rest) == (outcome, rest)
}

/// Evaluating the first `n` arguments uses up exactly `answers` and has the
/// given outcome.
pub open spec fn arguments_evaluate_to<'a, B>(
    source: Seq<char>,
    table: Map<Seq<char>, FunctionTableEntry<'a, B>>,
    arguments: Vec<Located<Expression>>,
    n: nat,
    frame: Frame,
    fuel: nat,
    answers: Seq<Invocation<'a, B>>,
    outcome: Result<Seq<InterpreterValue>, ErrorView>,
) -> bool {
    forall|rest: Seq<Invocation<'a, B>>| #[trigger]
        eval_args(source, table, arguments, n, frame, fuel, answers + rest) == (outcome, rest)
}

/// The call of a name uses up exactly `answers` and has the given outcome.
pub open spec fn call_returns<'a, B>(
    source: Seq<char>,
    table: Map<Seq<char>, FunctionTableEntry<'a, B>>,
    name: Located<Identifier>,
    arguments: Vec<Located<Expression>>,
    frame: Frame,
    fuel: nat,
    answers: Seq<Invocation<'a, B>>,
    outcome: Response,
) -> bool {
    forall|rest: Seq<Invocation<'a, B>>| #[trigger]
        call(source, table, name, arguments, frame, fuel, answers + rest) == (outcome, rest)
}

/// Running the entry uses up exactly `answers` and has the given outcome.
pub open spec fn run_returns<'a, B>(
    source: Seq<char>,
    table: Map<Seq<char>, FunctionTableEntry<'a, B>>,
    entry: FunctionTableEntry<'a, B>,
    values: Seq<InterpreterValue>,
    fuel: nat,
    answers: Seq<Invocation<'a, B>>,
    outcome: Response,
) -> bool {
    forall|rest: Seq<Invocation<'a, B>>| #[trigger]
        run(source, table, entry, values, fuel, answers + rest) == (outcome, rest)
}

/// Running the first `n` statements of the block uses up exactly `answers`
/// and has the given outcome.
pub open spec fn block_ends_in<'a, B>(
    source: Seq<char>,
    table: Map<Seq<char>, FunctionTableEntry<'a, B>>,
    body: Vec<Located<Statement>>,
    n: nat,
    frame: Frame,
    fuel: nat,
    answers: Seq<Invocation<'a, B>>,
    outcome: Result<(Frame, Option<InterpreterValue>), ErrorView>,
) -> bool {
    forall|rest: Seq<Invocation<'a, B>>| #[trigger]
        exec_block(source, table, body, n, frame, fuel, answers + rest) == (outcome, rest)
}

/// Running the statement uses up exactly `answers` and has the given
/// outcome.
pub open spec fn statement_ends_in<'a, B>(
    source: Seq<char>,
    table: Map<Seq<char>, FunctionTableEntry<'a, B>>,
    statement: Located<Statement>,
    frame: Frame,
    fuel: nat,
    answers: Seq<Invocation<'a, B>>,
    outcome: Result<(Frame, Option<InterpreterValue>), ErrorView>,
) -> bool {
    forall|rest: Seq<Invocation<'a, B>>| #[trigger]
        exec_statement(source, table, statement, frame, fuel, answers + rest) == (outcome, rest)
}

/// Once an argument has failed, the arguments behind it are not evaluated.
pub proof fn lemma_eval_args_error<'a, B>(
    source: Seq<char>,
    table: Map<Seq<char>, FunctionTableEntry<'a, B>>,
    arguments: Vec<Located<Expression>>,
    n: nat,
    m: nat,
    frame: Frame,
    fuel: nat,
    responses: Seq<Invocation<'a, B>>,
)
    requires
        n <= m <= arguments.len(),
        eval_args(source, table, arguments, n, frame, fuel, responses).0 is Err,
    ensures
        eval_args(source, table, arguments, m, frame, fuel, responses) == eval_args(
            source,
            table,
            arguments,
            n,
            frame,
            fuel,
            responses,
        ),
    decreases m,
{
    if n < m {
        lemma_eval_args_error(source, table, arguments, n, (m - 1) as nat, frame, fuel, responses);
    }
}

/// Once a statement has failed or returned, the statements behind it are not
/// run.
pub proof fn lemma_exec_block_stops<'a, B>(
    source: Seq<char>,
    table: Map<Seq<char>, FunctionTableEntry<'a, B>>,
    body: Vec<Located<Statement>>,
    n: nat,
    m: nat,
    frame: Frame,
    fuel: nat,
    responses: Seq<Invocation<'a, B>>,
)
    requires
        n <= m <= body.len(),
        match exec_block(source, table, body, n, frame, fuel, responses).0 {
            Err(_) => true,
            Ok((_, returned)) => returned is Some,
        },
    ensures
        exec_block(source, table, body, m, frame, fuel, responses) == exec_block(
            source,
            table,
            body,
            n,
            frame,
            fuel,
            responses,
        ),
    decreases m,
{
    if n < m {
        lemma_exec_block_stops(source, table, body, n, (m - 1) as nat, frame, fuel, responses);
    }
}

/// The table with the names of the standard built-in operations bound to
/// the operations given; a function of the program that has one of these
/// names is hidden.
pub open spec fn with_builtins<'a, B>(
    table: Map<Seq<char>, FunctionTableEntry<'a, B>>,
    builtins: &'a StandardBuiltins<B>,
) -> Map<Seq<char>, FunctionTableEntry<'a, B>> {
    table.insert("print_n"@, FunctionTableEntry::Builtin(&builtins.print_n)).insert(
        "print_b"@,
        FunctionTableEntry::Builtin(&builtins.print_b),
    ).insert("print_q"@, FunctionTableEntry::Builtin(&builtins.print_q)).insert(
        "h"@,
        FunctionTableEntry::Builtin(&builtins.h),
    ).insert("cnot"@, FunctionTableEntry::Builtin(&builtins.cnot)).insert(
        "m"@,
        FunctionTableEntry::Builtin(&builtins.m),
    )
}

/// Whether the table holds an entry point: a function of the program that is
/// named `qmain` and takes no arguments.
pub open spec fn has_entry_point<'a, B>(table: Map<Seq<char>, FunctionTableEntry<'a, B>>) -> bool {
    table.contains_key("qmain"@) && match table["qmain"@] {
        FunctionTableEntry::Interpreted(element) => element.value.spec_prototype().value.arguments.len()
            == 0,
        FunctionTableEntry::Builtin(_) => false,
    }
}

/// What a run of a whole program ends in: the error of a name that two
/// elements share, the error of a program without an entry point, or what
/// running the entry point without arguments ends in.
pub open spec fn run_program<'a, B>(
    source: Seq<char>,
    elements: Seq<Located<FileElement>>,
    builtins: &'a StandardBuiltins<B>,
    fuel: nat,
    responses: Seq<Invocation<'a, B>>,
) -> (Result<(), ErrorView>, Seq<Invocation<'a, B>>) {
    match table_of::<B>(source, elements) {
        Err(error) => (Err(error), responses),
        Ok(table) => {
            let table = with_builtins(table, builtins);
            if !has_entry_point(table) {
                (Err(ErrorView::NoQMainError), responses)
            } else {
                let (result, rest) = run(
                    source,
                    table,
                    table["qmain"@],
                    Seq::empty(),
                    fuel,
                    responses,
                );
                match result {
                    Err(error) => (Err(error), rest),
                    Ok(_) => (Ok(()), rest),
                }
            }
        },
    }
}

/// Running the program uses up exactly `answers` and has the given outcome.
pub open spec fn program_ends_in<'a, B>(
    source: Seq<char>,
    elements: Seq<Located<FileElement>>,
    builtins: &'a StandardBuiltins<B>,
    fuel: nat,
    answers: Seq<Invocation<'a, B>>,
    outcome: Result<(), ErrorView>,
) -> bool {
    forall|rest: Seq<Invocation<'a, B>>| #[trigger]
        run_program(source, elements, builtins, fuel, answers + rest) == (outcome, rest)
}

/// What the built-in operations answer decides how a run ends: two runs of
/// a program in which the same calls were made and answered alike end alike.
pub proof fn lemma_calls_decide_the_outcome<'a, B>(
    source: Seq<char>,
    elements: Seq<Located<FileElement>>,
    builtins: &'a StandardBuiltins<B>,
    fuel: nat,
    answers: Seq<Invocation<'a, B>>,
    first: Result<(), ErrorView>,
    second: Result<(), ErrorView>,
)
    requires
        program_ends_in(source, elements, builtins, fuel, answers, first),
        program_ends_in(source, elements, builtins, fuel, answers, second),
    ensures
        first == second,
{
    let none = Seq::<Invocation<'a, B>>::empty();
    assert(run_program(source, elements, builtins, fuel, answers + none) == (first, none));
    assert(run_program(source, elements, builtins, fuel, answers + none) == (second, none));
}

/// A run makes all the calls that it is said to make: the calls of one run
/// of a program are never the first calls only of another run of it.
pub proof fn lemma_calls_are_made_in_full<'a, B>(
    source: Seq<char>,
    elements: Seq<Located<FileElement>>,
    builtins: &'a StandardBuiltins<B>,
    fuel: nat,
    answers: Seq<Invocation<'a, B>>,
    more: Seq<Invocation<'a, B>>,
    first: Result<(), ErrorView>,
    second: Result<(), ErrorView>,
)
    requires
        program_ends_in(source, elements, builtins, fuel, answers, first),
        program_ends_in(source, elements, builtins, fuel, answers + more, second),
    ensures
        more.len() == 0,
        first == second,
{
    let none = Seq::<Invocation<'a, B>>::empty();
    assert(run_program(source, elements, builtins, fuel, answers + more) == (first, more));
    assert((answers + more) + none =~= answers + more);
    assert(run_program(source, elements, builtins, fuel, (answers + more) + none) == (
        second,
        none,
    ));
}

/// A program without an entry point is not run at all: the run ends in
/// `NoQMainError` and no built-in operation is called, so that none of the
/// answers is used.
pub proof fn lemma_no_entry_point_no_run<'a, B>(
    source: Seq<char>,
    elements: Seq<Located<FileElement>>,
    builtins: &'a StandardBuiltins<B>,
    fuel: nat,
    responses: Seq<Invocation<'a, B>>,
)
    requires
        table_of::<B>(source, elements) is Ok,
        !has_entry_point(with_builtins(table_of::<B>(source, elements)->Ok_0, builtins)),
    ensures
        run_program(source, elements, builtins, fuel, responses) == (
            Err::<(), ErrorView>(ErrorView::NoQMainError),
            responses,
        ),
{
}

/// A run of a program without an entry point has made no call of a built-in
/// operation, and has ended in `NoQMainError`.
pub proof fn lemma_no_entry_point_no_calls<'a, B>(
    source: Seq<char>,
    elements: Seq<Located<FileElement>>,
    builtins: &'a StandardBuiltins<B>,
    fuel: nat,
    answers: Seq<Invocation<'a, B>>,
    outcome: Result<(), ErrorView>,
)
    requires
        table_of::<B>(source, elements) is Ok,
        !has_entry_point(with_builtins(table_of::<B>(source, elements)->Ok_0, builtins)),
        program_ends_in(source, elements, builtins, fuel, answers, outcome),
    ensures
        answers.len() == 0,
        outcome == Err::<(), ErrorView>(ErrorView::NoQMainError),
{
    let none = Seq::<Invocation<'a, B>>::empty();
    assert(run_program(source, elements, builtins, fuel, answers + none) == (outcome, none));
    lemma_no_entry_point_no_run(source, elements, builtins, fuel, answers + none);
    assert((answers + none).len() == answers.len());
}

/// A program none of whose elements is a function named `qmain` without
/// parameters has no entry point.
pub proof fn lemma_program_without_qmain<'a, B>(
    source: Seq<char>,
    elements: Seq<Located<FileElement>>,
    builtins: &'a StandardBuiltins<B>,
    fuel: nat,
    responses: Seq<Invocation<'a, B>>,
)
    requires
        forall|a: int, b: int|
            0 <= a < b < elements.len() ==> elements[a].value.name() != elements[b].value.name(),
        forall|a: int|
            0 <= a < elements.len() ==> !(#[trigger] elements[a].value.name() == "qmain"@
                && elements[a].value.spec_prototype().value.arguments.len() == 0),
    ensures
        run_program(source, elements, builtins, fuel, responses) == (
            Err::<(), ErrorView>(ErrorView::NoQMainError),
            responses,
        ),
{
    lemma_table_of_distinct::<B>(source, elements);
    reveal_strlit("qmain");
    reveal_strlit("print_n");
    reveal_strlit("print_b");
    reveal_strlit("print_q");
    reveal_strlit("h");
    reveal_strlit("cnot");
    reveal_strlit("m");
    let table = table_of::<B>(source, elements)->Ok_0;
    let full = with_builtins(table, builtins);
    assert("qmain"@.len() == 5);
    assert("qmain"@ != "print_n"@);
    assert("qmain"@ != "print_b"@);
    assert("qmain"@ != "print_q"@);
    assert("qmain"@ != "h"@);
    assert("qmain"@ != "cnot"@);
    assert("qmain"@ != "m"@);
    if full.contains_key("qmain"@) {
        assert(table.contains_key("qmain"@));
        let a = choose|a: int|
            0 <= a < elements.len() && #[trigger] elements[a].value.name() == "qmain"@;
        assert(full["qmain"@] == FunctionTableEntry::<B>::Interpreted(&elements[a]));
    }
}

/// A function that was declared and never defined cannot be run: running its
/// entry ends in `LinkingError`, which names the function and points at its
/// declaration. No built-in operation is called.
pub proof fn lemma_declaration_does_not_run<'a, B>(
    source: Seq<char>,
    table: Map<Seq<char>, FunctionTableEntry<'a, B>>,
    element: &'a Located<FileElement>,
    values: Seq<InterpreterValue>,
    fuel: nat,
    responses: Seq<Invocation<'a, B>>,
)
    requires
        element.value is Declaration,
    ensures
        run(source, table, FunctionTableEntry::Interpreted(element), values, fuel, responses) == (
            Err::<Option<InterpreterValue>, ErrorView>(
                ErrorView::LinkingError {
                    name: element.value.name(),
                    src: source,
                    span: element.value.spec_prototype().span(),
                },
            ),
            responses,
        ),
{
}

/// A call of a function that was declared and never defined ends in
/// `LinkingError`, once its arguments have been evaluated and where the limit
/// allows the call.
pub proof fn lemma_call_of_declaration<'a, B>(
    source: Seq<char>,
    table: Map<Seq<char>, FunctionTableEntry<'a, B>>,
    name: Located<Identifier>,
    arguments: Vec<Located<Expression>>,
    frame: Frame,
    fuel: nat,
    responses: Seq<Invocation<'a, B>>,
)
    requires
        fuel > 0,
        table.contains_key(name.value@),
        table[name.value@] is Interpreted,
        table[name.value@]->Interpreted_0.value is Declaration,
        eval_args(source, table, arguments, arguments.len() as nat, frame, fuel, responses).0 is Ok,
    ensures
        call(source, table, name, arguments, frame, fuel, responses) == (
            Err::<Option<InterpreterValue>, ErrorView>(
                ErrorView::LinkingError {
                    name: table[name.value@]->Interpreted_0.value.name(),
                    src: source,
                    span: table[name.value@]->Interpreted_0.value.spec_prototype().span(),
                },
            ),
            eval_args(source, table, arguments, arguments.len() as nat, frame, fuel, responses).1,
        ),
{
}

/// A declaration whose value is not of the declared type ends in
/// `TypeError`, which names the declared type and the type of the value.
pub proof fn lemma_declaration_checks_type<'a, B>(
    source: Seq<char>,
    table: Map<Seq<char>, FunctionTableEntry<'a, B>>,
    statement: Located<Statement>,
    frame: Frame,
    fuel: nat,
    responses: Seq<Invocation<'a, B>>,
)
    requires
        statement.value is VariableDeclaration,
        eval(source, table, statement.value->VariableDeclaration_2, frame, fuel, responses).0 is Ok,
        eval(
            source,
            table,
            statement.value->VariableDeclaration_2,
            frame,
            fuel,
            responses,
        ).0->Ok_0.spec_type_of() != statement.value->VariableDeclaration_1.value,
    ensures
        exec_statement(source, table, statement, frame, fuel, responses) == (
            Err::<(Frame, Option<InterpreterValue>), ErrorView>(
                ErrorView::TypeError {
                    expected: statement.value->VariableDeclaration_1.value.spec_name(),
                    actual: eval(
                        source,
                        table,
                        statement.value->VariableDeclaration_2,
                        frame,
                        fuel,
                        responses,
                    ).0->Ok_0.spec_type_of().spec_name(),
                    src: source,
                    expr_span: statement.value->VariableDeclaration_2.span(),
                    type_span: statement.value->VariableDeclaration_1.span(),
                },
            ),
            eval(source, table, statement.value->VariableDeclaration_2, frame, fuel, responses).1,
        ),
{
}

/// A name that the frame does not bind has no value: evaluating it ends in
/// `UndefinedVariableError`, which names it.
pub proof fn lemma_unbound_name_is_undefined<'a, B>(
    source: Seq<char>,
    table: Map<Seq<char>, FunctionTableEntry<'a, B>>,
    expression: Located<Expression>,
    frame: Frame,
    fuel: nat,
    responses: Seq<Invocation<'a, B>>,
)
    requires
        expression.value is Identifier,
        !frame.contains_key(expression.value->Identifier_0@),
    ensures
        eval(source, table, expression, frame, fuel, responses) == (
            Err::<InterpreterValue, ErrorView>(
                ErrorView::UndefinedVariableError {
                    name: expression.value->Identifier_0@,
                    src: source,
                    span: expression.span(),
                },
            ),
            responses,
        ),
{
}

/// The call of the built-in operation that an expression names, with the
/// qubit that the expression gives as the argument, answered by a bit.
pub open spec fn measurement_of<'a, B>(
    table: Map<Seq<char>, FunctionTableEntry<'a, B>>,
    expression: Located<Expression>,
    bit: bool,
) -> Invocation<'a, B> {
    Invocation {
        callee: table[expression.value->Call_0.value@]->Builtin_0,
        args: seq![InterpreterValue::QubitRef(expression.value->Call_1[0].value->QubitLiteral_0)],
        answer: Ok(Some(InterpreterValue::Bit(bit))),
    }
}

/// The call of the built-in operation that a statement names, with the qubit
/// that the statement gives as the argument, answered by nothing.
pub open spec fn gate_of<'a, B>(
    table: Map<Seq<char>, FunctionTableEntry<'a, B>>,
    statement: Located<Statement>,
) -> Invocation<'a, B> {
    Invocation {
        callee: table[statement.value->Call_0.value@]->Builtin_0,
        args: seq![InterpreterValue::QubitRef(statement.value->Call_1[0].value->QubitLiteral_0)],
        answer: Ok(None),
    }
}

/// The measurement of a qubit, which answers with a bit, has that bit as its
/// value, whatever ran before it and whatever the frame holds: a call of a
/// built-in operation with one argument, a qubit literal, has the value that
/// the operation answers when it is given that qubit.
pub proof fn lemma_measurement_is_a_bit<'a, B>(
    source: Seq<char>,
    table: Map<Seq<char>, FunctionTableEntry<'a, B>>,
    expression: Located<Expression>,
    frame: Frame,
    fuel: nat,
    bit: bool,
    rest: Seq<Invocation<'a, B>>,
)
    requires
        fuel > 0,
        expression.value is Call,
        table.contains_key(expression.value->Call_0.value@),
        table[expression.value->Call_0.value@] is Builtin,
        expression.value->Call_1.len() == 1,
        expression.value->Call_1[0].value is QubitLiteral,
    ensures
        eval(
            source,
            table,
            expression,
            frame,
            fuel,
            seq![measurement_of(table, expression, bit)] + rest,
        ) == (Ok::<InterpreterValue, ErrorView>(InterpreterValue::Bit(bit)), rest),
{
    let answers = seq![measurement_of(table, expression, bit)] + rest;
    let arguments = expression.value->Call_1;
    reveal_with_fuel(eval_args, 2);
    assert(eval_args(source, table, arguments, 1, frame, fuel, answers).1 == answers);
    assert(answers.skip(1) =~= rest);
}

/// A gate applied to a qubit, followed by the declaration of a bit whose
/// value is the measurement of that qubit, never ends in a type error. Where
/// applying returns nothing and measuring returns a bit, both
/// statements run, and they end with the variable bound to that bit,
/// whatever the frame held before.
pub proof fn lemma_gate_then_measurement<'a, B>(
    source: Seq<char>,
    table: Map<Seq<char>, FunctionTableEntry<'a, B>>,
    body: Vec<Located<Statement>>,
    frame: Frame,
    fuel: nat,
    bit: bool,
    rest: Seq<Invocation<'a, B>>,
)
    requires
        fuel > 0,
        body.len() == 2,
        body[0].value is Call,
        table.contains_key(body[0].value->Call_0.value@),
        table[body[0].value->Call_0.value@] is Builtin,
        body[0].value->Call_1.len() == 1,
        body[0].value->Call_1[0].value is QubitLiteral,
        body[1].value is VariableDeclaration,
        body[1].value->VariableDeclaration_1.value == Type::Bit,
        body[1].value->VariableDeclaration_2.value is Call,
        table.contains_key(body[1].value->VariableDeclaration_2.value->Call_0.value@),
        table[body[1].value->VariableDeclaration_2.value->Call_0.value@] is Builtin,
        body[1].value->VariableDeclaration_2.value->Call_1.len() == 1,
        body[1].value->VariableDeclaration_2.value->Call_1[0].value is QubitLiteral,
    ensures
        exec_block(
            source,
            table,
            body,
            2,
            frame,
            fuel,
            seq![
                gate_of(table, body[0]),
                measurement_of(table, body[1].value->VariableDeclaration_2, bit),
            ] + rest,
        ) == (
            Ok::<(Frame, Option<InterpreterValue>), ErrorView>(
                (
                    frame.insert(
                        body[1].value->VariableDeclaration_0.value@,
                        InterpreterValue::Bit(bit),
                    ),
                    None,
                ),
            ),
            rest,
        ),
{
    let measured = measurement_of(table, body[1].value->VariableDeclaration_2, bit);
    let answers = seq![gate_of(table, body[0]), measured] + rest;
    let later = seq![measured] + rest;
    reveal_with_fuel(eval_args, 2);
    reveal_with_fuel(exec_block, 3);
    assert(answers.skip(1) =~= later);
    let gate = body[0].value->Call_0;
    let operands = body[0].value->Call_1;
    assert(eval_args(source, table, operands, 1, frame, fuel, answers).1 == answers);
    assert(eval_args(source, table, operands, 1, frame, fuel, answers).0 is Ok);
    assert(answers[0] == gate_of(table, body[0]));
    assert(eval_args(source, table, operands, 1, frame, fuel, answers).0->Ok_0 =~= gate_of(
        table,
        body[0],
    ).args);
    assert(call(source, table, gate, operands, frame, fuel, answers) == (
        Ok::<Option<InterpreterValue>, ErrorView>(None),
        later,
    ));
    assert(exec_statement(source, table, body[0], frame, fuel, answers) == (
        Ok::<(Frame, Option<InterpreterValue>), ErrorView>((frame, None)),
        later,
    ));
    lemma_measurement_is_a_bit(
        source,
        table,
        body[1].value->VariableDeclaration_2,
        frame,
        fuel,
        bit,
        rest,
    );
}

/// A conditional or a loop whose condition is not a bit ends in `TypeError`:
/// a number or a qubit is never taken for true or false.
pub proof fn lemma_condition_must_be_a_bit<'a, B>(
    source: Seq<char>,
    table: Map<Seq<char>, FunctionTableEntry<'a, B>>,
    statement: Located<Statement>,
    frame: Frame,
    fuel: nat,
    responses: Seq<Invocation<'a, B>>,
)
    requires
        statement.value is While || statement.value is If,
        ({
            let test = if statement.value is While {
                statement.value->While_condition
            } else {
                statement.value->If_condition
            };
            &&& eval(source, table, test, frame, fuel, responses).0 is Ok
            &&& !(eval(source, table, test, frame, fuel, responses).0->Ok_0 is Bit)
        }),
    ensures
        ({
            let test = if statement.value is While {
                statement.value->While_condition
            } else {
                statement.value->If_condition
            };
            exec_statement(source, table, statement, frame, fuel, responses) == (
                Err::<(Frame, Option<InterpreterValue>), ErrorView>(
                    ErrorView::TypeError {
                        expected: "Bit"@,
                        actual: eval(
                            source,
                            table,
                            test,
                            frame,
                            fuel,
                            responses,
                        ).0->Ok_0.spec_type_of().spec_name(),
                        src: source,
                        expr_span: test.span(),
                        type_span: None,
                    },
                ),
                eval(source, table, test, frame, fuel, responses).1,
            )
        }),
{
}

/// A loop whose condition is a number literal ends in `TypeError` before its
/// body is run once.
pub proof fn lemma_number_is_no_condition<'a, B>(
    source: Seq<char>,
    table: Map<Seq<char>, FunctionTableEntry<'a, B>>,
    statement: Located<Statement>,
    frame: Frame,
    fuel: nat,
    responses: Seq<Invocation<'a, B>>,
)
    requires
        statement.value is While,
        statement.value->While_condition.value is NumberLiteral,
    ensures
        exec_statement(source, table, statement, frame, fuel, responses) == (
            Err::<(Frame, Option<InterpreterValue>), ErrorView>(
                ErrorView::TypeError {
                    expected: "Bit"@,
                    actual: "Number"@,
                    src: source,
                    expr_span: statement.value->While_condition.span(),
                    type_span: None,
                },
            ),
            responses,
        ),
{
    let test = statement.value->While_condition;
    assert(eval(source, table, test, frame, fuel, responses) == (
        Ok::<InterpreterValue, ErrorView>(InterpreterValue::Number(test.value->NumberLiteral_0)),
        responses,
    ));
}

} // verus!
