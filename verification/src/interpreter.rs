//! The function table of a program, and the evaluation of the program
//! against built-in operations that the caller supplies.
use vstd::prelude::*;
use vstd::string::StringExecFns;
use crate::ast::{
    ArgumentDeclaration, Expression, FileElement, Identifier, Located, Program, Statement, Type,
};
use crate::error::{ErrorView, QKaledioscopeError};
use crate::semantics::{
    Frame, Invocation, Response, arguments_evaluate_to, assign, bind, bind_first,
    block_ends_in, call, call_returns, condition, declare, eval, eval_args, evaluates_to, exec_block, exec_statement,
    expect_value, lemma_eval_args_error, lemma_exec_block_stops, lookup, program_ends_in, run,
    run_program, run_returns, statement_ends_in,
};
use crate::span::SourceSpan;
use crate::table::Table;

verus! {

/// A value of a running program. A number is held as its IEEE 754 bit
/// pattern; a qubit is the index of a qubit, which copying the value does not
/// copy.
#[derive(Debug, Clone, Copy, PartialEq, Eq, Structural)]
pub enum InterpreterValue {
    QubitRef(usize),
    Number(u64),
    Bit(bool),
}

impl InterpreterValue {
    /// The type that the value belongs to.
    pub open spec fn spec_type_of(self) -> Type {
        match self {
            InterpreterValue::QubitRef(_) => Type::Qubit,
            InterpreterValue::Number(_) => Type::Number,
            InterpreterValue::Bit(_) => Type::Bit,
        }
    }

    /// The type that the value belongs to.
    #[verifier::when_used_as_spec(spec_type_of)]
    pub fn type_of(self) -> (type_sig: Type)
        ensures
            type_sig == self.spec_type_of(),
    {
        match self {
            InterpreterValue::QubitRef(_) => Type::Qubit,
            InterpreterValue::Number(_) => Type::Number,
            InterpreterValue::Bit(_) => Type::Bit,
        }
    }
}

/// The bindings of the local variables of one call.
pub type LocalSymbolTable = Table<InterpreterValue>;

/// An operation that a program calls by name and that is not written in the
/// language. Nothing is promised of what it returns.
pub trait Builtin {
    fn call(&self, args: &[InterpreterValue]) -> Result<
        Option<InterpreterValue>,
        QKaledioscopeError,
    >;
}

/// The built-in operations that every program can call: `print_n`,
/// `print_b` and `print_q` show a value, `h` and `cnot` apply a gate to
/// qubits, and `m` measures a qubit.
pub struct StandardBuiltins<B> {
    pub print_n: B,
    pub print_b: B,
    pub print_q: B,
    pub h: B,
    pub cnot: B,
    pub m: B,
}

/// What a name of the function table stands for: an element of the program,
/// or a built-in operation.
pub enum FunctionTableEntry<'a, B> {
    Interpreted(&'a Located<FileElement>),
    Builtin(&'a B),
}

impl<'a, B> FunctionTableEntry<'a, B> {
    /// The place of the element behind the entry; a built-in operation has
    /// none.
    pub open spec fn span(self) -> Option<SourceSpan> {
        match self {
            FunctionTableEntry::Interpreted(element) => element.span(),
            FunctionTableEntry::Builtin(_) => None,
        }
    }
}

/// The functions that a program can call, by name.
pub struct FunctionTable<'a, B> {
    fns: Table<FunctionTableEntry<'a, B>>,
}

impl<'a, B> View for FunctionTable<'a, B> {
    type V = Map<Seq<char>, FunctionTableEntry<'a, B>>;

    closed spec fn view(&self) -> Map<Seq<char>, FunctionTableEntry<'a, B>> {
        self.fns@
    }
}

/// The table of the elements of a program, or the error of the first element
/// whose name an earlier element has: it names both places.
pub open spec fn table_of<'a, B>(source: Seq<char>, elements: Seq<Located<FileElement>>) -> Result<
    Map<Seq<char>, FunctionTableEntry<'a, B>>,
    ErrorView,
>
    decreases elements.len(),
{
    if elements.len() == 0 {
        Ok(Map::empty())
    } else {
        match table_of::<B>(source, elements.drop_last()) {
            Err(error) => Err(error),
            Ok(table) => {
                let element = elements.last();
                let name = element.value.name();
                if table.contains_key(name) {
                    Err(
                        ErrorView::DuplicateNameError {
                            name,
                            src: source,
                            old_span: table[name].span(),
                            new_span: element.span(),
                        },
                    )
                } else {
                    Ok(table.insert(name, FunctionTableEntry::Interpreted(&element)))
                }
            },
        }
    }
}

/// A table that could not be built for some elements cannot be built for
/// more, for the same reason.
pub proof fn lemma_table_of_error<'a, B>(
    source: Seq<char>,
    elements: Seq<Located<FileElement>>,
    n: int,
)
    requires
        0 <= n <= elements.len(),
        table_of::<B>(source, elements.take(n)) is Err,
    ensures
        table_of::<B>(source, elements) == table_of::<B>(source, elements.take(n)),
    decreases elements.len() - n,
{
    if n == elements.len() {
        assert(elements.take(n) == elements);
    } else {
        assert(elements.take(n + 1).drop_last() == elements.take(n));
        lemma_table_of_error::<B>(source, elements, n + 1);
    }
}

/// The table of elements among which no name is repeated binds exactly the
/// names of the elements, each to its element.
pub proof fn lemma_table_of_distinct<'a, B>(source: Seq<char>, elements: Seq<Located<FileElement>>)
    requires
        forall|a: int, b: int|
            0 <= a < b < elements.len() ==> elements[a].value.name() != elements[b].value.name(),
    ensures
        table_of::<B>(source, elements) is Ok,
        forall|name: Seq<char>|
            table_of::<B>(source, elements)->Ok_0.contains_key(name) <==> exists|a: int|
                0 <= a < elements.len() && #[trigger] elements[a].value.name() == name,
        forall|a: int|
            0 <= a < elements.len() ==> table_of::<B>(source, elements)->Ok_0[#[trigger] elements[a].value.name()]
                == FunctionTableEntry::<B>::Interpreted(&elements[a]),
    decreases elements.len(),
{
    if elements.len() != 0 {
        let front = elements.drop_last();
        lemma_table_of_distinct::<B>(source, front);
        let table = table_of::<B>(source, front)->Ok_0;
        let name = elements.last().value.name();
        if table.contains_key(name) {
            let a = choose|a: int| 0 <= a < front.len() && #[trigger] front[a].value.name() == name;
            assert(elements[a].value.name() == elements[elements.len() - 1].value.name());
        }
        let full = table_of::<B>(source, elements)->Ok_0;
        assert forall|key: Seq<char>| full.contains_key(key) <==> exists|a: int|
            0 <= a < elements.len() && #[trigger] elements[a].value.name() == key by {
            if full.contains_key(key) {
                if key == name {
                    assert(elements[elements.len() - 1].value.name() == key);
                } else {
                    let a = choose|a: int|
                        0 <= a < front.len() && #[trigger] front[a].value.name() == key;
                    assert(elements[a].value.name() == key);
                }
            }
            if exists|a: int| 0 <= a < elements.len() && #[trigger] elements[a].value.name() == key {
                let a = choose|a: int|
                    0 <= a < elements.len() && #[trigger] elements[a].value.name() == key;
                if a < front.len() {
                    assert(front[a].value.name() == key);
                }
            }
        }
        assert forall|a: int| 0 <= a < elements.len() implies full[#[trigger] elements[a].value.name()]
            == FunctionTableEntry::<B>::Interpreted(&elements[a]) by {
            if a < front.len() {
                assert(front[a] == elements[a]);
                assert(front[a].value.name() != name);
            }
        }
    }
}

/// The first element whose name an earlier element has decides the outcome:
/// the table cannot be built, and the error names the shared name, the place
/// of the earlier element and the place of the later one. It does not matter
/// which of the two is a declaration and which a definition.
pub proof fn lemma_first_duplicate_is_reported<'a, B>(
    source: Seq<char>,
    elements: Seq<Located<FileElement>>,
    i: int,
    j: int,
)
    requires
        0 <= i < j < elements.len(),
        elements[i].value.name() == elements[j].value.name(),
        forall|a: int, b: int|
            0 <= a < b < j ==> elements[a].value.name() != elements[b].value.name(),
    ensures
        table_of::<B>(source, elements) == Err::<
            Map<Seq<char>, FunctionTableEntry<'a, B>>,
            ErrorView,
        >(
            ErrorView::DuplicateNameError {
                name: elements[j].value.name(),
                src: source,
                old_span: elements[i].span(),
                new_span: elements[j].span(),
            },
        ),
{
    let front = elements.take(j);
    lemma_table_of_distinct::<B>(source, front);
    assert(front[i].value.name() == elements[j].value.name());
    assert(elements.take(j + 1).drop_last() == front);
    assert(elements.take(j + 1).last() == elements[j]);
    lemma_table_of_error::<B>(source, elements, j + 1);
}

/// A program in which two elements have the same name has no function table:
/// building it ends in the error of a duplicate name.
pub proof fn lemma_duplicate_name_is_rejected<'a, B>(
    source: Seq<char>,
    elements: Seq<Located<FileElement>>,
    i: int,
    j: int,
)
    requires
        0 <= i < j < elements.len(),
        elements[i].value.name() == elements[j].value.name(),
    ensures
        table_of::<B>(source, elements) is Err,
        table_of::<B>(source, elements)->Err_0 is DuplicateNameError,
    decreases j,
{
    if forall|a: int, b: int|
        0 <= a < b < j ==> elements[a].value.name() != elements[b].value.name() {
        lemma_first_duplicate_is_reported::<B>(source, elements, i, j);
    } else {
        let (a, b) = choose|a: int, b: int|
            0 <= a < b < j && elements[a].value.name() == elements[b].value.name();
        lemma_duplicate_name_is_rejected::<B>(source, elements, a, b);
    }
}

impl<'a, B> FunctionTable<'a, B> {
    /// Binds a name to a built-in operation, in place of what the name stood
    /// for.
    pub fn register_builtin(&mut self, ident: &Identifier, f: &'a B)
        ensures
            final(self)@ == old(self)@.insert(ident@, FunctionTableEntry::Builtin(f)),
    {
        self.fns.insert(ident.clone(), FunctionTableEntry::Builtin(f));
    }

    /// What a name stands for.
    pub fn get(&self, ident: &Identifier) -> (entry: Option<&FunctionTableEntry<'a, B>>)
        ensures
            match entry {
                Some(entry) => self@.contains_key(ident@) && *entry == self@[ident@],
                None => !self@.contains_key(ident@),
            },
    {
        self.fns.get(ident)
    }

    /// The table of the top-level elements of a program, declared or
    /// defined, each under its name. No two elements may have the same name.
    pub fn build(source: &str, value: &'a Program) -> (table: Result<Self, QKaledioscopeError>)
        ensures
            match table {
                Ok(table) => table_of::<B>(source@, value.0@) == Ok::<
                    Map<Seq<char>, FunctionTableEntry<'a, B>>,
                    ErrorView,
                >(table@),
                Err(error) => table_of::<B>(source@, value.0@) == Err::<
                    Map<Seq<char>, FunctionTableEntry<'a, B>>,
                    ErrorView,
                >(error@),
            },
    {
        let mut fns: Table<FunctionTableEntry<'a, B>> = Table::new();
        let mut i: usize = 0;
        assert(value.0@.take(0).len() == 0);
        while i < value.0.len()
            invariant
                i <= value.0.len(),
                table_of::<B>(source@, value.0@.take(i as int)) == Ok::<
                    Map<Seq<char>, FunctionTableEntry<'a, B>>,
                    ErrorView,
                >(fns@),
            decreases value.0.len() - i,
        {
            let element = &value.0[i];
            let ident = &element.value.prototype().value.name;
            proof {
                assert(value.0@.take(i + 1).drop_last() == value.0@.take(i as int));
                assert(value.0@.take(i + 1).last() == *element);
            }
            match fns.get(&ident.value) {
                Some(existing) => {
                    let old_span = match existing {
                        FunctionTableEntry::Interpreted(file_element) => {
                            file_element.as_sourcespan()
                        },
                        FunctionTableEntry::Builtin(_) => None,
                    };
                    proof {
                        lemma_table_of_error::<B>(source@, value.0@, i + 1);
                    }
                    return Err(
                        QKaledioscopeError::DuplicateNameError {
                            src: String::from_str(source),
                            name: ident.value.0.clone(),
                            new_span: element.as_sourcespan(),
                            old_span,
                        },
                    );
                },
                None => {
                    fns.insert(ident.value.clone(), FunctionTableEntry::Interpreted(element));
                },
            }
            i += 1;
        }
        assert(value.0@.take(i as int) == value.0@);
        Ok(FunctionTable { fns })
    }
}

/// The view of the outcome of an evaluation.
pub open spec fn value_view(result: Result<InterpreterValue, QKaledioscopeError>) -> Result<
    InterpreterValue,
    ErrorView,
> {
    match result {
        Ok(value) => Ok(value),
        Err(error) => Err(error@),
    }
}

/// The view of what a call returned.
pub open spec fn response_view(
    result: Result<Option<InterpreterValue>, QKaledioscopeError>,
) -> Response {
    match result {
        Ok(returned) => Ok(returned),
        Err(error) => Err(error@),
    }
}

/// The value of a variable of the frame.
pub fn lookup_variable(
    source: &str,
    symbol_table: &LocalSymbolTable,
    name: &Identifier,
    span: Option<SourceSpan>,
) -> (value: Result<InterpreterValue, QKaledioscopeError>)
    ensures
        value_view(value) == lookup(source@, symbol_table@, name@, span),
{
    match symbol_table.get(name) {
        Some(value) => Ok(*value),
        None => Err(
            QKaledioscopeError::UndefinedVariableError {
                name: name.0.clone(),
                src: String::from_str(source),
                span,
            },
        ),
    }
}

/// Binds a declared variable to its first value, which has to be of the
/// declared type.
pub fn declare_variable(
    source: &str,
    symbol_table: &mut LocalSymbolTable,
    name: &Identifier,
    type_sig: &Located<Type>,
    value: InterpreterValue,
    expr_span: Option<SourceSpan>,
) -> (done: Result<(), QKaledioscopeError>)
    ensures
        match done {
            Ok(_) => declare(source@, old(symbol_table)@, name@, *type_sig, value, expr_span)
                == Ok::<Frame, ErrorView>(final(symbol_table)@),
            Err(error) => declare(source@, old(symbol_table)@, name@, *type_sig, value, expr_span)
                == Err::<Frame, ErrorView>(error@) && *final(symbol_table) == *old(symbol_table),
        },
{
    let matches = match (type_sig.value, value) {
        (Type::Bit, InterpreterValue::Bit(_)) => true,
        (Type::Number, InterpreterValue::Number(_)) => true,
        (Type::Qubit, InterpreterValue::QubitRef(_)) => true,
        _ => false,
    };
    if matches {
        symbol_table.insert(name.clone(), value);
        Ok(())
    } else {
        Err(
            QKaledioscopeError::TypeError {
                expected: String::from_str(type_sig.value.name()),
                actual: String::from_str(value.type_of().name()),
                expr_span,
                type_span: type_sig.as_sourcespan(),
                src: String::from_str(source),
            },
        )
    }
}

/// Binds a variable that is bound already to a new value.
pub fn assign_variable(
    source: &str,
    symbol_table: &mut LocalSymbolTable,
    name: &Located<Identifier>,
    value: InterpreterValue,
) -> (done: Result<(), QKaledioscopeError>)
    ensures
        match done {
            Ok(_) => assign(source@, old(symbol_table)@, *name, value) == Ok::<Frame, ErrorView>(
                final(symbol_table)@,
            ),
            Err(error) => assign(source@, old(symbol_table)@, *name, value) == Err::<
                Frame,
                ErrorView,
            >(error@) && *final(symbol_table) == *old(symbol_table),
        },
{
    if symbol_table.contains(&name.value) {
        symbol_table.insert(name.value.clone(), value);
        Ok(())
    } else {
        Err(
            QKaledioscopeError::UndefinedVariableError {
                name: name.value.0.clone(),
                src: String::from_str(source),
                span: name.as_sourcespan(),
            },
        )
    }
}

/// The bit that the condition of a conditional or a loop evaluated to.
pub fn condition_bit(source: &str, value: InterpreterValue, span: Option<SourceSpan>) -> (bit:
    Result<bool, QKaledioscopeError>)
    ensures
        match bit {
            Ok(bit) => condition(source@, value, span) == Ok::<bool, ErrorView>(bit),
            Err(error) => condition(source@, value, span) == Err::<bool, ErrorView>(error@),
        },
{
    match value {
        InterpreterValue::Bit(bit) => Ok(bit),
        _ => Err(
            QKaledioscopeError::TypeError {
                expected: String::from_str(Type::Bit.name()),
                actual: String::from_str(value.type_of().name()),
                expr_span: span,
                type_span: None,
                src: String::from_str(source),
            },
        ),
    }
}

/// The value of a call that stands where a value is needed.
pub fn value_of_call(
    source: &str,
    name: &Identifier,
    span: Option<SourceSpan>,
    result: Result<Option<InterpreterValue>, QKaledioscopeError>,
) -> (value: Result<InterpreterValue, QKaledioscopeError>)
    ensures
        value_view(value) == expect_value(source@, name@, span, response_view(result)),
{
    match result {
        Err(error) => Err(error),
        Ok(Some(value)) => Ok(value),
        Ok(None) => Err(
            QKaledioscopeError::MissingValueError {
                name: name.0.clone(),
                src: String::from_str(source),
                span,
            },
        ),
    }
}

/// The frame of a call: the parameters bound to the arguments by position,
/// as far as both go.
pub fn bind_arguments(
    parameters: &Vec<Located<ArgumentDeclaration>>,
    args: &Vec<InterpreterValue>,
) -> (symbol_table: LocalSymbolTable)
    ensures
        symbol_table@ == bind(parameters@, args@),
{
    let mut symbol_table = LocalSymbolTable::new();
    let n = if parameters.len() <= args.len() {
        parameters.len()
    } else {
        args.len()
    };
    let mut i: usize = 0;
    while i < n
        invariant
            i <= n,
            n <= parameters.len(),
            n <= args.len(),
            symbol_table@ == bind_first(parameters@, args@, i as nat),
        decreases n - i,
    {
        symbol_table.insert(parameters[i].value.0.value.clone(), args[i]);
        i += 1;
    }
    symbol_table
}

/// Evaluates an expression and records what the built-in operations
/// answered on the way.
fn eval_traced<'a, B: Builtin>(
    expression: &Located<Expression>,
    source: &str,
    fn_table: &FunctionTable<'a, B>,
    symbol_table: &LocalSymbolTable,
    fuel: u64,
) -> (traced: (Result<InterpreterValue, QKaledioscopeError>, Ghost<Seq<Invocation<'a, B>>>))
    ensures
        evaluates_to(
            source@,
            fn_table@,
            *expression,
            symbol_table@,
            fuel as nat,
            traced.1@,
            value_view(traced.0),
        ),
    decreases fuel, 0int, *expression, 0int,
{
    let ghost none = Seq::<Invocation<'a, B>>::empty();
    match &expression.value {
        Expression::BitLiteral(bit) => {
            assert forall|rest: Seq<Invocation<'a, B>>| none + rest == rest by {
                assert(none + rest =~= rest);
            }
            (Ok(InterpreterValue::Bit(*bit)), Ghost(none))
        },
        Expression::NumberLiteral(bits) => {
            assert forall|rest: Seq<Invocation<'a, B>>| none + rest == rest by {
                assert(none + rest =~= rest);
            }
            (Ok(InterpreterValue::Number(*bits)), Ghost(none))
        },
        Expression::QubitLiteral(index) => {
            assert forall|rest: Seq<Invocation<'a, B>>| none + rest == rest by {
                assert(none + rest =~= rest);
            }
            (Ok(InterpreterValue::QubitRef(*index)), Ghost(none))
        },
        Expression::Identifier(name) => {
            assert forall|rest: Seq<Invocation<'a, B>>| none + rest == rest by {
                assert(none + rest =~= rest);
            }
            (lookup_variable(source, symbol_table, name, expression.as_sourcespan()), Ghost(none))
        },
        Expression::Call(name, arguments) => {
            proof {
                assert(decreases_to!(*expression => expression.value));
                assert(decreases_to!(expression.value => *arguments));
            }
            let (result, Ghost(answers)) = call_traced(
                source,
                fn_table,
                name,
                arguments,
                symbol_table,
                fuel,
            );
            let value = value_of_call(source, &name.value, expression.as_sourcespan(), result);
            proof {
                assert forall|rest: Seq<Invocation<'a, B>>| #[trigger]
                    eval(
                        source@,
                        fn_table@,
                        *expression,
                        symbol_table@,
                        fuel as nat,
                        answers + rest,
                    ) == (value_view(value), rest) by {
                    assert(call(
                        source@,
                        fn_table@,
                        *name,
                        *arguments,
                        symbol_table@,
                        fuel as nat,
                        answers + rest,
                    ) == (response_view(result), rest));
                }
            }
            (value, Ghost(answers))
        },
    }
}

/// Calls a name with arguments and records what the built-in operations
/// answered on the way.
fn call_traced<'a, B: Builtin>(
    source: &str,
    fn_table: &FunctionTable<'a, B>,
    name: &Located<Identifier>,
    arguments: &Vec<Located<Expression>>,
    symbol_table: &LocalSymbolTable,
    fuel: u64,
) -> (traced: (Result<Option<InterpreterValue>, QKaledioscopeError>, Ghost<Seq<Invocation<'a, B>>>))
    ensures
        call_returns(
            source@,
            fn_table@,
            *name,
            *arguments,
            symbol_table@,
            fuel as nat,
            traced.1@,
            response_view(traced.0),
        ),
    decreases fuel, 0int, *arguments, arguments.len() + 1,
{
    let ghost none = Seq::<Invocation<'a, B>>::empty();
    let function = match fn_table.get(&name.value) {
        Some(function) => function,
        None => {
            assert forall|rest: Seq<Invocation<'a, B>>| none + rest == rest by {
                assert(none + rest =~= rest);
            }
            return (
                Err(
                    QKaledioscopeError::UndefinedFunctionError {
                        name: name.value.0.clone(),
                        src: String::from_str(source),
                        span: name.as_sourcespan(),
                    },
                ),
                Ghost(none),
            );
        },
    };
    let mut arg_values: Vec<InterpreterValue> = Vec::new();
    let ghost mut answers = none;
    let mut i: usize = 0;
    proof {
        assert forall|rest: Seq<Invocation<'a, B>>| #[trigger]
            eval_args(
                source@,
                fn_table@,
                *arguments,
                0,
                symbol_table@,
                fuel as nat,
                answers + rest,
            ) == (Ok::<Seq<InterpreterValue>, ErrorView>(arg_values@), rest) by {
            assert(none + rest =~= rest);
        }
    }
    while i < arguments.len()
        invariant
            i <= arguments.len(),
            fn_table@.contains_key(name.value@),
            arguments_evaluate_to(
                source@,
                fn_table@,
                *arguments,
                i as nat,
                symbol_table@,
                fuel as nat,
                answers,
                Ok(arg_values@),
            ),
        decreases arguments.len() - i,
    {
        proof {
            vstd::std_specs::vec::axiom_vec_index_decreases(*arguments, i as int);
            assert(decreases_to!(*arguments => arguments[i as int]));
        }
        let (value, Ghost(more)) = eval_traced(&arguments[i], source, fn_table, symbol_table, fuel);
        let ghost before = answers;
        let ghost values_before = arg_values@;
        proof {
            answers = before + more;
            assert forall|rest: Seq<Invocation<'a, B>>| #[trigger]
                eval_args(
                    source@,
                    fn_table@,
                    *arguments,
                    (i + 1) as nat,
                    symbol_table@,
                    fuel as nat,
                    answers + rest,
                ) == (
                    match value_view(value) {
                        Ok(value) => Ok::<Seq<InterpreterValue>, ErrorView>(
                            values_before.push(value),
                        ),
                        Err(error) => Err(error),
                    },
                    rest,
                ) by {
                assert((before + more) + rest =~= before + (more + rest));
                assert(eval_args(
                    source@,
                    fn_table@,
                    *arguments,
                    i as nat,
                    symbol_table@,
                    fuel as nat,
                    before + (more + rest),
                ) == (Ok::<Seq<InterpreterValue>, ErrorView>(values_before), more + rest));
                assert(eval(
                    source@,
                    fn_table@,
                    arguments[i as int],
                    symbol_table@,
                    fuel as nat,
                    more + rest,
                ) == (value_view(value), rest));
            }
        }
        match value {
            Err(error) => {
                proof {
                    assert forall|rest: Seq<Invocation<'a, B>>| #[trigger]
                        call(
                            source@,
                            fn_table@,
                            *name,
                            *arguments,
                            symbol_table@,
                            fuel as nat,
                            answers + rest,
                        ) == (Err::<Option<InterpreterValue>, ErrorView>(error@), rest) by {
                        assert(eval_args(
                            source@,
                            fn_table@,
                            *arguments,
                            (i + 1) as nat,
                            symbol_table@,
                            fuel as nat,
                            answers + rest,
                        ) == (Err::<Seq<InterpreterValue>, ErrorView>(error@), rest));
                        lemma_eval_args_error(
                            source@,
                            fn_table@,
                            *arguments,
                            (i + 1) as nat,
                            arguments.len() as nat,
                            symbol_table@,
                            fuel as nat,
                            answers + rest,
                        );
                    }
                }
                return (Err(error), Ghost(answers));
            },
            Ok(value) => {
                arg_values.push(value);
            },
        }
        i += 1;
    }
    let ghost values = arg_values@;
    if fuel == 0 {
        proof {
            assert forall|rest: Seq<Invocation<'a, B>>| #[trigger]
                call(
                    source@,
                    fn_table@,
                    *name,
                    *arguments,
                    symbol_table@,
                    fuel as nat,
                    answers + rest,
                ) == (Err::<Option<InterpreterValue>, ErrorView>(ErrorView::StepLimitError), rest) by {
                assert(eval_args(
                    source@,
                    fn_table@,
                    *arguments,
                    arguments.len() as nat,
                    symbol_table@,
                    fuel as nat,
                    answers + rest,
                ) == (Ok::<Seq<InterpreterValue>, ErrorView>(values), rest));
            }
        }
        return (Err(QKaledioscopeError::StepLimitError), Ghost(answers));
    }
    let (result, Ghost(more)) = run_traced(function, source, fn_table, arg_values, fuel - 1);
    proof {
        assert forall|rest: Seq<Invocation<'a, B>>| #[trigger]
            call(
                source@,
                fn_table@,
                *name,
                *arguments,
                symbol_table@,
                fuel as nat,
                (answers + more) + rest,
            ) == (response_view(result), rest) by {
            assert((answers + more) + rest =~= answers + (more + rest));
            assert(eval_args(
                source@,
                fn_table@,
                *arguments,
                arguments.len() as nat,
                symbol_table@,
                fuel as nat,
                answers + (more + rest),
            ) == (Ok::<Seq<InterpreterValue>, ErrorView>(values), more + rest));
            assert(run(source@, fn_table@, *function, values, (fuel - 1) as nat, more + rest) == (
                response_view(result),
                rest,
            ));
        }
    }
    (result, Ghost(answers + more))
}

/// Runs an entry of the function table and records what the built-in
/// operations answered on the way.
fn run_traced<'a, B: Builtin>(
    entry: &FunctionTableEntry<'a, B>,
    source: &str,
    table: &FunctionTable<'a, B>,
    args: Vec<InterpreterValue>,
    fuel: u64,
) -> (traced: (Result<Option<InterpreterValue>, QKaledioscopeError>, Ghost<Seq<Invocation<'a, B>>>))
    ensures
        run_returns(
            source@,
            table@,
            *entry,
            args@,
            fuel as nat,
            traced.1@,
            response_view(traced.0),
        ),
    decreases fuel, 2int,
{
    let ghost none = Seq::<Invocation<'a, B>>::empty();
    match entry {
        FunctionTableEntry::Builtin(f) => {
            let result = f.call(args.as_slice());
            let ghost answers = seq![
                Invocation { callee: *f, args: args@, answer: response_view(result) },
            ];
            proof {
                assert forall|rest: Seq<Invocation<'a, B>>| #[trigger]
                    run(source@, table@, *entry, args@, fuel as nat, answers + rest) == (
                        response_view(result),
                        rest,
                    ) by {
                    assert((answers + rest).skip(1) =~= rest);
                    assert((answers + rest)[0] == answers[0]);
                }
            }
            (result, Ghost(answers))
        },
        FunctionTableEntry::Interpreted(file_element) => match &file_element.value {
            FileElement::Declaration(prototype) => {
                assert forall|rest: Seq<Invocation<'a, B>>| none + rest == rest by {
                    assert(none + rest =~= rest);
                }
                (
                    Err(
                        QKaledioscopeError::LinkingError {
                            name: prototype.value.name.value.0.clone(),
                            src: String::from_str(source),
                            span: prototype.as_sourcespan(),
                        },
                    ),
                    Ghost(none),
                )
            },
            FileElement::Definition { prototype, body } => {
                let mut symbol_table = bind_arguments(&prototype.value.arguments, &args);
                let ghost frame = symbol_table@;
                let (flow, Ghost(answers)) = block_traced(
                    source,
                    table,
                    body,
                    &mut symbol_table,
                    fuel,
                );
                proof {
                    assert forall|rest: Seq<Invocation<'a, B>>| #[trigger]
                        run(source@, table@, *entry, args@, fuel as nat, answers + rest) == (
                            response_view(flow),
                            rest,
                        ) by {
                        assert(exec_block(
                            source@,
                            table@,
                            *body,
                            body.len() as nat,
                            frame,
                            fuel as nat,
                            answers + rest,
                        ).1 == rest);
                    }
                }
                (flow, Ghost(answers))
            },
        },
    }
}

/// The view of how a block or a statement ended: in an error, or in a frame
/// and with the value that was returned, if one was.
pub open spec fn flow_view(
    flow: Result<Option<InterpreterValue>, QKaledioscopeError>,
    frame: Frame,
) -> Result<(Frame, Option<InterpreterValue>), ErrorView> {
    match flow {
        Ok(returned) => Ok((frame, returned)),
        Err(error) => Err(error@),
    }
}

/// Runs the statements of a block in order, up to the first that fails or
/// returns, and records what the built-in operations answered on the way.
fn block_traced<'a, B: Builtin>(
    source: &str,
    table: &FunctionTable<'a, B>,
    body: &Vec<Located<Statement>>,
    symbol_table: &mut LocalSymbolTable,
    fuel: u64,
) -> (traced: (Result<Option<InterpreterValue>, QKaledioscopeError>, Ghost<Seq<Invocation<'a, B>>>))
    ensures
        block_ends_in(
            source@,
            table@,
            *body,
            body.len() as nat,
            old(symbol_table)@,
            fuel as nat,
            traced.1@,
            flow_view(traced.0, final(symbol_table)@),
        ),
    decreases fuel, 1int, *body, body.len(),
{
    let ghost frame = symbol_table@;
    let ghost mut answers = Seq::<Invocation<'a, B>>::empty();
    let mut i: usize = 0;
    proof {
        assert forall|rest: Seq<Invocation<'a, B>>| #[trigger]
            exec_block(source@, table@, *body, 0, frame, fuel as nat, answers + rest) == (
                Ok::<(Frame, Option<InterpreterValue>), ErrorView>((frame, None)),
                rest,
            ) by {
            assert(answers + rest =~= rest);
        }
    }
    while i < body.len()
        invariant
            i <= body.len(),
            frame == old(symbol_table)@,
            block_ends_in(
                source@,
                table@,
                *body,
                i as nat,
                frame,
                fuel as nat,
                answers,
                Ok((symbol_table@, None)),
            ),
        decreases body.len() - i,
    {
        proof {
            vstd::std_specs::vec::axiom_vec_index_decreases(*body, i as int);
            assert(decreases_to!(*body => body[i as int]));
        }
        let ghost frame_before = symbol_table@;
        let (flow, Ghost(more)) = statement_traced(source, table, &body[i], symbol_table, fuel);
        let ghost before = answers;
        proof {
            answers = before + more;
            assert forall|rest: Seq<Invocation<'a, B>>| #[trigger]
                exec_block(
                    source@,
                    table@,
                    *body,
                    (i + 1) as nat,
                    frame,
                    fuel as nat,
                    answers + rest,
                ) == (flow_view(flow, symbol_table@), rest) by {
                assert((before + more) + rest =~= before + (more + rest));
                assert(exec_block(
                    source@,
                    table@,
                    *body,
                    i as nat,
                    frame,
                    fuel as nat,
                    before + (more + rest),
                ) == (
                    Ok::<(Frame, Option<InterpreterValue>), ErrorView>((frame_before, None)),
                    more + rest,
                ));
                assert(exec_statement(
                    source@,
                    table@,
                    body[i as int],
                    frame_before,
                    fuel as nat,
                    more + rest,
                ) == (flow_view(flow, symbol_table@), rest));
            }
        }
        match flow {
            Ok(None) => {},
            _ => {
                proof {
                    assert forall|rest: Seq<Invocation<'a, B>>| #[trigger]
                        exec_block(
                            source@,
                            table@,
                            *body,
                            body.len() as nat,
                            frame,
                            fuel as nat,
                            answers + rest,
                        ) == (flow_view(flow, symbol_table@), rest) by {
                        assert(exec_block(
                            source@,
                            table@,
                            *body,
                            (i + 1) as nat,
                            frame,
                            fuel as nat,
                            answers + rest,
                        ) == (flow_view(flow, symbol_table@), rest));
                        lemma_exec_block_stops(
                            source@,
                            table@,
                            *body,
                            (i + 1) as nat,
                            body.len() as nat,
                            frame,
                            fuel as nat,
                            answers + rest,
                        );
                    }
                }
                return (flow, Ghost(answers));
            },
        }
        i += 1;
    }
    (Ok(None), Ghost(answers))
}

/// Runs a statement and records what the built-in operations answered on
/// the way.
fn statement_traced<'a, B: Builtin>(
    source: &str,
    table: &FunctionTable<'a, B>,
    statement: &Located<Statement>,
    symbol_table: &mut LocalSymbolTable,
    fuel: u64,
) -> (traced: (Result<Option<InterpreterValue>, QKaledioscopeError>, Ghost<Seq<Invocation<'a, B>>>))
    ensures
        statement_ends_in(
            source@,
            table@,
            *statement,
            old(symbol_table)@,
            fuel as nat,
            traced.1@,
            flow_view(traced.0, final(symbol_table)@),
        ),
    decreases fuel, 1int, *statement, 0int,
{
    let ghost frame = symbol_table@;
    match &statement.value {
        Statement::VariableDeclaration(name, type_sig, expression) => {
            let (value, Ghost(answers)) = eval_traced(
                expression,
                source,
                table,
                symbol_table,
                fuel,
            );
            let flow = match value {
                Err(error) => Err(error),
                Ok(value) => match declare_variable(
                    source,
                    symbol_table,
                    &name.value,
                    type_sig,
                    value,
                    expression.as_sourcespan(),
                ) {
                    Err(error) => Err(error),
                    Ok(_) => Ok(None),
                },
            };
            proof {
                assert forall|rest: Seq<Invocation<'a, B>>| #[trigger]
                    exec_statement(
                        source@,
                        table@,
                        *statement,
                        frame,
                        fuel as nat,
                        answers + rest,
                    ) == (flow_view(flow, symbol_table@), rest) by {
                    assert(eval(
                        source@,
                        table@,
                        *expression,
                        frame,
                        fuel as nat,
                        answers + rest,
                    ) == (value_view(value), rest));
                }
            }
            (flow, Ghost(answers))
        },
        Statement::Assignment(name, expression) => {
            let (value, Ghost(answers)) = eval_traced(
                expression,
                source,
                table,
                symbol_table,
                fuel,
            );
            let flow = match value {
                Err(error) => Err(error),
                Ok(value) => match assign_variable(source, symbol_table, name, value) {
                    Err(error) => Err(error),
                    Ok(_) => Ok(None),
                },
            };
            proof {
                assert forall|rest: Seq<Invocation<'a, B>>| #[trigger]
                    exec_statement(
                        source@,
                        table@,
                        *statement,
                        frame,
                        fuel as nat,
                        answers + rest,
                    ) == (flow_view(flow, symbol_table@), rest) by {
                    assert(eval(
                        source@,
                        table@,
                        *expression,
                        frame,
                        fuel as nat,
                        answers + rest,
                    ) == (value_view(value), rest));
                }
            }
            (flow, Ghost(answers))
        },
        Statement::Call(name, arguments) => {
            let (result, Ghost(answers)) = call_traced(
                source,
                table,
                name,
                arguments,
                symbol_table,
                fuel,
            );
            let flow = match result {
                Err(error) => Err(error),
                Ok(_) => Ok(None),
            };
            proof {
                assert forall|rest: Seq<Invocation<'a, B>>| #[trigger]
                    exec_statement(
                        source@,
                        table@,
                        *statement,
                        frame,
                        fuel as nat,
                        answers + rest,
                    ) == (flow_view(flow, symbol_table@), rest) by {
                    assert(call(
                        source@,
                        table@,
                        *name,
                        *arguments,
                        frame,
                        fuel as nat,
                        answers + rest,
                    ) == (response_view(result), rest));
                }
            }
            (flow, Ghost(answers))
        },
        Statement::Return(expression) => {
            let (value, Ghost(answers)) = eval_traced(
                expression,
                source,
                table,
                symbol_table,
                fuel,
            );
            let flow = match value {
                Err(error) => Err(error),
                Ok(value) => Ok(Some(value)),
            };
            proof {
                assert forall|rest: Seq<Invocation<'a, B>>| #[trigger]
                    exec_statement(
                        source@,
                        table@,
                        *statement,
                        frame,
                        fuel as nat,
                        answers + rest,
                    ) == (flow_view(flow, symbol_table@), rest) by {
                    assert(eval(
                        source@,
                        table@,
                        *expression,
                        frame,
                        fuel as nat,
                        answers + rest,
                    ) == (value_view(value), rest));
                }
            }
            (flow, Ghost(answers))
        },
        Statement::If { condition: test, true_body, false_body } => {
            let (value, Ghost(first)) = eval_traced(test, source, table, symbol_table, fuel);
            let bit = match value {
                Err(error) => Err(error),
                Ok(value) => condition_bit(source, value, test.as_sourcespan()),
            };
            match bit {
                Err(error) => {
                    proof {
                        assert forall|rest: Seq<Invocation<'a, B>>| #[trigger]
                            exec_statement(
                                source@,
                                table@,
                                *statement,
                                frame,
                                fuel as nat,
                                first + rest,
                            ) == (Err::<(Frame, Option<InterpreterValue>), ErrorView>(error@), rest) by {
                            assert(eval(
                                source@,
                                table@,
                                *test,
                                frame,
                                fuel as nat,
                                first + rest,
                            ) == (value_view(value), rest));
                        }
                    }
                    (Err(error), Ghost(first))
                },
                Ok(bit) => {
                    let chosen = if bit {
                        true_body
                    } else {
                        false_body
                    };
                    proof {
                        assert(decreases_to!(*statement => statement.value));
                        assert(decreases_to!(statement.value => *true_body));
                        assert(decreases_to!(statement.value => *false_body));
                    }
                    let (flow, Ghost(more)) = block_traced(
                        source,
                        table,
                        chosen,
                        symbol_table,
                        fuel,
                    );
                    proof {
                        assert forall|rest: Seq<Invocation<'a, B>>| #[trigger]
                            exec_statement(
                                source@,
                                table@,
                                *statement,
                                frame,
                                fuel as nat,
                                (first + more) + rest,
                            ) == (flow_view(flow, symbol_table@), rest) by {
                            assert((first + more) + rest =~= first + (more + rest));
                            assert(eval(
                                source@,
                                table@,
                                *test,
                                frame,
                                fuel as nat,
                                first + (more + rest),
                            ) == (value_view(value), more + rest));
                            assert(exec_block(
                                source@,
                                table@,
                                *chosen,
                                chosen.len() as nat,
                                frame,
                                fuel as nat,
                                more + rest,
                            ) == (flow_view(flow, symbol_table@), rest));
                        }
                    }
                    (flow, Ghost(first + more))
                },
            }
        },
        Statement::While { condition: test, body } => {
            let ghost mut answers = Seq::<Invocation<'a, B>>::empty();
            let mut remaining = fuel;
            proof {
                assert forall|rest: Seq<Invocation<'a, B>>| answers + rest == rest by {
                    assert(answers + rest =~= rest);
                }
            }
            loop
                invariant
                    remaining <= fuel,
                    frame == old(symbol_table)@,
                    *statement == (Located {
                        value: Statement::While { condition: *test, body: *body },
                        location: statement.location,
                    }),
                    forall|rest: Seq<Invocation<'a, B>>| #[trigger]
                        exec_statement(
                            source@,
                            table@,
                            *statement,
                            frame,
                            fuel as nat,
                            answers + rest,
                        ) == exec_statement(
                            source@,
                            table@,
                            *statement,
                            symbol_table@,
                            remaining as nat,
                            rest,
                        ),
                decreases remaining,
            {
                let ghost frame_before = symbol_table@;
                let ghost before = answers;
                let (value, Ghost(first)) = eval_traced(
                    test,
                    source,
                    table,
                    symbol_table,
                    remaining,
                );
                let bit = match value {
                    Err(error) => Err(error),
                    Ok(value) => condition_bit(source, value, test.as_sourcespan()),
                };
                let go_on = match bit {
                    Err(error) => {
                        proof {
                            assert forall|rest: Seq<Invocation<'a, B>>| #[trigger]
                                exec_statement(
                                    source@,
                                    table@,
                                    *statement,
                                    frame,
                                    fuel as nat,
                                    (before + first) + rest,
                                ) == (
                                    Err::<(Frame, Option<InterpreterValue>), ErrorView>(error@),
                                    rest,
                                ) by {
                                assert((before + first) + rest =~= before + (first + rest));
                                assert(eval(
                                    source@,
                                    table@,
                                    *test,
                                    frame_before,
                                    remaining as nat,
                                    first + rest,
                                ) == (value_view(value), rest));
                            }
                        }
                        return (Err(error), Ghost(before + first));
                    },
                    Ok(bit) => bit,
                };
                if !go_on || remaining == 0 {
                    let flow = if go_on {
                        Err(QKaledioscopeError::StepLimitError)
                    } else {
                        Ok(None)
                    };
                    proof {
                        assert forall|rest: Seq<Invocation<'a, B>>| #[trigger]
                            exec_statement(
                                source@,
                                table@,
                                *statement,
                                frame,
                                fuel as nat,
                                (before + first) + rest,
                            ) == (flow_view(flow, symbol_table@), rest) by {
                            assert((before + first) + rest =~= before + (first + rest));
                            assert(eval(
                                source@,
                                table@,
                                *test,
                                frame_before,
                                remaining as nat,
                                first + rest,
                            ) == (value_view(value), rest));
                        }
                    }
                    return (flow, Ghost(before + first));
                }
                proof {
                    assert(decreases_to!(*statement => statement.value));
                    assert(decreases_to!(statement.value => *body));
                }
                let (flow, Ghost(second)) = block_traced(
                    source,
                    table,
                    body,
                    symbol_table,
                    remaining - 1,
                );
                proof {
                    answers = (before + first) + second;
                    assert forall|rest: Seq<Invocation<'a, B>>| #[trigger]
                        exec_statement(
                            source@,
                            table@,
                            *statement,
                            frame,
                            fuel as nat,
                            answers + rest,
                        ) == (match flow_view(flow, symbol_table@) {
                            Ok((after, None)) => exec_statement(
                                source@,
                                table@,
                                *statement,
                                after,
                                (remaining - 1) as nat,
                                rest,
                            ),
                            ended => (ended, rest),
                        }) by {
                        assert(((before + first) + second) + rest =~= before + (first + (second
                            + rest)));
                        assert(eval(
                            source@,
                            table@,
                            *test,
                            frame_before,
                            remaining as nat,
                            first + (second + rest),
                        ) == (value_view(value), second + rest));
                        assert(exec_block(
                            source@,
                            table@,
                            *body,
                            body.len() as nat,
                            frame_before,
                            (remaining - 1) as nat,
                            second + rest,
                        ) == (flow_view(flow, symbol_table@), rest));
                    }
                }
                match flow {
                    Ok(None) => {},
                    _ => {
                        return (flow, Ghost(answers));
                    },
                }
                remaining = remaining - 1;
            }
        },
    }
}

impl Located<Expression> {
    /// Evaluates the expression in a frame. What a call runs, and what
    /// follows a round of a loop, goes on with a `fuel` that is lower by one;
    /// a call or a round at `fuel` 0 ends in `StepLimitError`.
    ///
    /// The outcome is the meaning of the expression, given what the built-in
    /// operations answered when they were called. The frame is left as it
    /// was.
    pub fn eval_in<'a, B: Builtin>(
        &self,
        source: &str,
        fn_table: &FunctionTable<'a, B>,
        symbol_table: &mut LocalSymbolTable,
        fuel: u64,
    ) -> (value: Result<InterpreterValue, QKaledioscopeError>)
        ensures
            *final(symbol_table) == *old(symbol_table),
            exists|answers: Seq<Invocation<'a, B>>|
                evaluates_to(
                    source@,
                    fn_table@,
                    *self,
                    old(symbol_table)@,
                    fuel as nat,
                    answers,
                    value_view(value),
                ),
    {
        let (value, Ghost(answers)) = eval_traced(self, source, fn_table, symbol_table, fuel);
        value
    }
}

impl<'a, B: Builtin> FunctionTableEntry<'a, B> {
    /// Runs the entry on arguments: a built-in operation is called, a
    /// function of the program runs its body in a fresh frame, and a function
    /// that is only declared cannot be run.
    ///
    /// The outcome is the meaning of the call, given what the built-in
    /// operations answered when they were called.
    pub fn run_in(
        &self,
        source: &str,
        table: &FunctionTable<'a, B>,
        args: Vec<InterpreterValue>,
        fuel: u64,
    ) -> (returned: Result<Option<InterpreterValue>, QKaledioscopeError>)
        ensures
            exists|answers: Seq<Invocation<'a, B>>|
                run_returns(
                    source@,
                    table@,
                    *self,
                    args@,
                    fuel as nat,
                    answers,
                    response_view(returned),
                ),
    {
        let (returned, Ghost(answers)) = run_traced(self, source, table, args, fuel);
        returned
    }
}

/// The view of the outcome of a run.
pub open spec fn outcome_view(result: Result<(), QKaledioscopeError>) -> Result<(), ErrorView> {
    match result {
        Ok(_) => Ok(()),
        Err(error) => Err(error@),
    }
}

impl Program {
    /// Runs the program: its functions and the standard built-in operations
    /// are gathered in a function table, and the function `qmain` is run
    /// without arguments.
    ///
    /// The outcome is the meaning of the program, given what the built-in
    /// operations answered when they were called.
    pub fn run<'a, B: Builtin>(
        &'a self,
        source: &str,
        builtins: &'a StandardBuiltins<B>,
        fuel: u64,
    ) -> (done: Result<(), QKaledioscopeError>)
        ensures
            exists|answers: Seq<Invocation<'a, B>>|
                program_ends_in(
                    source@,
                    self.0@,
                    builtins,
                    fuel as nat,
                    answers,
                    outcome_view(done),
                ),
    {
        let ghost none = Seq::<Invocation<'a, B>>::empty();
        proof {
            assert forall|rest: Seq<Invocation<'a, B>>| none + rest == rest by {
                assert(none + rest =~= rest);
            }
        }
        let mut table = match FunctionTable::build(source, self) {
            Ok(table) => table,
            Err(error) => {
                assert(program_ends_in(
                    source@,
                    self.0@,
                    builtins,
                    fuel as nat,
                    none,
                    Err(error@),
                ));
                return Err(error);
            },
        };
        table.register_builtin(&Identifier(String::from_str("print_n")), &builtins.print_n);
        table.register_builtin(&Identifier(String::from_str("print_b")), &builtins.print_b);
        table.register_builtin(&Identifier(String::from_str("print_q")), &builtins.print_q);
        table.register_builtin(&Identifier(String::from_str("h")), &builtins.h);
        table.register_builtin(&Identifier(String::from_str("cnot")), &builtins.cnot);
        table.register_builtin(&Identifier(String::from_str("m")), &builtins.m);
        let name = Identifier(String::from_str("qmain"));
        let qmain = match table.get(&name) {
            Some(qmain) => qmain,
            None => {
                assert(program_ends_in(
                    source@,
                    self.0@,
                    builtins,
                    fuel as nat,
                    none,
                    Err(ErrorView::NoQMainError),
                ));
                return Err(QKaledioscopeError::NoQMainError);
            },
        };
        let takes_nothing = match qmain {
            FunctionTableEntry::Interpreted(element) => {
                element.value.prototype().value.arguments.len() == 0
            },
            FunctionTableEntry::Builtin(_) => false,
        };
        if !takes_nothing {
            assert(program_ends_in(
                source@,
                self.0@,
                builtins,
                fuel as nat,
                none,
                Err(ErrorView::NoQMainError),
            ));
            return Err(QKaledioscopeError::NoQMainError);
        }
        let (returned, Ghost(answers)) = run_traced(qmain, source, &table, Vec::new(), fuel);
        let done = match returned {
            Ok(_) => Ok(()),
            Err(error) => Err(error),
        };
        proof {
            assert forall|rest: Seq<Invocation<'a, B>>| #[trigger]
                run_program(source@, self.0@, builtins, fuel as nat, answers + rest) == (
                    outcome_view(done),
                    rest,
                ) by {
                assert(run(
                    source@,
                    table@,
                    *qmain,
                    Seq::<InterpreterValue>::empty(),
                    fuel as nat,
                    answers + rest,
                ) == (response_view(returned), rest));
            }
            assert(program_ends_in(
                source@,
                self.0@,
                builtins,
                fuel as nat,
                answers,
                outcome_view(done),
            ));
        }
        done
    }
}

/// The larger of two indices.
pub open spec fn larger(a: usize, b: usize) -> usize {
    if a >= b {
        a
    } else {
        b
    }
}

/// The highest index of a qubit literal in the first `n` of the expressions;
/// 0 where there is none.
pub open spec fn arguments_qubits(arguments: Vec<Located<Expression>>, n: nat) -> usize
    decreases arguments, n,
{
    if n == 0 || n > arguments.len() {
        0
    } else {
        larger(
            arguments_qubits(arguments, (n - 1) as nat),
            arguments[n - 1].value.spec_n_qubits_required(),
        )
    }
}

impl Expression {
    /// The highest index of a qubit literal in the expression; 0 where there
    /// is none.
    pub open spec fn spec_n_qubits_required(&self) -> usize
        decreases self,
    {
        match self {
            Expression::BitLiteral(_) => 0,
            Expression::NumberLiteral(_) => 0,
            Expression::Identifier(_) => 0,
            Expression::QubitLiteral(index) => *index,
            Expression::Call(_, arguments) => arguments_qubits(*arguments, arguments.len() as nat),
        }
    }

    /// The highest index of a qubit literal in the expression; 0 where there
    /// is none.
    pub fn n_qubits_required(&self) -> (n: usize)
        ensures
            n == self.spec_n_qubits_required(),
        decreases self,
    {
        match self {
            Expression::BitLiteral(_) => 0,
            Expression::NumberLiteral(_) => 0,
            Expression::Identifier(_) => 0,
            Expression::QubitLiteral(index) => *index,
            Expression::Call(_, arguments) => {
                let mut highest: usize = 0;
                let mut i: usize = 0;
                while i < arguments.len()
                    invariant
                        i <= arguments.len(),
                        *self is Call,
                        self->Call_1 == *arguments,
                        highest == arguments_qubits(*arguments, i as nat),
                    decreases arguments.len() - i,
                {
                    proof {
                        vstd::std_specs::vec::axiom_vec_index_decreases(*arguments, i as int);
                        assert(decreases_to!(*self => *arguments));
                        assert(decreases_to!(*arguments => arguments[i as int]));
                        assert(decreases_to!(arguments[i as int] => arguments[i as int].value));
                    }
                    let n = arguments[i].value.n_qubits_required();
                    if n > highest {
                        highest = n;
                    }
                    i += 1;
                }
                highest
            },
        }
    }
}

/// The highest index of a qubit literal that the statement holds in the
/// value of an assignment or in the arguments of a call.
pub open spec fn statement_qubits(statement: Statement) -> usize {
    match statement {
        Statement::Assignment(_, expression) => expression.value.spec_n_qubits_required(),
        Statement::Call(_, arguments) => arguments_qubits(arguments, arguments.len() as nat),
        _ => 0,
    }
}

/// The highest of `statement_qubits` over the first `n` statements.
pub open spec fn body_qubits(body: Seq<Located<Statement>>, n: nat) -> usize
    decreases n,
{
    if n == 0 || n > body.len() {
        0
    } else {
        larger(body_qubits(body, (n - 1) as nat), statement_qubits(body[n - 1].value))
    }
}

/// The highest of `body_qubits` over the bodies of the first `n` elements.
pub open spec fn elements_qubits(elements: Seq<Located<FileElement>>, n: nat) -> usize
    decreases n,
{
    if n == 0 || n > elements.len() {
        0
    } else {
        larger(
            elements_qubits(elements, (n - 1) as nat),
            match elements[n - 1].value {
                FileElement::Declaration(_) => 0,
                FileElement::Definition { prototype, body } => body_qubits(
                    body@,
                    body.len() as nat,
                ),
            },
        )
    }
}

/// The highest index of a qubit literal among the arguments.
fn arguments_qubits_required(arguments: &Vec<Located<Expression>>) -> (n: usize)
    ensures
        n == arguments_qubits(*arguments, arguments.len() as nat),
{
    let mut highest: usize = 0;
    let mut i: usize = 0;
    while i < arguments.len()
        invariant
            i <= arguments.len(),
            highest == arguments_qubits(*arguments, i as nat),
        decreases arguments.len() - i,
    {
        let n = arguments[i].value.n_qubits_required();
        if n > highest {
            highest = n;
        }
        i += 1;
    }
    highest
}

impl Program {
    /// The highest index of a qubit literal that stands, in the body of a
    /// function, in the value of an assignment or in the arguments of a call
    /// that is a statement; 0 where there is none.
    pub fn n_qubits_required(&self) -> (n: usize)
        ensures
            n == elements_qubits(self.0@, self.0.len() as nat),
    {
        let mut highest: usize = 0;
        let mut i: usize = 0;
        while i < self.0.len()
            invariant
                i <= self.0.len(),
                highest == elements_qubits(self.0@, i as nat),
            decreases self.0.len() - i,
        {
            match &self.0[i].value {
                FileElement::Declaration(_) => {},
                FileElement::Definition { prototype: _, body } => {
                    let mut in_body: usize = 0;
                    let mut j: usize = 0;
                    while j < body.len()
                        invariant
                            j <= body.len(),
                            in_body == body_qubits(body@, j as nat),
                        decreases body.len() - j,
                    {
                        let n = match &body[j].value {
                            Statement::Assignment(_, expression) => {
                                expression.value.n_qubits_required()
                            },
                            Statement::Call(_, arguments) => arguments_qubits_required(arguments),
                            _ => 0,
                        };
                        if n > in_body {
                            in_body = n;
                        }
                        j += 1;
                    }
                    if in_body > highest {
                        highest = in_body;
                    }
                },
            }
            i += 1;
        }
        highest
    }
}

/// The qubit that the argument `i` of a built-in operation refers to, if
/// there is such an argument and it is a qubit.
pub fn qubit_argument(args: &[InterpreterValue], i: usize) -> (qubit: Option<usize>)
    ensures
        qubit == (if i < args@.len() {
            match args@[i as int] {
                InterpreterValue::QubitRef(index) => Some(index),
                _ => None,
            }
        } else {
            None
        }),
{
    if i < args.len() {
        match args[i] {
            InterpreterValue::QubitRef(index) => Some(index),
            _ => None,
        }
    } else {
        None
    }
}

/// What the measurement of a qubit returns to the program: the bit that was
/// measured.
pub fn measurement(outcome: bool) -> (returned: Result<
    Option<InterpreterValue>,
    QKaledioscopeError,
>)
    ensures
        returned == Ok::<Option<InterpreterValue>, QKaledioscopeError>(
            Some(InterpreterValue::Bit(outcome)),
        ),
{
    Ok(Some(InterpreterValue::Bit(outcome)))
}

} // verus!
