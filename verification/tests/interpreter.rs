use std::cell::RefCell;

use qkaledioscope::ast::{
    ArgumentDeclaration, Expression, FileElement, Identifier, Located, Program, Prototype,
    Statement, Type,
};
use qkaledioscope::error::QKaledioscopeError;
use qkaledioscope::interpreter::{
    assign_variable, bind_arguments, condition_bit, declare_variable, lookup_variable,
    measurement, qubit_argument, value_of_call, Builtin, FunctionTable, FunctionTableEntry,
    InterpreterValue, LocalSymbolTable, StandardBuiltins,
};
use qkaledioscope::span::SourceSpan;

/// A built-in operation that writes down each call and answers as it is
/// told to.
struct Recorder<'l> {
    name: &'static str,
    log: &'l RefCell<Vec<String>>,
    answers: RefCell<Vec<Option<InterpreterValue>>>,
}

impl<'l> Recorder<'l> {
    fn new(name: &'static str, log: &'l RefCell<Vec<String>>) -> Self {
        Recorder { name, log, answers: RefCell::new(vec![]) }
    }

    fn answering(
        name: &'static str,
        log: &'l RefCell<Vec<String>>,
        answers: Vec<Option<InterpreterValue>>,
    ) -> Self {
        let mut answers = answers;
        answers.reverse();
        Recorder { name, log, answers: RefCell::new(answers) }
    }
}

impl<'l> Builtin for Recorder<'l> {
    fn call(
        &self,
        args: &[InterpreterValue],
    ) -> Result<Option<InterpreterValue>, QKaledioscopeError> {
        self.log.borrow_mut().push(format!("{}{:?}", self.name, args));
        Ok(self.answers.borrow_mut().pop().unwrap_or(None))
    }
}

fn standard<'l>(log: &'l RefCell<Vec<String>>) -> StandardBuiltins<Recorder<'l>> {
    StandardBuiltins {
        print_n: Recorder::new("print_n", log),
        print_b: Recorder::new("print_b", log),
        print_q: Recorder::new("print_q", log),
        h: Recorder::new("h", log),
        cnot: Recorder::new("cnot", log),
        m: Recorder::new("m", log),
    }
}

fn at<T>(value: T, start: usize, end: usize) -> Located<T> {
    Located { value, location: Some((start, end)) }
}

fn name(text: &str) -> Identifier {
    Identifier(text.to_string())
}

fn span(start: usize, end: usize) -> Option<SourceSpan> {
    Some(SourceSpan { offset: start, length: end - start })
}

fn prototype(text: &str, arguments: Vec<(&str, Type)>, return_type: Option<Type>) -> Prototype {
    Prototype {
        name: at(name(text), 1, 2),
        arguments: arguments
            .into_iter()
            .map(|(argument, type_sig)| {
                at(ArgumentDeclaration(at(name(argument), 3, 4), at(type_sig, 5, 6)), 3, 6)
            })
            .collect(),
        return_type: return_type.map(|type_sig| at(type_sig, 7, 8)),
    }
}

fn definition(
    text: &str,
    arguments: Vec<(&str, Type)>,
    return_type: Option<Type>,
    body: Vec<Statement>,
    start: usize,
) -> Located<FileElement> {
    at(
        FileElement::Definition {
            prototype: at(prototype(text, arguments, return_type), start + 1, start + 8),
            body: body
                .into_iter()
                .enumerate()
                .map(|(i, statement)| at(statement, start + 10 + i, start + 11 + i))
                .collect(),
        },
        start,
        start + 50,
    )
}

fn declaration(
    text: &str,
    arguments: Vec<(&str, Type)>,
    return_type: Option<Type>,
    start: usize,
) -> Located<FileElement> {
    at(
        FileElement::Declaration(at(prototype(text, arguments, return_type), start + 1, start + 8)),
        start,
        start + 9,
    )
}

fn call(callee: &str, arguments: Vec<Expression>) -> Expression {
    Expression::Call(
        at(name(callee), 20, 21),
        arguments.into_iter().map(|argument| at(argument, 22, 23)).collect(),
    )
}

fn call_statement(callee: &str, arguments: Vec<Expression>) -> Statement {
    Statement::Call(
        at(name(callee), 20, 21),
        arguments.into_iter().map(|argument| at(argument, 22, 23)).collect(),
    )
}

fn variable(text: &str) -> Expression {
    Expression::Identifier(name(text))
}

fn declare(text: &str, type_sig: Type, value: Expression) -> Statement {
    Statement::VariableDeclaration(at(name(text), 30, 31), at(type_sig, 32, 38), at(value, 40, 44))
}

fn assign(text: &str, value: Expression) -> Statement {
    Statement::Assignment(at(name(text), 30, 31), at(value, 40, 44))
}

fn number(value: f64) -> Expression {
    Expression::NumberLiteral(value.to_bits())
}

const SOURCE: &str = "the text of the program";

fn run_program(
    elements: Vec<Located<FileElement>>,
    fuel: u64,
) -> (Result<(), QKaledioscopeError>, Vec<String>) {
    let log = RefCell::new(vec![]);
    let builtins = standard(&log);
    let program = Program(elements);
    let done = program.run(SOURCE, &builtins, fuel);
    let calls = log.borrow().clone();
    (done, calls)
}

#[test]
fn the_table_holds_every_element_under_its_name() {
    let program = Program(vec![
        declaration("f", vec![("x", Type::Qubit)], None, 0),
        definition("g", vec![], None, vec![], 100),
    ]);
    let table: FunctionTable<Recorder> = FunctionTable::build(SOURCE, &program).ok().unwrap();
    assert!(matches!(
        table.get(&name("f")),
        Some(FunctionTableEntry::Interpreted(element)) if std::ptr::eq(*element, &program.0[0])
    ));
    assert!(matches!(
        table.get(&name("g")),
        Some(FunctionTableEntry::Interpreted(element)) if std::ptr::eq(*element, &program.0[1])
    ));
    assert!(table.get(&name("h")).is_none());
}

#[test]
fn two_elements_of_one_name_are_rejected() {
    for (first_defined, second_defined) in [(false, false), (false, true), (true, false), (true, true)]
    {
        let element = |defined: bool, start: usize| {
            if defined {
                definition("f", vec![], None, vec![], start)
            } else {
                declaration("f", vec![], None, start)
            }
        };
        let first = element(first_defined, 10);
        let second = element(second_defined, 200);
        let old_span = first.as_sourcespan();
        let new_span = second.as_sourcespan();
        let program = Program(vec![definition("g", vec![], None, vec![], 0), first, second]);
        let table: Result<FunctionTable<Recorder>, _> = FunctionTable::build(SOURCE, &program);
        assert_eq!(
            table.err(),
            Some(QKaledioscopeError::DuplicateNameError {
                name: "f".to_string(),
                src: SOURCE.to_string(),
                old_span,
                new_span,
            })
        );
    }
}

#[test]
fn both_places_of_a_shared_name_are_reported() {
    let program = Program(vec![
        definition("f", vec![], None, vec![], 0),
        definition("g", vec![], None, vec![], 60),
        declaration("f", vec![], None, 120),
        declaration("g", vec![], None, 140),
    ]);
    let table: Result<FunctionTable<Recorder>, _> = FunctionTable::build(SOURCE, &program);
    assert_eq!(
        table.err(),
        Some(QKaledioscopeError::DuplicateNameError {
            name: "f".to_string(),
            src: SOURCE.to_string(),
            old_span: span(0, 50),
            new_span: span(120, 129),
        })
    );
}

#[test]
fn a_builtin_takes_the_place_of_a_function_of_its_name() {
    let log = RefCell::new(vec![]);
    let other = Recorder::new("other", &log);
    let program = Program(vec![definition("f", vec![], None, vec![], 0)]);
    let mut table = FunctionTable::build(SOURCE, &program).ok().unwrap();
    table.register_builtin(&name("f"), &other);
    table.register_builtin(&name("k"), &other);
    assert!(matches!(table.get(&name("f")), Some(FunctionTableEntry::Builtin(_))));
    assert!(matches!(table.get(&name("k")), Some(FunctionTableEntry::Builtin(_))));
}

#[test]
fn a_program_without_qmain_is_not_run() {
    let (done, calls) = run_program(
        vec![definition("main", vec![], None, vec![call_statement("h", vec![Expression::QubitLiteral(0)])], 0)],
        100,
    );
    assert_eq!(done, Err(QKaledioscopeError::NoQMainError));
    assert!(calls.is_empty());
    let (done, calls) = run_program(vec![], 100);
    assert_eq!(done, Err(QKaledioscopeError::NoQMainError));
    assert!(calls.is_empty());
}

#[test]
fn a_qmain_with_parameters_is_no_entry_point() {
    let (done, calls) = run_program(
        vec![definition(
            "qmain",
            vec![("q", Type::Qubit)],
            None,
            vec![call_statement("h", vec![Expression::QubitLiteral(0)])],
            0,
        )],
        100,
    );
    assert_eq!(done, Err(QKaledioscopeError::NoQMainError));
    assert!(calls.is_empty());
}

#[test]
fn a_duplicate_name_stops_the_run_before_it_starts() {
    let (done, calls) = run_program(
        vec![
            definition("qmain", vec![], None, vec![call_statement("h", vec![Expression::QubitLiteral(0)])], 0),
            definition("qmain", vec![], None, vec![], 60),
        ],
        100,
    );
    assert_eq!(
        done,
        Err(QKaledioscopeError::DuplicateNameError {
            name: "qmain".to_string(),
            src: SOURCE.to_string(),
            old_span: span(0, 50),
            new_span: span(60, 110),
        })
    );
    assert!(calls.is_empty());
}

#[test]
fn qmain_runs_and_calls_the_builtins_in_order() {
    let (done, calls) = run_program(
        vec![definition(
            "qmain",
            vec![],
            None,
            vec![
                call_statement("h", vec![Expression::QubitLiteral(0)]),
                call_statement("cnot", vec![Expression::QubitLiteral(0), Expression::QubitLiteral(1)]),
                declare("r", Type::Bit, call("m", vec![Expression::QubitLiteral(1)])),
                call_statement("print_n", vec![number(2.5)]),
                call_statement("print_b", vec![Expression::BitLiteral(true)]),
                call_statement("print_q", vec![Expression::QubitLiteral(3)]),
            ],
            0,
        )],
        100,
    );
    assert_eq!(
        done,
        Err(QKaledioscopeError::MissingValueError {
            name: "m".to_string(),
            src: SOURCE.to_string(),
            span: span(40, 44),
        })
    );
    assert_eq!(calls, vec!["h[QubitRef(0)]", "cnot[QubitRef(0), QubitRef(1)]", "m[QubitRef(1)]"]);
}

#[test]
fn a_measurement_is_a_bit_after_any_gate() {
    for outcome in [false, true] {
        let log = RefCell::new(vec![]);
        let mut builtins = standard(&log);
        builtins.m = Recorder::answering("m", &log, vec![measurement(outcome).unwrap()]);
        let program = Program(vec![definition(
            "qmain",
            vec![],
            None,
            vec![
                call_statement("h", vec![Expression::QubitLiteral(0)]),
                declare("r", Type::Bit, call("m", vec![Expression::QubitLiteral(0)])),
                call_statement("print_b", vec![variable("r")]),
            ],
            0,
        )]);
        assert_eq!(program.run(SOURCE, &builtins, 10), Ok(()));
        assert_eq!(
            *log.borrow(),
            vec![
                "h[QubitRef(0)]".to_string(),
                "m[QubitRef(0)]".to_string(),
                format!("print_b[Bit({})]", outcome)
            ]
        );
    }
}

#[test]
fn what_a_measurement_returns() {
    assert_eq!(measurement(true), Ok(Some(InterpreterValue::Bit(true))));
    assert_eq!(measurement(false), Ok(Some(InterpreterValue::Bit(false))));
}

#[test]
fn the_qubit_among_the_arguments() {
    let args = [InterpreterValue::QubitRef(4), InterpreterValue::Bit(true)];
    assert_eq!(qubit_argument(&args, 0), Some(4));
    assert_eq!(qubit_argument(&args, 1), None);
    assert_eq!(qubit_argument(&args, 2), None);
    assert_eq!(qubit_argument(&[], 0), None);
}

#[test]
fn a_declared_function_that_is_called_does_not_link() {
    let (done, calls) = run_program(
        vec![
            declaration("f", vec![("x", Type::Qubit)], None, 0),
            definition("qmain", vec![], None, vec![call_statement("f", vec![Expression::QubitLiteral(0)])], 60),
        ],
        100,
    );
    assert_eq!(
        done,
        Err(QKaledioscopeError::LinkingError {
            name: "f".to_string(),
            src: SOURCE.to_string(),
            span: span(1, 8),
        })
    );
    assert!(calls.is_empty());
}

#[test]
fn a_declared_function_that_is_never_called_does_no_harm() {
    let (done, _) = run_program(
        vec![
            declaration("f", vec![("x", Type::Qubit)], None, 0),
            definition("qmain", vec![], None, vec![], 60),
        ],
        100,
    );
    assert_eq!(done, Ok(()));
}

#[test]
fn a_declared_qmain_does_not_link() {
    let (done, _) = run_program(vec![declaration("qmain", vec![], None, 0)], 100);
    assert_eq!(
        done,
        Err(QKaledioscopeError::LinkingError {
            name: "qmain".to_string(),
            src: SOURCE.to_string(),
            span: span(1, 8),
        })
    );
}

#[test]
fn a_number_variable_does_not_take_a_bit() {
    let (done, _) = run_program(
        vec![definition(
            "qmain",
            vec![],
            None,
            vec![declare("x", Type::Number, Expression::BitLiteral(true))],
            0,
        )],
        100,
    );
    assert_eq!(
        done,
        Err(QKaledioscopeError::TypeError {
            expected: "Number".to_string(),
            actual: "Bit".to_string(),
            src: SOURCE.to_string(),
            expr_span: span(40, 44),
            type_span: span(32, 38),
        })
    );
}

#[test]
fn each_type_takes_its_own_values_only() {
    let values = [
        (InterpreterValue::Number(1.0f64.to_bits()), Type::Number, "Number"),
        (InterpreterValue::Bit(false), Type::Bit, "Bit"),
        (InterpreterValue::QubitRef(2), Type::Qubit, "Qubit"),
    ];
    for (value, type_of_value, actual) in values {
        for (declared, expected) in [(Type::Number, "Number"), (Type::Bit, "Bit"), (Type::Qubit, "Qubit")] {
            let mut symbols = LocalSymbolTable::new();
            let done = declare_variable(SOURCE, &mut symbols, &name("v"), &at(declared, 2, 5), value, span(7, 9));
            if declared == type_of_value {
                assert_eq!(done, Ok(()));
                assert_eq!(symbols.get(&name("v")), Some(&value));
            } else {
                assert_eq!(
                    done,
                    Err(QKaledioscopeError::TypeError {
                        expected: expected.to_string(),
                        actual: actual.to_string(),
                        src: SOURCE.to_string(),
                        expr_span: span(7, 9),
                        type_span: span(2, 5),
                    })
                );
                assert_eq!(symbols.get(&name("v")), None);
            }
            assert_eq!(value.type_of(), type_of_value);
        }
    }
}

#[test]
fn a_name_that_was_never_declared_is_undefined() {
    let (done, _) = run_program(
        vec![definition("qmain", vec![], None, vec![call_statement("print_n", vec![variable("y")])], 0)],
        100,
    );
    assert_eq!(
        done,
        Err(QKaledioscopeError::UndefinedVariableError {
            name: "y".to_string(),
            src: SOURCE.to_string(),
            span: span(22, 23),
        })
    );
}

#[test]
fn the_variables_of_the_caller_are_not_seen_by_the_callee() {
    let (done, calls) = run_program(
        vec![
            definition("f", vec![], None, vec![call_statement("print_n", vec![variable("x")])], 0),
            definition(
                "qmain",
                vec![],
                None,
                vec![declare("x", Type::Number, number(1.0)), call_statement("f", vec![])],
                60,
            ),
        ],
        100,
    );
    assert_eq!(
        done,
        Err(QKaledioscopeError::UndefinedVariableError {
            name: "x".to_string(),
            src: SOURCE.to_string(),
            span: span(22, 23),
        })
    );
    assert!(calls.is_empty());
}

#[test]
fn looking_up_a_variable() {
    let mut symbols = LocalSymbolTable::new();
    symbols.insert(name("a"), InterpreterValue::Bit(true));
    assert_eq!(lookup_variable(SOURCE, &symbols, &name("a"), None), Ok(InterpreterValue::Bit(true)));
    assert_eq!(
        lookup_variable(SOURCE, &symbols, &name("b"), span(1, 2)),
        Err(QKaledioscopeError::UndefinedVariableError {
            name: "b".to_string(),
            src: SOURCE.to_string(),
            span: span(1, 2),
        })
    );
}

#[test]
fn assigning_needs_a_binding() {
    let mut symbols = LocalSymbolTable::new();
    assert_eq!(
        assign_variable(SOURCE, &mut symbols, &at(name("a"), 4, 5), InterpreterValue::Bit(true)),
        Err(QKaledioscopeError::UndefinedVariableError {
            name: "a".to_string(),
            src: SOURCE.to_string(),
            span: span(4, 5),
        })
    );
    assert!(!symbols.contains(&name("a")));
    symbols.insert(name("a"), InterpreterValue::Bit(true));
    assert_eq!(
        assign_variable(SOURCE, &mut symbols, &at(name("a"), 4, 5), InterpreterValue::QubitRef(1)),
        Ok(())
    );
    assert_eq!(symbols.get(&name("a")), Some(&InterpreterValue::QubitRef(1)));
}

#[test]
fn an_assignment_overwrites_and_a_redeclaration_rebinds() {
    let (done, calls) = run_program(
        vec![definition(
            "qmain",
            vec![],
            None,
            vec![
                declare("x", Type::Number, number(1.0)),
                assign("x", number(2.0)),
                call_statement("print_n", vec![variable("x")]),
                declare("x", Type::Bit, Expression::BitLiteral(false)),
                call_statement("print_b", vec![variable("x")]),
            ],
            0,
        )],
        100,
    );
    assert_eq!(done, Ok(()));
    assert_eq!(
        calls,
        vec![format!("print_n[Number({})]", 2.0f64.to_bits()), "print_b[Bit(false)]".to_string()]
    );
}

#[test]
fn a_condition_has_to_be_a_bit() {
    assert_eq!(condition_bit(SOURCE, InterpreterValue::Bit(true), None), Ok(true));
    assert_eq!(condition_bit(SOURCE, InterpreterValue::Bit(false), None), Ok(false));
    assert_eq!(
        condition_bit(SOURCE, InterpreterValue::QubitRef(0), span(3, 4)),
        Err(QKaledioscopeError::TypeError {
            expected: "Bit".to_string(),
            actual: "Qubit".to_string(),
            src: SOURCE.to_string(),
            expr_span: span(3, 4),
            type_span: None,
        })
    );
}

#[test]
fn a_loop_on_a_number_is_a_type_error() {
    let (done, calls) = run_program(
        vec![definition(
            "qmain",
            vec![],
            None,
            vec![Statement::While {
                condition: at(number(1.0), 16, 19),
                body: vec![at(call_statement("h", vec![Expression::QubitLiteral(0)]), 22, 27)],
            }],
            0,
        )],
        100,
    );
    assert_eq!(
        done,
        Err(QKaledioscopeError::TypeError {
            expected: "Bit".to_string(),
            actual: "Number".to_string(),
            src: SOURCE.to_string(),
            expr_span: span(16, 19),
            type_span: None,
        })
    );
    assert!(calls.is_empty());
}

#[test]
fn a_conditional_on_a_qubit_is_a_type_error() {
    let (done, _) = run_program(
        vec![definition(
            "qmain",
            vec![],
            None,
            vec![Statement::If {
                condition: at(Expression::QubitLiteral(0), 13, 15),
                true_body: vec![],
                false_body: vec![],
            }],
            0,
        )],
        100,
    );
    assert_eq!(
        done,
        Err(QKaledioscopeError::TypeError {
            expected: "Bit".to_string(),
            actual: "Qubit".to_string(),
            src: SOURCE.to_string(),
            expr_span: span(13, 15),
            type_span: None,
        })
    );
}

#[test]
fn a_conditional_runs_one_branch() {
    for bit in [true, false] {
        let (done, calls) = run_program(
            vec![definition(
                "qmain",
                vec![],
                None,
                vec![Statement::If {
                    condition: at(Expression::BitLiteral(bit), 13, 17),
                    true_body: vec![at(call_statement("print_n", vec![number(1.0)]), 20, 30)],
                    false_body: vec![at(call_statement("print_n", vec![number(0.0)]), 40, 50)],
                }],
                0,
            )],
            100,
        );
        assert_eq!(done, Ok(()));
        let shown = if bit { 1.0f64 } else { 0.0f64 };
        assert_eq!(calls, vec![format!("print_n[Number({})]", shown.to_bits())]);
    }
}

#[test]
fn a_loop_runs_until_its_condition_is_false() {
    let log = RefCell::new(vec![]);
    let mut builtins = standard(&log);
    builtins.m = Recorder::answering(
        "m",
        &log,
        vec![
            Some(InterpreterValue::Bit(true)),
            Some(InterpreterValue::Bit(true)),
            Some(InterpreterValue::Bit(false)),
        ],
    );
    let program = Program(vec![definition(
        "qmain",
        vec![],
        None,
        vec![Statement::While {
            condition: at(call("m", vec![Expression::QubitLiteral(0)]), 16, 21),
            body: vec![at(call_statement("h", vec![Expression::QubitLiteral(0)]), 24, 29)],
        }],
        0,
    )]);
    assert_eq!(program.run(SOURCE, &builtins, 100), Ok(()));
    assert_eq!(
        *log.borrow(),
        vec!["m[QubitRef(0)]", "h[QubitRef(0)]", "m[QubitRef(0)]", "h[QubitRef(0)]", "m[QubitRef(0)]"]
    );
}

#[test]
fn a_loop_without_end_reaches_the_limit() {
    let (done, calls) = run_program(
        vec![definition(
            "qmain",
            vec![],
            None,
            vec![Statement::While {
                condition: at(Expression::BitLiteral(true), 16, 20),
                body: vec![at(call_statement("h", vec![Expression::QubitLiteral(0)]), 24, 29)],
            }],
            0,
        )],
        7,
    );
    assert_eq!(done, Err(QKaledioscopeError::StepLimitError));
    // Each round takes one from the limit, and the call in it needs one more.
    assert_eq!(calls.len(), 6);
}

#[test]
fn a_recursion_without_end_reaches_the_limit() {
    let (done, calls) = run_program(
        vec![
            definition("f", vec![], None, vec![call_statement("f", vec![])], 0),
            definition("qmain", vec![], None, vec![call_statement("f", vec![])], 60),
        ],
        50,
    );
    assert_eq!(done, Err(QKaledioscopeError::StepLimitError));
    assert!(calls.is_empty());
}

#[test]
fn a_call_needs_one_from_the_limit() {
    let elements = || {
        vec![definition("qmain", vec![], None, vec![call_statement("h", vec![Expression::QubitLiteral(0)])], 0)]
    };
    let (done, calls) = run_program(elements(), 0);
    assert_eq!(done, Err(QKaledioscopeError::StepLimitError));
    assert!(calls.is_empty());
    let (done, calls) = run_program(elements(), 1);
    assert_eq!(done, Ok(()));
    assert_eq!(calls, vec!["h[QubitRef(0)]"]);
}

#[test]
fn a_function_returns_its_value_and_runs_no_further() {
    let (done, calls) = run_program(
        vec![
            definition(
                "pick",
                vec![("b", Type::Bit)],
                Some(Type::Number),
                vec![
                    Statement::If {
                        condition: at(variable("b"), 13, 14),
                        true_body: vec![at(Statement::Return(at(number(1.0), 20, 23)), 18, 24)],
                        false_body: vec![],
                    },
                    call_statement("print_b", vec![variable("b")]),
                    Statement::Return(at(number(0.0), 40, 43)),
                    call_statement("print_q", vec![Expression::QubitLiteral(9)]),
                ],
                0,
            ),
            definition(
                "qmain",
                vec![],
                None,
                vec![
                    call_statement("print_n", vec![call("pick", vec![Expression::BitLiteral(true)])]),
                    call_statement("print_n", vec![call("pick", vec![Expression::BitLiteral(false)])]),
                ],
                60,
            ),
        ],
        100,
    );
    assert_eq!(done, Ok(()));
    assert_eq!(
        calls,
        vec![
            format!("print_n[Number({})]", 1.0f64.to_bits()),
            "print_b[Bit(false)]".to_string(),
            format!("print_n[Number({})]", 0.0f64.to_bits()),
        ]
    );
}

#[test]
fn a_call_without_a_value_cannot_be_used_as_one() {
    let (done, _) = run_program(
        vec![
            definition("nothing", vec![], None, vec![], 0),
            definition(
                "qmain",
                vec![],
                None,
                vec![declare("x", Type::Number, call("nothing", vec![]))],
                60,
            ),
        ],
        100,
    );
    assert_eq!(
        done,
        Err(QKaledioscopeError::MissingValueError {
            name: "nothing".to_string(),
            src: SOURCE.to_string(),
            span: span(40, 44),
        })
    );
    assert_eq!(
        value_of_call(SOURCE, &name("f"), span(1, 4), Ok(None)),
        Err(QKaledioscopeError::MissingValueError {
            name: "f".to_string(),
            src: SOURCE.to_string(),
            span: span(1, 4),
        })
    );
    assert_eq!(
        value_of_call(SOURCE, &name("f"), None, Ok(Some(InterpreterValue::Bit(true)))),
        Ok(InterpreterValue::Bit(true))
    );
    assert_eq!(
        value_of_call(SOURCE, &name("f"), None, Err(QKaledioscopeError::NoQMainError)),
        Err(QKaledioscopeError::NoQMainError)
    );
}

#[test]
fn a_call_of_an_unknown_function_is_reported_before_its_arguments() {
    let (done, _) = run_program(
        vec![definition(
            "qmain",
            vec![],
            None,
            vec![call_statement("nowhere", vec![variable("unbound")])],
            0,
        )],
        100,
    );
    assert_eq!(
        done,
        Err(QKaledioscopeError::UndefinedFunctionError {
            name: "nowhere".to_string(),
            src: SOURCE.to_string(),
            span: span(20, 21),
        })
    );
}

#[test]
fn arguments_are_bound_by_position_as_far_as_both_go() {
    let parameters = prototype("f", vec![("a", Type::Bit), ("b", Type::Number)], None).arguments;
    let all = bind_arguments(
        &parameters,
        &vec![InterpreterValue::Bit(true), InterpreterValue::QubitRef(1), InterpreterValue::Bit(false)],
    );
    assert_eq!(all.get(&name("a")), Some(&InterpreterValue::Bit(true)));
    assert_eq!(all.get(&name("b")), Some(&InterpreterValue::QubitRef(1)));
    let one = bind_arguments(&parameters, &vec![InterpreterValue::Bit(false)]);
    assert_eq!(one.get(&name("a")), Some(&InterpreterValue::Bit(false)));
    assert_eq!(one.get(&name("b")), None);
}

#[test]
fn an_expression_is_evaluated_in_a_frame() {
    let log = RefCell::new(vec![]);
    let builtins = standard(&log);
    let program = Program(vec![definition(
        "twice",
        vec![("q", Type::Qubit)],
        Some(Type::Qubit),
        vec![call_statement("h", vec![variable("q")]), Statement::Return(at(variable("q"), 1, 2))],
        0,
    )]);
    let mut table = FunctionTable::build(SOURCE, &program).ok().unwrap();
    table.register_builtin(&name("h"), &builtins.h);
    let mut symbols = LocalSymbolTable::new();
    symbols.insert(name("x"), InterpreterValue::QubitRef(5));
    let literal = at(Expression::BitLiteral(true), 0, 4);
    assert_eq!(literal.eval_in(SOURCE, &table, &mut symbols, 0), Ok(InterpreterValue::Bit(true)));
    let bits = at(number(0.5), 0, 3);
    assert_eq!(
        bits.eval_in(SOURCE, &table, &mut symbols, 0),
        Ok(InterpreterValue::Number(0.5f64.to_bits()))
    );
    let through = at(call("twice", vec![variable("x")]), 0, 8);
    assert_eq!(through.eval_in(SOURCE, &table, &mut symbols, 5), Ok(InterpreterValue::QubitRef(5)));
    assert_eq!(*log.borrow(), vec!["h[QubitRef(5)]"]);
    assert_eq!(symbols.get(&name("x")), Some(&InterpreterValue::QubitRef(5)));
    assert_eq!(symbols.get(&name("q")), None);
}

#[test]
fn an_entry_is_run_on_arguments() {
    let log = RefCell::new(vec![]);
    let builtins = standard(&log);
    let program = Program(vec![definition(
        "show",
        vec![("n", Type::Number)],
        None,
        vec![call_statement("print_n", vec![variable("n")])],
        0,
    )]);
    let mut table = FunctionTable::build(SOURCE, &program).ok().unwrap();
    table.register_builtin(&name("print_n"), &builtins.print_n);
    let show = table.get(&name("show")).unwrap();
    assert_eq!(show.run_in(SOURCE, &table, vec![InterpreterValue::Number(7)], 3), Ok(None));
    let print = table.get(&name("print_n")).unwrap();
    assert_eq!(print.run_in(SOURCE, &table, vec![InterpreterValue::Bit(true)], 0), Ok(None));
    assert_eq!(*log.borrow(), vec!["print_n[Number(7)]", "print_n[Bit(true)]"]);
}

#[test]
fn the_highest_qubit_of_assignments_and_calls_is_counted() {
    let program = Program(vec![
        declaration("f", vec![], None, 0),
        definition(
            "qmain",
            vec![],
            None,
            vec![
                declare("a", Type::Qubit, Expression::QubitLiteral(40)),
                assign("a", Expression::QubitLiteral(3)),
                call_statement("h", vec![call("id", vec![Expression::QubitLiteral(7)]), Expression::QubitLiteral(2)]),
                Statement::Return(at(Expression::QubitLiteral(50), 0, 1)),
            ],
            20,
        ),
        definition("g", vec![], None, vec![assign("b", Expression::QubitLiteral(5))], 80),
    ]);
    assert_eq!(program.n_qubits_required(), 7);
    assert_eq!(Program(vec![]).n_qubits_required(), 0);
    assert_eq!(Expression::QubitLiteral(11).n_qubits_required(), 11);
    assert_eq!(Expression::BitLiteral(true).n_qubits_required(), 0);
    assert_eq!(number(3.0).n_qubits_required(), 0);
    assert_eq!(variable("q").n_qubits_required(), 0);
    assert_eq!(
        call("f", vec![Expression::QubitLiteral(1), call("g", vec![Expression::QubitLiteral(9)])])
            .n_qubits_required(),
        9
    );
}
