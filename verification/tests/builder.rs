use qkaledioscope::ast::{
    ArgumentDeclaration, Expression, FileElement, Identifier, Located, Program, Prototype,
    Statement, Type,
};
use qkaledioscope::ast_builder::{parse, parse_index};
use qkaledioscope::error::{FloatErrorKind, IntErrorKind, QKaledioscopeError};
use qkaledioscope::parser::{ErrorVariant, LineColLocation, ParseNode, Rule, RuleError};
use qkaledioscope::span::SourceSpan;

fn node(rule: Rule, start: usize, end: usize, text: &str, children: Vec<ParseNode>) -> ParseNode {
    ParseNode { rule, start, end, text: text.to_string(), number: None, children }
}

fn leaf(rule: Rule, start: usize, end: usize, text: &str) -> ParseNode {
    node(rule, start, end, text, vec![])
}

fn number(start: usize, end: usize, text: &str) -> ParseNode {
    ParseNode {
        rule: Rule::number_literal,
        start,
        end,
        text: text.to_string(),
        number: text.parse::<f64>().ok().map(|value| value.to_bits()),
        children: vec![],
    }
}

fn at<T>(value: T, start: usize, end: usize) -> Located<T> {
    Located { value, location: Some((start, end)) }
}

fn name(text: &str) -> Identifier {
    Identifier(text.to_string())
}

fn syntax_error(
    description: &str,
    source: &str,
    start: usize,
    end: usize,
    causes: Vec<QKaledioscopeError>,
) -> QKaledioscopeError {
    QKaledioscopeError::ParseError {
        description: description.to_string(),
        src: source.to_string(),
        err_span: Some(SourceSpan { offset: start, length: end - start }),
        causes,
    }
}

// def qmain() { var x: Number = 1.5; }
const SOURCE: &str = "def qmain() { var x: Number = 1.5; }";

fn qmain_nodes() -> Vec<ParseNode> {
    vec![
        node(
            Rule::definition,
            0,
            36,
            SOURCE,
            vec![
                node(
                    Rule::prototype,
                    4,
                    11,
                    "qmain()",
                    vec![leaf(Rule::Ident, 4, 9, "qmain"), leaf(Rule::arg_decls, 10, 10, "")],
                ),
                node(
                    Rule::variable_declaration,
                    14,
                    34,
                    "var x: Number = 1.5;",
                    vec![
                        leaf(Rule::Ident, 18, 19, "x"),
                        leaf(Rule::number_type, 21, 27, "Number"),
                        number(30, 33, "1.5"),
                    ],
                ),
            ],
        ),
        leaf(Rule::EOI, 36, 36, ""),
    ]
}

fn qmain_program() -> Program {
    Program(vec![at(
        FileElement::Definition {
            prototype: at(
                Prototype { name: at(name("qmain"), 4, 9), arguments: vec![], return_type: None },
                4,
                11,
            ),
            body: vec![at(
                Statement::VariableDeclaration(
                    at(name("x"), 18, 19),
                    at(Type::Number, 21, 27),
                    at(Expression::NumberLiteral(1.5f64.to_bits()), 30, 33),
                ),
                14,
                34,
            )],
        },
        0,
        36,
    )])
}

#[test]
fn builds_a_definition_with_its_places() {
    assert_eq!(parse(SOURCE, Ok(qmain_nodes())), Ok(qmain_program()));
}

#[test]
fn building_twice_gives_the_same_tree() {
    let first = parse(SOURCE, Ok(qmain_nodes()));
    let second = parse(SOURCE, Ok(qmain_nodes()));
    assert!(first.is_ok());
    assert_eq!(first, second);
}

#[test]
fn the_end_of_input_is_no_element() {
    let nodes = vec![leaf(Rule::EOI, 0, 0, "")];
    assert_eq!(parse("", Ok(nodes)), Ok(Program(vec![])));
}

#[test]
fn an_empty_tree_is_an_empty_program() {
    assert_eq!(parse("", Ok(vec![])), Ok(Program(vec![])));
}

#[test]
fn a_failed_match_is_a_syntax_error() {
    let error = RuleError {
        variant: ErrorVariant::ParsingError {
            positives: vec![Rule::declaration, Rule::definition],
            negatives: vec![],
        },
        line_col: LineColLocation::Pos((1, 1)),
    };
    assert_eq!(
        parse("oops", Err(error)),
        Err(QKaledioscopeError::ParseError {
            description: "expected [declaration, definition]".to_string(),
            src: "oops".to_string(),
            err_span: Some(SourceSpan { offset: 1, length: 1 }),
            causes: vec![],
        })
    );
}

#[test]
fn a_declaration_holds_a_prototype() {
    // extern f(q: Qubit): Bit;
    let source = "extern f(q: Qubit): Bit;";
    let nodes = vec![node(
        Rule::declaration,
        0,
        24,
        source,
        vec![node(
            Rule::prototype,
            7,
            23,
            "f(q: Qubit): Bit",
            vec![
                leaf(Rule::Ident, 7, 8, "f"),
                node(
                    Rule::arg_decls,
                    9,
                    17,
                    "q: Qubit",
                    vec![node(
                        Rule::arg_decl,
                        9,
                        17,
                        "q: Qubit",
                        vec![leaf(Rule::Ident, 9, 10, "q"), leaf(Rule::qubit_type, 12, 17, "Qubit")],
                    )],
                ),
                node(Rule::return_decl, 18, 23, ": Bit", vec![leaf(Rule::bit_type, 20, 23, "Bit")]),
            ],
        )],
    )];
    let expected = Program(vec![at(
        FileElement::Declaration(at(
            Prototype {
                name: at(name("f"), 7, 8),
                arguments: vec![at(
                    ArgumentDeclaration(at(name("q"), 9, 10), at(Type::Qubit, 12, 17)),
                    9,
                    17,
                )],
                return_type: Some(at(Type::Bit, 20, 23)),
            },
            7,
            23,
        )),
        0,
        24,
    )]);
    assert_eq!(parse(source, Ok(nodes)), Ok(expected));
}

#[test]
fn a_wrong_top_level_rule_is_reported() {
    let nodes = vec![leaf(Rule::Ident, 2, 5, "abc")];
    assert_eq!(
        parse("  abc", Ok(nodes)),
        Err(syntax_error("Expected declaration or definition.", "  abc", 2, 5, vec![]))
    );
}

#[test]
fn the_first_faulty_element_decides() {
    let nodes = vec![leaf(Rule::Ident, 0, 1, "a"), leaf(Rule::bit_type, 2, 5, "Bit")];
    assert_eq!(
        parse("a Bit", Ok(nodes)),
        Err(syntax_error("Expected declaration or definition.", "a Bit", 0, 1, vec![]))
    );
}

#[test]
fn identifiers_need_the_rule_for_names() {
    assert_eq!(Identifier::try_parse_raw("x", &leaf(Rule::Ident, 0, 1, "x")), Ok(name("x")));
    assert_eq!(
        Identifier::try_parse_raw("1", &leaf(Rule::TrueKeyword, 0, 1, "1")),
        Err(syntax_error("Expected identifier", "1", 0, 1, vec![]))
    );
    assert_eq!(
        Identifier::try_parse("x", &leaf(Rule::Ident, 0, 1, "x")),
        Ok(at(name("x"), 0, 1))
    );
}

#[test]
fn types_are_told_apart_by_their_rules() {
    assert_eq!(Type::try_parse_raw("", &leaf(Rule::qubit_type, 0, 0, "")), Ok(Type::Qubit));
    assert_eq!(Type::try_parse_raw("", &leaf(Rule::number_type, 0, 0, "")), Ok(Type::Number));
    assert_eq!(Type::try_parse_raw("", &leaf(Rule::bit_type, 0, 0, "")), Ok(Type::Bit));
    assert_eq!(
        Type::try_parse_raw("Foo", &leaf(Rule::Ident, 0, 3, "Foo")),
        Err(syntax_error("Expected a valid type", "Foo", 0, 3, vec![]))
    );
}

#[test]
fn a_parameter_is_a_name_and_a_type() {
    let pair = node(
        Rule::arg_decl,
        0,
        6,
        "b: Bit",
        vec![leaf(Rule::Ident, 0, 1, "b"), leaf(Rule::bit_type, 3, 6, "Bit")],
    );
    assert_eq!(
        ArgumentDeclaration::try_parse_raw("b: Bit", &pair),
        Ok(ArgumentDeclaration(at(name("b"), 0, 1), at(Type::Bit, 3, 6)))
    );
    assert_eq!(
        ArgumentDeclaration::try_parse_raw("b", &leaf(Rule::Ident, 0, 1, "b")),
        Err(syntax_error("Expected argument declaration", "b", 0, 1, vec![]))
    );
}

#[test]
fn a_parameter_without_a_type_is_a_fault_of_the_parameter() {
    let pair = node(Rule::arg_decl, 0, 1, "b", vec![leaf(Rule::Ident, 0, 1, "b")]);
    assert_eq!(
        ArgumentDeclaration::try_parse_raw("b", &pair),
        Err(syntax_error("Expected a valid type", "b", 0, 1, vec![]))
    );
}

#[test]
fn the_faults_of_all_parameters_are_gathered() {
    // f(1: Bit, c: 2)
    let source = "f(1: Bit, c: 2)";
    let pair = node(
        Rule::prototype,
        0,
        15,
        source,
        vec![
            leaf(Rule::Ident, 0, 1, "f"),
            node(
                Rule::arg_decls,
                2,
                14,
                "1: Bit, c: 2",
                vec![
                    node(
                        Rule::arg_decl,
                        2,
                        8,
                        "1: Bit",
                        vec![number(2, 3, "1"), leaf(Rule::bit_type, 5, 8, "Bit")],
                    ),
                    node(
                        Rule::arg_decl,
                        10,
                        14,
                        "c: 2",
                        vec![leaf(Rule::Ident, 10, 11, "c"), number(13, 14, "2")],
                    ),
                ],
            ),
        ],
    );
    assert_eq!(
        Prototype::try_parse_raw(source, &pair),
        Err(syntax_error(
            "Expected argument declarations",
            source,
            0,
            15,
            vec![
                syntax_error("Expected identifier", source, 2, 3, vec![]),
                syntax_error("Expected a valid type", source, 13, 14, vec![]),
            ]
        ))
    );
}

#[test]
fn a_prototype_needs_its_rule() {
    assert_eq!(
        Prototype::try_parse_raw("f", &leaf(Rule::Ident, 0, 1, "f")),
        Err(syntax_error("Expected prototype.", "f", 0, 1, vec![]))
    );
}

#[test]
fn a_prototype_without_a_return_type_returns_nothing() {
    let pair = node(
        Rule::prototype,
        0,
        3,
        "f()",
        vec![leaf(Rule::Ident, 0, 1, "f"), leaf(Rule::arg_decls, 2, 2, "")],
    );
    assert_eq!(
        Prototype::try_parse_raw("f()", &pair),
        Ok(Prototype { name: at(name("f"), 0, 1), arguments: vec![], return_type: None })
    );
}

#[test]
fn literals_are_read() {
    assert_eq!(
        Expression::try_parse_raw("true", &leaf(Rule::TrueKeyword, 0, 4, "true")),
        Ok(Expression::BitLiteral(true))
    );
    assert_eq!(
        Expression::try_parse_raw("false", &leaf(Rule::FalseKeyword, 0, 5, "false")),
        Ok(Expression::BitLiteral(false))
    );
    assert_eq!(
        Expression::try_parse_raw("2.25", &number(0, 4, "2.25")),
        Ok(Expression::NumberLiteral(2.25f64.to_bits()))
    );
    assert_eq!(
        Expression::try_parse_raw("#12", &leaf(Rule::qubit_literal, 0, 3, "#12")),
        Ok(Expression::QubitLiteral(12))
    );
    assert_eq!(
        Expression::try_parse_raw("x", &leaf(Rule::Ident, 0, 1, "x")),
        Ok(Expression::Identifier(name("x")))
    );
}

#[test]
fn a_number_that_cannot_be_read_is_reported() {
    let pair = leaf(Rule::number_literal, 3, 6, "1.x");
    assert_eq!(
        Expression::try_parse_raw("a= 1.x", &pair),
        Err(syntax_error(
            "Could not convert `1.x` to number literal",
            "a= 1.x",
            3,
            6,
            vec![QKaledioscopeError::ParseFloatError(FloatErrorKind::Invalid)]
        ))
    );
    let empty = leaf(Rule::number_literal, 3, 3, "");
    assert_eq!(
        Expression::try_parse_raw("a= ", &empty),
        Err(syntax_error(
            "Could not convert `` to number literal",
            "a= ",
            3,
            3,
            vec![QKaledioscopeError::ParseFloatError(FloatErrorKind::Empty)]
        ))
    );
}

#[test]
fn a_qubit_index_that_cannot_be_read_is_reported() {
    let pair = leaf(Rule::qubit_literal, 0, 3, "#1a");
    assert_eq!(
        Expression::try_parse_raw("#1a", &pair),
        Err(syntax_error(
            "Could not convert `#1a` to qubit literal",
            "#1a",
            0,
            3,
            vec![QKaledioscopeError::ParseIntError(IntErrorKind::InvalidDigit)]
        ))
    );
    let bare = leaf(Rule::qubit_literal, 0, 1, "#");
    assert_eq!(
        Expression::try_parse_raw("#", &bare),
        Err(syntax_error(
            "Could not convert `#` to qubit literal",
            "#",
            0,
            1,
            vec![QKaledioscopeError::ParseIntError(IntErrorKind::Empty)]
        ))
    );
}

#[test]
fn indices_are_decimal() {
    assert_eq!(parse_index("q0", 1), Ok(0));
    assert_eq!(parse_index("q007", 1), Ok(7));
    assert_eq!(parse_index("q+42", 1), Ok(42));
    assert_eq!(parse_index("1234", 0), Ok(1234));
    assert_eq!(parse_index("q", 1), Err(IntErrorKind::Empty));
    assert_eq!(parse_index("", 1), Err(IntErrorKind::Empty));
    assert_eq!(parse_index("q+", 1), Err(IntErrorKind::InvalidDigit));
    assert_eq!(parse_index("q-", 1), Err(IntErrorKind::InvalidDigit));
    assert_eq!(parse_index("q-1", 1), Err(IntErrorKind::InvalidDigit));
    assert_eq!(parse_index("q1 ", 1), Err(IntErrorKind::InvalidDigit));
    assert_eq!(parse_index("q١", 1), Err(IntErrorKind::InvalidDigit));
}

#[test]
fn indices_agree_with_the_standard_library() {
    for text in ["0", "9", "10", "+5", "-5", "", "+", "a", "12a", "18446744073709551615",
        "18446744073709551616", "99999999999999999999999", "000000000000000000000001"]
    {
        let expected = text.parse::<usize>().ok();
        assert_eq!(parse_index(text, 0).ok(), expected, "{}", text);
    }
}

#[test]
fn an_index_that_is_too_large_overflows() {
    let largest = format!("q{}", usize::MAX);
    assert_eq!(parse_index(&largest, 1), Ok(usize::MAX));
    let too_large = format!("q{}0", usize::MAX);
    assert_eq!(parse_index(&too_large, 1), Err(IntErrorKind::PosOverflow));
    assert_eq!(parse_index("q18446744073709551616", 1), Err(IntErrorKind::PosOverflow));
}

#[test]
fn a_call_gathers_the_faults_of_its_arguments() {
    // f(#x, 1, Bit)
    let source = "f(#x, 1, Bit)";
    let pair = node(
        Rule::call_expr,
        0,
        13,
        source,
        vec![
            leaf(Rule::Ident, 0, 1, "f"),
            leaf(Rule::qubit_literal, 2, 4, "#x"),
            number(6, 7, "1"),
            leaf(Rule::bit_type, 9, 12, "Bit"),
        ],
    );
    assert_eq!(
        Expression::try_parse_raw(source, &pair),
        Err(syntax_error(
            "Expected definition body",
            source,
            0,
            13,
            vec![
                syntax_error(
                    "Could not convert `#x` to qubit literal",
                    source,
                    2,
                    4,
                    vec![QKaledioscopeError::ParseIntError(IntErrorKind::InvalidDigit)]
                ),
                syntax_error("Expected a valid expression", source, 9, 12, vec![]),
            ]
        ))
    );
}

#[test]
fn a_call_holds_its_arguments_in_order() {
    let source = "f(#1, g(true))";
    let pair = node(
        Rule::call_expr,
        0,
        14,
        source,
        vec![
            leaf(Rule::Ident, 0, 1, "f"),
            leaf(Rule::qubit_literal, 2, 4, "#1"),
            node(
                Rule::call_expr,
                6,
                13,
                "g(true)",
                vec![leaf(Rule::Ident, 6, 7, "g"), leaf(Rule::TrueKeyword, 8, 12, "true")],
            ),
        ],
    );
    let expected = Expression::Call(
        at(name("f"), 0, 1),
        vec![
            at(Expression::QubitLiteral(1), 2, 4),
            at(
                Expression::Call(at(name("g"), 6, 7), vec![at(Expression::BitLiteral(true), 8, 12)]),
                6,
                13,
            ),
        ],
    );
    assert_eq!(Expression::try_parse_raw(source, &pair), Ok(expected.clone_tree()));
    assert_eq!(Statement::try_parse_raw(source, &pair), Ok(statement_call(expected)));
}

trait CloneTree {
    fn clone_tree(&self) -> Self;
}

impl CloneTree for Expression {
    fn clone_tree(&self) -> Self {
        match self {
            Expression::Call(callee, arguments) => Expression::Call(
                Located { value: callee.value.clone(), location: callee.location },
                arguments
                    .iter()
                    .map(|argument| Located {
                        value: argument.value.clone_tree(),
                        location: argument.location,
                    })
                    .collect(),
            ),
            Expression::Identifier(name) => Expression::Identifier(name.clone()),
            Expression::QubitLiteral(index) => Expression::QubitLiteral(*index),
            Expression::NumberLiteral(bits) => Expression::NumberLiteral(*bits),
            Expression::BitLiteral(bit) => Expression::BitLiteral(*bit),
        }
    }
}

fn statement_call(expression: Expression) -> Statement {
    match expression {
        Expression::Call(callee, arguments) => Statement::Call(callee, arguments),
        _ => unreachable!(),
    }
}

#[test]
fn a_conditional_without_else_has_an_empty_other_branch() {
    // if true { return #0; }
    let source = "if true { return #0; }";
    let pair = node(
        Rule::if_stmt,
        0,
        22,
        source,
        vec![node(
            Rule::if_block,
            0,
            22,
            source,
            vec![
                leaf(Rule::TrueKeyword, 3, 7, "true"),
                node(
                    Rule::return_stmt,
                    10,
                    20,
                    "return #0;",
                    vec![leaf(Rule::qubit_literal, 17, 19, "#0")],
                ),
            ],
        )],
    );
    assert_eq!(
        Statement::try_parse_raw(source, &pair),
        Ok(Statement::If {
            condition: at(Expression::BitLiteral(true), 3, 7),
            true_body: vec![at(
                Statement::Return(at(Expression::QubitLiteral(0), 17, 19)),
                10,
                20
            )],
            false_body: vec![],
        })
    );
}

#[test]
fn a_conditional_with_else_has_both_branches() {
    // if b { x = 1; } else { x = 2; }
    let source = "if b { x = 1; } else { x = 2; }";
    let assignment = |start: usize, text: &str, value: &str| {
        node(
            Rule::assignment,
            start,
            start + 6,
            text,
            vec![leaf(Rule::Ident, start, start + 1, "x"), number(start + 4, start + 5, value)],
        )
    };
    let pair = node(
        Rule::if_stmt,
        0,
        31,
        source,
        vec![
            node(
                Rule::if_block,
                0,
                15,
                "if b { x = 1; }",
                vec![leaf(Rule::Ident, 3, 4, "b"), assignment(7, "x = 1;", "1")],
            ),
            node(Rule::else_block, 16, 31, "else { x = 2; }", vec![assignment(23, "x = 2;", "2")]),
        ],
    );
    let assigned = |start: usize, value: f64| {
        at(
            Statement::Assignment(
                at(name("x"), start, start + 1),
                at(Expression::NumberLiteral(value.to_bits()), start + 4, start + 5),
            ),
            start,
            start + 6,
        )
    };
    assert_eq!(
        Statement::try_parse_raw(source, &pair),
        Ok(Statement::If {
            condition: at(Expression::Identifier(name("b")), 3, 4),
            true_body: vec![assigned(7, 1.0)],
            false_body: vec![assigned(23, 2.0)],
        })
    );
}

#[test]
fn the_faults_of_a_block_are_reported_together() {
    // while b { 1 2 }
    let source = "while b { 1 2 }";
    let pair = node(
        Rule::while_stmt,
        0,
        15,
        source,
        vec![leaf(Rule::Ident, 6, 7, "b"), number(10, 11, "1"), number(12, 13, "2")],
    );
    assert_eq!(
        Statement::try_parse_raw(source, &pair),
        Err(syntax_error(
            "Expected definition body",
            source,
            0,
            15,
            vec![
                syntax_error("Expected a valid statement", source, 10, 11, vec![]),
                syntax_error("Expected a valid statement", source, 12, 13, vec![]),
            ]
        ))
    );
}

#[test]
fn a_loop_holds_its_condition_and_body() {
    let source = "while m(#0) { h(#0); }";
    let pair = node(
        Rule::while_stmt,
        0,
        22,
        source,
        vec![
            node(
                Rule::call_expr,
                6,
                11,
                "m(#0)",
                vec![leaf(Rule::Ident, 6, 7, "m"), leaf(Rule::qubit_literal, 8, 10, "#0")],
            ),
            node(
                Rule::call_expr,
                14,
                19,
                "h(#0)",
                vec![leaf(Rule::Ident, 14, 15, "h"), leaf(Rule::qubit_literal, 16, 18, "#0")],
            ),
        ],
    );
    assert_eq!(
        Statement::try_parse_raw(source, &pair),
        Ok(Statement::While {
            condition: at(
                Expression::Call(at(name("m"), 6, 7), vec![at(Expression::QubitLiteral(0), 8, 10)]),
                6,
                11
            ),
            body: vec![at(
                Statement::Call(at(name("h"), 14, 15), vec![at(Expression::QubitLiteral(0), 16, 18)]),
                14,
                19
            )],
        })
    );
}

#[test]
fn a_statement_with_a_member_missing_is_at_fault_itself() {
    let source = "var x";
    let pair = node(Rule::variable_declaration, 0, 5, source, vec![leaf(Rule::Ident, 4, 5, "x")]);
    assert_eq!(
        Statement::try_parse_raw(source, &pair),
        Err(syntax_error("Expected a valid type", source, 0, 5, vec![]))
    );
    let empty = leaf(Rule::if_stmt, 0, 2, "if");
    assert_eq!(
        Statement::try_parse_raw("if", &empty),
        Err(syntax_error("Expected a valid statement", "if", 0, 2, vec![]))
    );
    let nothing = leaf(Rule::return_stmt, 0, 6, "return");
    assert_eq!(
        Statement::try_parse_raw("return", &nothing),
        Err(syntax_error("Expected a valid expression", "return", 0, 6, vec![]))
    );
}

#[test]
fn a_wrong_statement_rule_is_reported() {
    assert_eq!(
        Statement::try_parse_raw("Bit", &leaf(Rule::bit_type, 0, 3, "Bit")),
        Err(syntax_error("Expected a valid statement", "Bit", 0, 3, vec![]))
    );
    assert_eq!(
        Statement::try_parse("Bit", &leaf(Rule::bit_type, 0, 3, "Bit")),
        Err(syntax_error("Expected a valid statement", "Bit", 0, 3, vec![]))
    );
}

#[test]
fn a_place_whose_bounds_are_out_of_order_has_no_span() {
    let pair = leaf(Rule::bit_type, 5, 3, "Bit");
    assert_eq!(
        Statement::try_parse_raw("Bit", &pair),
        Err(QKaledioscopeError::ParseError {
            description: "Expected a valid statement".to_string(),
            src: "Bit".to_string(),
            err_span: None,
            causes: vec![],
        })
    );
}

#[test]
fn a_definition_gathers_the_faults_of_its_body() {
    let source = "def f() { Bit }";
    let pair = node(
        Rule::definition,
        0,
        15,
        source,
        vec![
            node(
                Rule::prototype,
                4,
                7,
                "f()",
                vec![leaf(Rule::Ident, 4, 5, "f"), leaf(Rule::arg_decls, 6, 6, "")],
            ),
            leaf(Rule::bit_type, 10, 13, "Bit"),
        ],
    );
    assert_eq!(
        FileElement::try_parse(source, &pair),
        Err(syntax_error(
            "Expected definition body",
            source,
            0,
            15,
            vec![syntax_error("Expected a valid statement", source, 10, 13, vec![])]
        ))
    );
}

#[test]
fn an_element_without_a_prototype_is_at_fault() {
    let pair = leaf(Rule::declaration, 0, 6, "extern");
    assert_eq!(
        FileElement::try_parse_raw("extern", &pair),
        Err(syntax_error("Expected prototype.", "extern", 0, 6, vec![]))
    );
}
