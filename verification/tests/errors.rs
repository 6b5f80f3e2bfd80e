use qkaledioscope::ast::Located;
use qkaledioscope::error::{
    description_of, format_rules, rule_error_as_parse_error, wrong_rule_as_parse_error,
    QKaledioscopeError,
};
use qkaledioscope::parser::{parse, ErrorVariant, LineColLocation, ParseNode, Rule, RuleError};
use qkaledioscope::span::SourceSpan;
use qkaledioscope::util::try_collect;

#[test]
fn a_span_runs_from_start_to_end() {
    assert_eq!(SourceSpan::between(3, 10), Some(SourceSpan { offset: 3, length: 7 }));
    assert_eq!(SourceSpan::between(4, 4), Some(SourceSpan { offset: 4, length: 0 }));
    assert_eq!(SourceSpan::between(0, usize::MAX), Some(SourceSpan { offset: 0, length: usize::MAX }));
    assert_eq!(SourceSpan::between(5, 4), None);
}

#[test]
fn a_located_node_has_offset_and_length() {
    let node = Located { value: 'x', location: Some((12, 20)) };
    assert_eq!(node.as_sourcespan(), Some(SourceSpan { offset: 12, length: 8 }));
}

#[test]
fn a_node_without_location_has_no_span() {
    let node: Located<u8> = Located::from(7);
    assert_eq!(node.value, 7);
    assert_eq!(node.location, None);
    assert_eq!(node.as_sourcespan(), None);
    let inverted = Located { value: 7u8, location: Some((9, 2)) };
    assert_eq!(inverted.as_sourcespan(), None);
}

#[test]
fn a_syntax_error_carries_text_span_and_causes() {
    let cause = wrong_rule_as_parse_error("abc def", "inner", (4, 7), vec![]);
    let error = wrong_rule_as_parse_error("abc def", "outer", (0, 7), vec![cause]);
    assert_eq!(
        error,
        QKaledioscopeError::ParseError {
            description: "outer".to_string(),
            src: "abc def".to_string(),
            err_span: Some(SourceSpan { offset: 0, length: 7 }),
            causes: vec![QKaledioscopeError::ParseError {
                description: "inner".to_string(),
                src: "abc def".to_string(),
                err_span: Some(SourceSpan { offset: 4, length: 3 }),
                causes: vec![],
            }],
        }
    );
}

#[test]
fn rules_are_listed_by_name() {
    assert_eq!(format_rules(&vec![]), "[]");
    assert_eq!(format_rules(&vec![Rule::Ident]), "[Ident]");
    assert_eq!(
        format_rules(&vec![Rule::EOI, Rule::call_expr, Rule::TrueKeyword]),
        "[EOI, call_expr, TrueKeyword]"
    );
}

#[test]
fn rules_are_listed_as_they_are_debug_printed() {
    let all = vec![
        Rule::EOI,
        Rule::WHITESPACE,
        Rule::COMMENT,
        Rule::program,
        Rule::declaration,
        Rule::definition,
        Rule::prototype,
        Rule::arg_decls,
        Rule::arg_decl,
        Rule::return_decl,
        Rule::qubit_type,
        Rule::number_type,
        Rule::bit_type,
        Rule::Ident,
        Rule::variable_declaration,
        Rule::assignment,
        Rule::call_expr,
        Rule::if_stmt,
        Rule::if_block,
        Rule::else_block,
        Rule::while_stmt,
        Rule::return_stmt,
        Rule::TrueKeyword,
        Rule::FalseKeyword,
        Rule::number_literal,
        Rule::qubit_literal,
    ];
    assert_eq!(format_rules(&all), format!("{:?}", all));
    for rule in all {
        assert_eq!(rule.name(), format!("{:?}", rule));
    }
}

#[test]
fn a_failed_match_is_described_by_its_rules() {
    let both = ErrorVariant::ParsingError {
        positives: vec![Rule::Ident, Rule::number_literal],
        negatives: vec![Rule::TrueKeyword],
    };
    assert_eq!(description_of(&both), "unexpected [TrueKeyword]; expected [Ident, number_literal]");
    let unexpected =
        ErrorVariant::ParsingError { positives: vec![], negatives: vec![Rule::else_block] };
    assert_eq!(description_of(&unexpected), "unexpected [else_block]");
    let expected = ErrorVariant::ParsingError { positives: vec![Rule::EOI], negatives: vec![] };
    assert_eq!(description_of(&expected), "expected [EOI]");
    let neither = ErrorVariant::ParsingError { positives: vec![], negatives: vec![] };
    assert_eq!(description_of(&neither), "unknown parsing error");
    let custom = ErrorVariant::CustomError { message: "no such thing".to_string() };
    assert_eq!(description_of(&custom), "no such thing");
}

#[test]
fn a_position_becomes_the_byte_behind_it() {
    let source = "f\n\noo\r\nbar";
    let error = RuleError {
        variant: ErrorVariant::CustomError { message: "here".to_string() },
        line_col: LineColLocation::Pos((3, 1)),
    };
    assert_eq!(
        rule_error_as_parse_error(source, error),
        QKaledioscopeError::ParseError {
            description: "here".to_string(),
            src: source.to_string(),
            err_span: Some(SourceSpan { offset: 4, length: 1 }),
            causes: vec![],
        }
    );
}

#[test]
fn a_region_runs_between_the_offsets_of_its_ends() {
    let source = "f\n\noo\r\nbar";
    let error = RuleError {
        variant: ErrorVariant::ParsingError { positives: vec![Rule::Ident], negatives: vec![] },
        line_col: LineColLocation::Span((3, 2), (4, 4)),
    };
    assert_eq!(
        rule_error_as_parse_error(source, error),
        QKaledioscopeError::ParseError {
            description: "expected [Ident]".to_string(),
            src: source.to_string(),
            err_span: Some(SourceSpan { offset: 4, length: 6 }),
            causes: vec![],
        }
    );
}

#[test]
fn a_place_beyond_the_text_is_the_end_of_the_text() {
    let source = "ab\ncd";
    let error = RuleError {
        variant: ErrorVariant::CustomError { message: "end".to_string() },
        line_col: LineColLocation::Span((1, 1), (9, 9)),
    };
    assert_eq!(
        rule_error_as_parse_error(source, error),
        QKaledioscopeError::ParseError {
            description: "end".to_string(),
            src: source.to_string(),
            err_span: Some(SourceSpan { offset: 0, length: 5 }),
            causes: vec![],
        }
    );
}

#[test]
fn a_region_that_ends_before_it_starts_has_no_span() {
    let source = "ab\ncd";
    let error = RuleError {
        variant: ErrorVariant::CustomError { message: "backwards".to_string() },
        line_col: LineColLocation::Span((2, 2), (1, 1)),
    };
    assert_eq!(
        rule_error_as_parse_error(source, error),
        QKaledioscopeError::ParseError {
            description: "backwards".to_string(),
            src: source.to_string(),
            err_span: None,
            causes: vec![],
        }
    );
    let last_column = RuleError {
        variant: ErrorVariant::CustomError { message: "far".to_string() },
        line_col: LineColLocation::Pos((1, usize::MAX)),
    };
    assert_eq!(
        rule_error_as_parse_error(source, last_column),
        QKaledioscopeError::ParseError {
            description: "far".to_string(),
            src: source.to_string(),
            err_span: None,
            causes: vec![],
        }
    );
}

#[test]
fn the_nodes_of_a_match_are_handed_on() {
    let nodes = vec![ParseNode {
        rule: Rule::EOI,
        start: 0,
        end: 0,
        text: String::new(),
        number: None,
        children: vec![],
    }];
    let same = vec![ParseNode {
        rule: Rule::EOI,
        start: 0,
        end: 0,
        text: String::new(),
        number: None,
        children: vec![],
    }];
    assert_eq!(parse("", Ok(nodes)), Ok(same));
    let error = RuleError {
        variant: ErrorVariant::ParsingError { positives: vec![], negatives: vec![Rule::Ident] },
        line_col: LineColLocation::Pos((1, 2)),
    };
    assert_eq!(
        parse("abc", Err(error)),
        Err(QKaledioscopeError::ParseError {
            description: "unexpected [Ident]".to_string(),
            src: "abc".to_string(),
            err_span: Some(SourceSpan { offset: 2, length: 1 }),
            causes: vec![],
        })
    );
}

#[test]
fn all_values_are_collected_in_order() {
    let items: Vec<Result<u32, String>> = vec![Ok(1), Ok(2), Ok(3)];
    assert_eq!(try_collect(items), Ok(vec![1, 2, 3]));
}

#[test]
fn all_errors_are_collected_in_order() {
    let items: Vec<Result<u32, String>> =
        vec![Ok(1), Err("a".to_string()), Ok(3), Err("b".to_string())];
    assert_eq!(try_collect(items), Err(vec!["a".to_string(), "b".to_string()]));
}

#[test]
fn nothing_collects_to_nothing() {
    let items: Vec<Result<u32, String>> = vec![];
    assert_eq!(try_collect(items), Ok(vec![]));
}
