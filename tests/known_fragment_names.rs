use juniper::ast::{Definition, Field, Fragment, FragmentSpread, InlineFragment, Operation, OperationType, Selection};
use juniper::known_fragment_names::{error_message, factory, validate};
use juniper::position::{SourcePosition, Spanning};
use juniper::validation::{RuleError, ValidatorContext};

fn span<T>(item: T, index: usize, line: usize, col: usize) -> Spanning<T> {
    let p = SourcePosition::new(index, line, col);
    Spanning::start_end(p, p, item)
}

fn name(s: &str, index: usize, line: usize, col: usize) -> Spanning<String> {
    span(s.to_string(), index, line, col)
}

fn spread(s: &str, index: usize, line: usize, col: usize) -> Selection {
    Selection::FragmentSpread(span(
        FragmentSpread { name: name(s, index, line, col) },
        index - 3,
        line,
        col - 3,
    ))
}

fn field(s: &str, index: usize, line: usize, col: usize, sub: Option<Vec<Selection>>) -> Selection {
    Selection::Field(span(
        Field { alias: None, name: name(s, index, line, col), selection_set: sub },
        index,
        line,
        col,
    ))
}

fn inline(on: Option<&str>, index: usize, line: usize, col: usize, sub: Vec<Selection>) -> Selection {
    Selection::InlineFragment(span(
        InlineFragment {
            type_condition: on.map(|t| name(t, index + 7, line, col + 7)),
            selection_set: sub,
        },
        index,
        line,
        col,
    ))
}

fn fragment(s: &str, on: &str, index: usize, line: usize, sub: Vec<Selection>) -> Definition {
    Definition::Fragment(span(
        Fragment {
            name: name(s, index + 9, line, 19),
            type_condition: name(on, index + 9 + s.len() + 4, line, 23 + s.len()),
            selection_set: sub,
        },
        index,
        line,
        10,
    ))
}

fn query(name_: Option<&str>, sub: Vec<Selection>) -> Definition {
    Definition::Operation(span(
        Operation {
            operation_type: OperationType::Query,
            name: name_.map(|n| name(n, 6, 0, 6)),
            selection_set: sub,
        },
        0,
        0,
        0,
    ))
}

#[test]
fn known() {
    let doc = vec![
        query(
            None,
            vec![field(
                "human",
                23,
                2,
                12,
                Some(vec![
                    spread("HumanFields1", 53, 3, 17),
                    inline(
                        Some("Human"),
                        80,
                        4,
                        14,
                        vec![spread("HumanFields2", 113, 5, 19)],
                    ),
                    inline(None, 156, 7, 14, vec![field("name", 176, 8, 16, None)]),
                ]),
            )],
        ),
        fragment(
            "HumanFields1",
            "Human",
            227,
            12,
            vec![field("name", 272, 13, 12, None), spread("HumanFields3", 292, 14, 15)],
        ),
        fragment("HumanFields2", "Human", 326, 16, vec![field("name", 371, 17, 12, None)]),
        fragment("HumanFields3", "Human", 397, 19, vec![field("name", 442, 20, 12, None)]),
    ];
    assert_eq!(validate(&doc), vec![]);
}

#[test]
fn unknown() {
    let doc = vec![
        query(
            None,
            vec![field(
                "human",
                23,
                2,
                12,
                Some(vec![
                    spread("UnknownFragment1", 57, 3, 17),
                    inline(
                        Some("Human"),
                        88,
                        4,
                        14,
                        vec![spread("UnknownFragment2", 122, 5, 19)],
                    ),
                ]),
            )],
        ),
        fragment(
            "HumanFields",
            "Human",
            195,
            9,
            vec![field("name", 239, 10, 12, None), spread("UnknownFragment3", 255, 11, 15)],
        ),
    ];
    assert_eq!(
        validate(&doc),
        vec![
            RuleError::new(&error_message("UnknownFragment1"), &[SourcePosition::new(57, 3, 17)]),
            RuleError::new(&error_message("UnknownFragment2"), &[SourcePosition::new(122, 5, 19)]),
            RuleError::new(&error_message("UnknownFragment3"), &[SourcePosition::new(255, 11, 15)]),
        ]
    );
}

#[test]
fn error_message_quotes_the_name() {
    assert_eq!(error_message("Foo"), "Unknown fragment: \"Foo\"");
    assert_eq!(error_message(""), "Unknown fragment: \"\"");
}

#[test]
fn empty_document_has_no_errors() {
    assert_eq!(validate(&vec![]), vec![]);
}

#[test]
fn spread_inside_nested_field_is_checked() {
    let doc = vec![query(
        None,
        vec![field(
            "a",
            2,
            0,
            2,
            Some(vec![field("b", 6, 0, 6, Some(vec![spread("Missing", 13, 0, 13)]))]),
        )],
    )];
    assert_eq!(
        validate(&doc),
        vec![RuleError::new("Unknown fragment: \"Missing\"", &[SourcePosition::new(13, 0, 13)])]
    );
}

#[test]
fn repeated_unknown_spread_reports_each_use() {
    let doc = vec![query(
        None,
        vec![spread("X", 5, 0, 5), spread("X", 12, 0, 12), spread("Y", 19, 0, 19)],
    ), fragment("Y", "T", 30, 1, vec![])];
    assert_eq!(
        validate(&doc),
        vec![
            RuleError::new(&error_message("X"), &[SourcePosition::new(5, 0, 5)]),
            RuleError::new(&error_message("X"), &[SourcePosition::new(12, 0, 12)]),
        ]
    );
}

#[test]
fn rule_reports_into_the_context() {
    let mut context = ValidatorContext::new(vec!["Known".to_string()]);
    let mut rule = factory();
    let known = span(FragmentSpread { name: name("Known", 3, 0, 3) }, 0, 0, 0);
    let unknown = span(FragmentSpread { name: name("Other", 14, 1, 3) }, 11, 1, 0);
    rule.enter_fragment_spread(&mut context, &known);
    assert!(context.errors.is_empty());
    rule.enter_fragment_spread(&mut context, &unknown);
    assert!(context.is_known_fragment(&"Known".to_string()));
    assert!(!context.is_known_fragment(&"Other".to_string()));
    assert_eq!(
        context.into_errors(),
        vec![RuleError::new("Unknown fragment: \"Other\"", &[SourcePosition::new(14, 1, 3)])]
    );
}

#[test]
fn declaration_order_does_not_change_errors() {
    let body = || vec![spread("B", 5, 0, 5), spread("Nope", 12, 0, 12), spread("A", 22, 0, 22)];
    let first = vec![
        query(None, body()),
        fragment("A", "T", 40, 1, vec![]),
        fragment("B", "T", 60, 2, vec![]),
    ];
    let second = vec![
        fragment("B", "T", 0, 0, vec![]),
        query(None, body()),
        fragment("A", "T", 60, 2, vec![]),
    ];
    let expected = vec![RuleError::new(&error_message("Nope"), &[SourcePosition::new(12, 0, 12)])];
    assert_eq!(validate(&first), expected);
    assert_eq!(validate(&second), expected);
}
