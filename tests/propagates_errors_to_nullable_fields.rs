use juniper::completion::{execute_fields, ExecutionError, Resolved, ResolvedField, Scalar};
use juniper::position::SourcePosition;
use juniper::value::Value;

fn field(key: &str, non_null: bool, at: usize, result: Resolved) -> ResolvedField {
    ResolvedField {
        key: key.to_string(),
        non_null,
        location: SourcePosition::new(at, 0, at),
        result,
    }
}

fn error(at: usize, path: &[&str], message: &str) -> ExecutionError {
    ExecutionError {
        location: SourcePosition::new(at, 0, at),
        path: path.iter().map(|s| s.to_string()).collect(),
        message: message.to_string(),
    }
}

fn object(entries: Vec<(&str, Value)>) -> Value {
    Value::Object(entries.into_iter().map(|(k, v)| (k.to_string(), v)).collect())
}

fn nullable_error_field(at: usize) -> ResolvedField {
    field("nullableErrorField", false, at, Resolved::Failed("Error for nullableErrorField".to_string()))
}

fn non_nullable_error_field(at: usize) -> ResolvedField {
    field("nonNullableErrorField", true, at, Resolved::Failed("Error for nonNullableErrorField".to_string()))
}

#[test]
fn nullable_first_level() {
    // { inner { nullableErrorField } }
    let fields = vec![field("inner", true, 2, Resolved::Object(vec![nullable_error_field(10)]))];
    let (result, errs) = execute_fields(&fields);
    assert_eq!(result, object(vec![("inner", object(vec![("nullableErrorField", Value::Null)]))]));
    assert_eq!(errs, vec![error(10, &["inner", "nullableErrorField"], "Error for nullableErrorField")]);
}

#[test]
fn non_nullable_first_level() {
    // { inner { nonNullableErrorField } }
    let fields = vec![field("inner", true, 2, Resolved::Object(vec![non_nullable_error_field(10)]))];
    let (result, errs) = execute_fields(&fields);
    assert_eq!(result, Value::Null);
    assert_eq!(
        errs,
        vec![error(10, &["inner", "nonNullableErrorField"], "Error for nonNullableErrorField")]
    );
}

#[test]
fn nullable_nested_level() {
    // { inner { nullableField { nonNullableErrorField } } }
    let fields = vec![field(
        "inner",
        true,
        2,
        Resolved::Object(vec![field(
            "nullableField",
            false,
            10,
            Resolved::Object(vec![non_nullable_error_field(26)]),
        )]),
    )];
    let (result, errs) = execute_fields(&fields);
    assert_eq!(result, object(vec![("inner", object(vec![("nullableField", Value::Null)]))]));
    assert_eq!(
        errs,
        vec![error(
            26,
            &["inner", "nullableField", "nonNullableErrorField"],
            "Error for nonNullableErrorField"
        )]
    );
}

#[test]
fn non_nullable_nested_level() {
    // { inner { nonNullableField { nonNullableErrorField } } }
    let fields = vec![field(
        "inner",
        true,
        2,
        Resolved::Object(vec![field(
            "nonNullableField",
            true,
            10,
            Resolved::Object(vec![non_nullable_error_field(29)]),
        )]),
    )];
    let (result, errs) = execute_fields(&fields);
    assert_eq!(result, Value::Null);
    assert_eq!(
        errs,
        vec![error(
            29,
            &["inner", "nonNullableField", "nonNullableErrorField"],
            "Error for nonNullableErrorField"
        )]
    );
}

#[test]
fn nullable_innermost() {
    // { inner { nonNullableField { nullableErrorField } } }
    let fields = vec![field(
        "inner",
        true,
        2,
        Resolved::Object(vec![field(
            "nonNullableField",
            true,
            10,
            Resolved::Object(vec![nullable_error_field(29)]),
        )]),
    )];
    let (result, errs) = execute_fields(&fields);
    assert_eq!(
        result,
        object(vec![(
            "inner",
            object(vec![("nonNullableField", object(vec![("nullableErrorField", Value::Null)]))])
        )])
    );
    assert_eq!(
        errs,
        vec![error(
            29,
            &["inner", "nonNullableField", "nullableErrorField"],
            "Error for nullableErrorField"
        )]
    );
}

fn five_inners(non_null_items: bool) -> Resolved {
    Resolved::List(
        non_null_items,
        (0..5).map(|_| Resolved::Object(vec![non_nullable_error_field(19)])).collect(),
    )
}

#[test]
fn non_null_list() {
    // { inners { nonNullableErrorField } }: every item is completed, so each
    // of the five raises its error before the null reaches the root.
    let fields = vec![field("inners", true, 2, Resolved::List(
        true,
        (0..5).map(|_| Resolved::Object(vec![non_nullable_error_field(11)])).collect(),
    ))];
    let (result, errs) = execute_fields(&fields);
    assert_eq!(result, Value::Null);
    let one = error(11, &["inners", "nonNullableErrorField"], "Error for nonNullableErrorField");
    assert_eq!(errs.len(), 5);
    assert!(errs.iter().all(|e| *e == one));
}

#[test]
fn non_null_list_of_nullable() {
    // { nullableInners { nonNullableErrorField } }
    let fields = vec![field("nullableInners", true, 2, five_inners(false))];
    let (result, errs) = execute_fields(&fields);
    assert_eq!(
        result,
        object(vec![(
            "nullableInners",
            Value::List(vec![Value::Null, Value::Null, Value::Null, Value::Null, Value::Null])
        )])
    );
    let one = error(19, &["nullableInners", "nonNullableErrorField"], "Error for nonNullableErrorField");
    assert_eq!(errs, vec![
        error(19, &["nullableInners", "nonNullableErrorField"], "Error for nonNullableErrorField"),
        error(19, &["nullableInners", "nonNullableErrorField"], "Error for nonNullableErrorField"),
        error(19, &["nullableInners", "nonNullableErrorField"], "Error for nonNullableErrorField"),
        error(19, &["nullableInners", "nonNullableErrorField"], "Error for nonNullableErrorField"),
        one,
    ]);
}

#[test]
fn null_in_non_null_position_is_an_error() {
    let fields = vec![
        field("a", false, 2, Resolved::Object(vec![field("b", true, 6, Resolved::Null)])),
        field("c", false, 12, Resolved::Null),
    ];
    let (result, errs) = execute_fields(&fields);
    assert_eq!(result, object(vec![("a", Value::Null), ("c", Value::Null)]));
    assert_eq!(errs, vec![error(6, &["a", "b"], "Cannot return null for non-nullable field")]);
}

#[test]
fn siblings_still_run_after_a_failed_field() {
    let fields = vec![
        field("x", true, 2, Resolved::Failed("first".to_string())),
        field("y", true, 5, Resolved::Leaf(Scalar::Int(7))),
        field("z", false, 8, Resolved::Failed("second".to_string())),
    ];
    let (result, errs) = execute_fields(&fields);
    assert_eq!(result, Value::Null);
    assert_eq!(errs, vec![error(2, &["x"], "first"), error(8, &["z"], "second")]);
}

#[test]
fn leaves_and_lists_complete_in_order() {
    // { a, b, x: c, list }
    let fields = vec![
        field("a", false, 2, Resolved::Leaf(Scalar::String("Apple".to_string()))),
        field("b", true, 5, Resolved::Leaf(Scalar::Boolean(true))),
        field("x", false, 8, Resolved::Leaf(Scalar::Int(-3))),
        field("list", false, 14, Resolved::List(false, vec![
            Resolved::Leaf(Scalar::String("Contrived".to_string())),
            Resolved::Null,
            Resolved::Leaf(Scalar::String("Confusing".to_string())),
        ])),
    ];
    let (result, errs) = execute_fields(&fields);
    assert!(errs.is_empty());
    assert_eq!(
        result,
        object(vec![
            ("a", Value::String("Apple".to_string())),
            ("b", Value::Boolean(true)),
            ("x", Value::Int(-3)),
            ("list", Value::List(vec![
                Value::String("Contrived".to_string()),
                Value::Null,
                Value::String("Confusing".to_string()),
            ])),
        ])
    );
}

#[test]
fn empty_selection_gives_empty_object() {
    let (result, errs) = execute_fields(&vec![]);
    assert_eq!(result, Value::Object(vec![]));
    assert!(errs.is_empty());
}
