use juniper::coercion::{coerce_list, coerce_value, InputType, InputValue};

fn non_null(t: InputType) -> InputType {
    InputType::NonNull(Box::new(t))
}

fn list(t: InputType) -> InputType {
    InputType::List(Box::new(t))
}

fn s(text: &str) -> InputValue {
    InputValue::String(text.to_string())
}

#[test]
fn scalars_keep_their_value() {
    assert_eq!(coerce_value(&InputType::Int, &InputValue::Int(100)), Some(InputValue::Int(100)));
    assert_eq!(coerce_value(&InputType::String, &s("x")), Some(s("x")));
    assert_eq!(coerce_value(&InputType::Boolean, &InputValue::Boolean(false)), Some(InputValue::Boolean(false)));
}

#[test]
fn wrong_shape_does_not_fit() {
    assert_eq!(coerce_value(&InputType::Int, &s("100")), None);
    assert_eq!(coerce_value(&InputType::Boolean, &InputValue::Int(1)), None);
    assert_eq!(coerce_value(&list(InputType::Int), &InputValue::List(vec![InputValue::Int(1), s("2")])), None);
}

#[test]
fn null_fits_nullable_types_only() {
    assert_eq!(coerce_value(&InputType::Int, &InputValue::Null), Some(InputValue::Null));
    assert_eq!(coerce_value(&list(InputType::Int), &InputValue::Null), Some(InputValue::Null));
    assert_eq!(coerce_value(&non_null(InputType::Int), &InputValue::Null), None);
    assert_eq!(
        coerce_value(&list(non_null(InputType::Int)), &InputValue::List(vec![InputValue::Int(1), InputValue::Null])),
        None
    );
    assert_eq!(
        coerce_value(&list(InputType::Int), &InputValue::List(vec![InputValue::Int(1), InputValue::Null])),
        Some(InputValue::List(vec![InputValue::Int(1), InputValue::Null]))
    );
}

#[test]
fn single_value_becomes_a_list_of_one() {
    assert_eq!(
        coerce_value(&list(non_null(InputType::String)), &s("Apple")),
        Some(InputValue::List(vec![s("Apple")]))
    );
    assert_eq!(
        coerce_value(&list(list(InputType::Int)), &InputValue::Int(3)),
        Some(InputValue::List(vec![InputValue::List(vec![InputValue::Int(3)])]))
    );
}

#[test]
fn coercing_twice_changes_nothing() {
    let ty = list(list(non_null(InputType::Int)));
    let once = coerce_value(&ty, &InputValue::List(vec![InputValue::Int(1), InputValue::List(vec![InputValue::Int(2)])])).unwrap();
    assert_eq!(
        once,
        InputValue::List(vec![
            InputValue::List(vec![InputValue::Int(1)]),
            InputValue::List(vec![InputValue::Int(2)]),
        ])
    );
    assert_eq!(coerce_value(&ty, &once), Some(once));
}

#[test]
fn empty_list_fits_any_list_type() {
    assert_eq!(coerce_list(&non_null(InputType::Int), &vec![]), Some(vec![]));
    assert_eq!(coerce_value(&non_null(list(InputType::Boolean)), &InputValue::List(vec![])), Some(InputValue::List(vec![])));
}
