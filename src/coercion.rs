use vstd::prelude::*;

verus! {

broadcast use {
    vstd::seq::axiom_seq_index_decreases,
    vstd::seq::axiom_seq_subrange_decreases,
    vstd::std_specs::vec::axiom_vec_index_decreases,
    vstd::std_specs::vec::axiom_vec_decreases_to_view,
};

/// The declared type of an argument or variable.
#[derive(Debug, PartialEq, Eq)]
pub enum InputType {
    Int,
    String,
    Boolean,
    NonNull(Box<InputType>),
    List(Box<InputType>),
}

/// A literal input value.
#[derive(Debug, PartialEq, Eq)]
pub enum InputValue {
    Null,
    Int(i32),
    String(String),
    Boolean(bool),
    List(Vec<InputValue>),
}

/// The mathematical value of an input value.
pub enum InputModel {
    Null,
    Int(i32),
    String(Seq<char>),
    Boolean(bool),
    List(Seq<InputModel>),
}

pub open spec fn input_model(v: InputValue) -> InputModel
    decreases v,
{
    match v {
        InputValue::Null => InputModel::Null,
        InputValue::Int(i) => InputModel::Int(i),
        InputValue::String(s) => InputModel::String(s@),
        InputValue::Boolean(b) => InputModel::Boolean(b),
        InputValue::List(items) => InputModel::List(
            Seq::new(
                items@.len(),
                |i: int|
                    if 0 <= i < items@.len() {
                        input_model(items@[i])
                    } else {
                        InputModel::Null
                    },
            ),
        ),
    }
}

pub open spec fn inputs_model(s: Seq<InputValue>) -> Seq<InputModel> {
    Seq::new(s.len(), |i: int| input_model(s[i]))
}

/// Coerces a value to a type, or `None` where its shape does not fit: null
/// fits every nullable type; a list type takes a list item by item, and any
/// other value as a list of that one item.
pub open spec fn coerce(ty: InputType, v: InputModel) -> Option<InputModel>
    decreases ty, 0nat,
{
    match ty {
        InputType::NonNull(inner) => match v {
            InputModel::Null => None,
            _ => coerce(*inner, v),
        },
        InputType::List(inner) => match v {
            InputModel::Null => Some(InputModel::Null),
            InputModel::List(items) => match coerce_items(*inner, items) {
                Some(cs) => Some(InputModel::List(cs)),
                None => None,
            },
            _ => match coerce(*inner, v) {
                Some(c) => Some(InputModel::List(seq![c])),
                None => None,
            },
        },
        InputType::Int => match v {
            InputModel::Null => Some(InputModel::Null),
            InputModel::Int(i) => Some(InputModel::Int(i)),
            _ => None,
        },
        InputType::String => match v {
            InputModel::Null => Some(InputModel::Null),
            InputModel::String(s) => Some(InputModel::String(s)),
            _ => None,
        },
        InputType::Boolean => match v {
            InputModel::Null => Some(InputModel::Null),
            InputModel::Boolean(b) => Some(InputModel::Boolean(b)),
            _ => None,
        },
    }
}

/// Coerces each item of a list to the item type; `None` if one does not fit.
pub open spec fn coerce_items(ty: InputType, items: Seq<InputModel>) -> Option<Seq<InputModel>>
    decreases ty, items.len() + 1,
{
    if items.len() == 0 {
        Some(Seq::empty())
    } else {
        match (
            coerce_items(ty, items.subrange(0, items.len() - 1)),
            coerce(ty, items[items.len() - 1]),
        ) {
            (Some(p), Some(c)) => Some(p.push(c)),
            _ => None,
        }
    }
}

pub open spec fn option_input_model(v: Option<InputValue>) -> Option<InputModel> {
    match v {
        Some(x) => Some(input_model(x)),
        None => None,
    }
}

/// Coerces a literal value to a declared type; `None` where it does not fit.
pub fn coerce_value(ty: &InputType, v: &InputValue) -> (r: Option<InputValue>)
    ensures
        option_input_model(r) == coerce(*ty, input_model(*v)),
    decreases ty, 0nat,
{
    match ty {
        InputType::NonNull(inner) => match v {
            InputValue::Null => None,
            _ => coerce_value(inner, v),
        },
        InputType::List(inner) => match v {
            InputValue::Null => Some(InputValue::Null),
            InputValue::List(items) => {
                proof {
                    let m = input_model(*v);
                    assert(m->List_0 =~= inputs_model(items@));
                }
                match coerce_list(inner, items) {
                    Some(cs) => {
                        proof {
                            let m = input_model(InputValue::List(cs));
                            assert(m->List_0 =~= inputs_model(cs@));
                        }
                        Some(InputValue::List(cs))
                    },
                    None => None,
                }
            },
            _ => match coerce_value(inner, v) {
                Some(c) => {
                    let one: Vec<InputValue> = vec![c];
                    proof {
                        let m = input_model(InputValue::List(one));
                        assert(m->List_0 =~= seq![input_model(c)]);
                    }
                    Some(InputValue::List(one))
                },
                None => None,
            },
        },
        InputType::Int => match v {
            InputValue::Null => Some(InputValue::Null),
            InputValue::Int(i) => Some(InputValue::Int(*i)),
            _ => None,
        },
        InputType::String => match v {
            InputValue::Null => Some(InputValue::Null),
            InputValue::String(t) => Some(InputValue::String(t.clone())),
            _ => None,
        },
        InputType::Boolean => match v {
            InputValue::Null => Some(InputValue::Null),
            InputValue::Boolean(b) => Some(InputValue::Boolean(*b)),
            _ => None,
        },
    }
}

/// Coerces each item of a list to the item type; `None` if one does not fit.
pub fn coerce_list(ty: &InputType, items: &Vec<InputValue>) -> (r: Option<Vec<InputValue>>)
    ensures
        match r {
            Some(cs) => coerce_items(*ty, inputs_model(items@)) == Some(inputs_model(cs@)),
            None => coerce_items(*ty, inputs_model(items@)) is None,
        },
    decreases ty, items@.len() + 1,
{
    let ghost m = inputs_model(items@);
    let mut out: Vec<InputValue> = Vec::new();
    let mut i: usize = 0;
    assert(m.subrange(0, 0) =~= Seq::<InputModel>::empty());
    assert(inputs_model(out@) =~= Seq::<InputModel>::empty());
    while i < items.len()
        invariant
            i <= items@.len(),
            m == inputs_model(items@),
            coerce_items(*ty, m.subrange(0, i as int)) == Some(inputs_model(out@)),
        decreases items@.len() - i,
    {
        proof {
            assert(m.subrange(0, i + 1).subrange(0, i as int) =~= m.subrange(0, i as int));
            assert(m.subrange(0, i + 1)[i as int] == input_model(items@[i as int]));
        }
        match coerce_value(ty, &items[i]) {
            Some(c) => {
                let ghost before = out@;
                out.push(c);
                assert(inputs_model(out@) =~= inputs_model(before).push(input_model(c)));
            },
            None => {
                proof {
                    lemma_coerce_items_prefix_none(*ty, m, i as int + 1);
                    assert(m.subrange(0, m.len() as int) =~= m);
                }
                return None;
            },
        }
        i = i + 1;
    }
    assert(m.subrange(0, m.len() as int) =~= m);
    Some(out)
}

/// A list with an item that does not fit does not fit, whatever follows.
proof fn lemma_coerce_items_prefix_none(ty: InputType, items: Seq<InputModel>, n: int)
    requires
        0 <= n <= items.len(),
        coerce_items(ty, items.subrange(0, n)) is None,
    ensures
        coerce_items(ty, items) is None,
    decreases items.len() - n,
{
    if n < items.len() {
        let next = items.subrange(0, n + 1);
        assert(next.subrange(0, n) =~= items.subrange(0, n));
        lemma_coerce_items_prefix_none(ty, items, n + 1);
    } else {
        assert(items.subrange(0, n) =~= items);
    }
}

/// Coercion is idempotent: coercing an already coerced value to the same
/// type gives it back unchanged. Only null coerces to null.
pub proof fn lemma_coerce_idempotent(ty: InputType, v: InputModel)
    ensures
        match coerce(ty, v) {
            Some(w) => coerce(ty, w) == Some(w),
            None => true,
        },
        coerce(ty, v) == Some(InputModel::Null) ==> v == InputModel::Null,
    decreases ty, 0nat,
{
    match ty {
        InputType::NonNull(inner) => {
            lemma_coerce_idempotent(*inner, v);
            let r = coerce(ty, v);
            if r is Some {
                let w = r->Some_0;
                assert(coerce(*inner, v) == Some(w));
                assert(w != InputModel::Null);
                assert(coerce(ty, w) == Some(w));
            }
        },
        InputType::List(inner) => {
            match v {
                InputModel::Null => {},
                InputModel::List(items) => {
                    lemma_coerce_items_idempotent(*inner, items);
                    if let Some(cs) = coerce_items(*inner, items) {
                        assert(coerce(ty, InputModel::List(cs)) == Some(InputModel::List(cs)));
                    }
                },
                _ => {
                    lemma_coerce_idempotent(*inner, v);
                    if let Some(c) = coerce(*inner, v) {
                        let one = seq![c];
                        assert(one.subrange(0, 0) =~= Seq::<InputModel>::empty());
                        assert(coerce_items(*inner, one.subrange(0, 0)) == Some(
                            Seq::<InputModel>::empty(),
                        ));
                        assert(Seq::<InputModel>::empty().push(c) =~= one);
                        assert(coerce(*inner, one[0]) == Some(c));
                        assert(coerce_items(*inner, one) == Some(one));
                        assert(coerce(ty, InputModel::List(one)) == Some(InputModel::List(one)));
                    }
                },
            }
        },
        _ => {},
    }
}

/// Coercing the items of an already coerced list gives them back unchanged.
pub proof fn lemma_coerce_items_idempotent(ty: InputType, items: Seq<InputModel>)
    ensures
        match coerce_items(ty, items) {
            Some(ws) => coerce_items(ty, ws) == Some(ws),
            None => true,
        },
    decreases ty, items.len() + 1,
{
    if items.len() > 0 {
        let prev = items.subrange(0, items.len() - 1);
        lemma_coerce_items_idempotent(ty, prev);
        lemma_coerce_idempotent(ty, items[items.len() - 1]);
        if let Some(ws) = coerce_items(ty, items) {
            let p = coerce_items(ty, prev)->Some_0;
            let c = coerce(ty, items[items.len() - 1])->Some_0;
            assert(ws == p.push(c));
            assert(ws.subrange(0, ws.len() - 1) =~= p);
            assert(ws[ws.len() - 1] == c);
        }
    }
}

} // verus!
