use vstd::prelude::*;

use crate::position::SourcePosition;
use crate::validation::names_view;
use crate::value::{value_model, Value, ValueModel};

verus! {

broadcast use {
    vstd::seq::axiom_seq_index_decreases,
    vstd::seq::axiom_seq_subrange_decreases,
    vstd::std_specs::vec::axiom_vec_index_decreases,
    vstd::std_specs::vec::axiom_vec_decreases_to_view,
};

/// A leaf value handed back by a resolver.
#[derive(Debug, PartialEq, Eq)]
pub enum Scalar {
    Int(i32),
    String(String),
    Boolean(bool),
}

/// What the resolvers gave for a field, before it is completed against the
/// field's declared type.
#[derive(Debug, PartialEq, Eq)]
pub enum Resolved {
    /// The resolver failed with this message.
    Failed(String),
    /// The resolver gave no value.
    Null,
    Leaf(Scalar),
    /// A list; the flag says whether its items are declared non-null.
    List(bool, Vec<Resolved>),
    /// An object, with its selected fields already resolved, in order.
    Object(Vec<ResolvedField>),
}

/// One selected field: its response key, whether its type is non-null,
/// where it stands in the query, and what its resolver gave.
#[derive(Debug, PartialEq, Eq)]
pub struct ResolvedField {
    pub key: String,
    pub non_null: bool,
    pub location: SourcePosition,
    pub result: Resolved,
}

/// A field error: where the field stands in the query, the response keys
/// from the root to it, and the message.
#[derive(Debug, PartialEq, Eq)]
pub struct ExecutionError {
    pub location: SourcePosition,
    pub path: Vec<String>,
    pub message: String,
}

pub type ErrorModel = (SourcePosition, Seq<Seq<char>>, Seq<char>);

impl View for ExecutionError {
    type V = ErrorModel;

    open spec fn view(&self) -> ErrorModel {
        (self.location, names_view(self.path@), self.message@)
    }
}

pub open spec fn execution_errors_view(errs: Seq<ExecutionError>) -> Seq<ErrorModel> {
    errs.map_values(|e: ExecutionError| e@)
}

/// `Cannot return null for non-nullable field`.
pub open spec fn null_message() -> Seq<char> {
    seq![
        'C', 'a', 'n', 'n', 'o', 't', ' ', 'r', 'e', 't', 'u', 'r', 'n', ' ', 'n', 'u', 'l', 'l',
        ' ', 'f', 'o', 'r', ' ', 'n', 'o', 'n', '-', 'n', 'u', 'l', 'l', 'a', 'b', 'l', 'e', ' ',
        'f', 'i', 'e', 'l', 'd',
    ]
}

pub open spec fn scalar_model(s: Scalar) -> ValueModel {
    match s {
        Scalar::Int(i) => ValueModel::Int(i),
        Scalar::String(t) => ValueModel::String(t@),
        Scalar::Boolean(b) => ValueModel::Boolean(b),
    }
}

/// A null at a position of this nullability: it stays there if the position
/// is nullable, and goes up (`None`) if it is not.
pub open spec fn null_at(non_null: bool) -> Option<ValueModel> {
    if non_null {
        None
    } else {
        Some(ValueModel::Null)
    }
}

/// Completes what a resolver gave against the declared nullability.
/// `None` is a null that must go on to the enclosing position.
pub open spec fn complete(
    r: Resolved,
    path: Seq<Seq<char>>,
    loc: SourcePosition,
    non_null: bool,
) -> (Option<ValueModel>, Seq<ErrorModel>)
    decreases r,
{
    match r {
        Resolved::Failed(m) => (null_at(non_null), seq![(loc, path, m@)]),
        Resolved::Null => if non_null {
            (None, seq![(loc, path, null_message())])
        } else {
            (Some(ValueModel::Null), Seq::empty())
        },
        Resolved::Leaf(s) => (Some(scalar_model(s)), Seq::empty()),
        Resolved::List(item_non_null, items) => {
            let (vs, es) = complete_items(items@, path, loc, item_non_null);
            (
                match vs {
                    Some(s) => Some(ValueModel::List(s)),
                    None => null_at(non_null),
                },
                es,
            )
        },
        Resolved::Object(fields) => {
            let (fs, es) = complete_fields(fields@, path);
            (
                match fs {
                    Some(s) => Some(ValueModel::Object(s)),
                    None => null_at(non_null),
                },
                es,
            )
        },
    }
}

/// Completes the items of a list, each at the list's own path: every item is
/// completed; the list is a null that goes up if one item is.
pub open spec fn complete_items(
    items: Seq<Resolved>,
    path: Seq<Seq<char>>,
    loc: SourcePosition,
    non_null: bool,
) -> (Option<Seq<ValueModel>>, Seq<ErrorModel>)
    decreases items,
{
    if items.len() == 0 {
        (Some(Seq::empty()), Seq::empty())
    } else {
        let (pv, pe) = complete_items(items.subrange(0, items.len() - 1), path, loc, non_null);
        let (v, e) = complete(items[items.len() - 1], path, loc, non_null);
        (
            match (pv, v) {
                (Some(p), Some(x)) => Some(p.push(x)),
                _ => None,
            },
            pe + e,
        )
    }
}

/// Completes the fields of an object, each under its own key: every field is
/// completed; the object is a null that goes up if one field is.
pub open spec fn complete_fields(fields: Seq<ResolvedField>, path: Seq<Seq<char>>) -> (Option<
    Seq<(Seq<char>, ValueModel)>,
>, Seq<ErrorModel>)
    decreases fields,
{
    if fields.len() == 0 {
        (Some(Seq::empty()), Seq::empty())
    } else {
        let f = fields[fields.len() - 1];
        let (pv, pe) = complete_fields(fields.subrange(0, fields.len() - 1), path);
        let (v, e) = complete(f.result, path.push(f.key@), f.location, f.non_null);
        (
            match (pv, v) {
                (Some(p), Some(x)) => Some(p.push((f.key@, x))),
                _ => None,
            },
            pe + e,
        )
    }
}

pub open spec fn values_model(s: Seq<Value>) -> Seq<ValueModel> {
    Seq::new(s.len(), |i: int| value_model(s[i]))
}

pub open spec fn entries_model(s: Seq<(String, Value)>) -> Seq<(Seq<char>, ValueModel)> {
    Seq::new(s.len(), |i: int| (s[i].0@, value_model(s[i].1)))
}

pub open spec fn option_model(v: Option<Value>) -> Option<ValueModel> {
    match v {
        Some(x) => Some(value_model(x)),
        None => None,
    }
}

fn scalar_value(s: &Scalar) -> (v: Value)
    ensures
        value_model(v) == scalar_model(*s),
{
    match s {
        Scalar::Int(i) => Value::Int(*i),
        Scalar::String(t) => Value::String(t.clone()),
        Scalar::Boolean(b) => Value::Boolean(*b),
    }
}

fn copy_path(path: &Vec<String>) -> (r: Vec<String>)
    ensures
        names_view(r@) == names_view(path@),
{
    let mut r: Vec<String> = Vec::new();
    let mut i: usize = 0;
    while i < path.len()
        invariant
            i <= path@.len(),
            r@.len() == i,
            forall|j: int| 0 <= j < i ==> #[trigger] r@[j]@ == path@[j]@,
        decreases path@.len() - i,
    {
        let c: String = path[i].clone();
        assert(c@ == path@[i as int]@);
        r.push(c);
        i = i + 1;
    }
    assert(names_view(r@) =~= names_view(path@));
    r
}

fn report(
    errors: &mut Vec<ExecutionError>,
    location: SourcePosition,
    path: &Vec<String>,
    message: String,
)
    ensures
        execution_errors_view(final(errors)@) == execution_errors_view(old(errors)@).push(
            (location, names_view(path@), message@),
        ),
{
    errors.push(ExecutionError { location, path: copy_path(path), message });
    assert(execution_errors_view(errors@) =~= execution_errors_view(old(errors)@).push(
        (location, names_view(path@), message@),
    ));
}

/// Completes what a resolver gave for a field at `path` against the field's
/// nullability, appending the field errors met on the way. `None` is a null
/// that the enclosing position must take over.
pub fn complete_value(
    r: &Resolved,
    path: &Vec<String>,
    location: SourcePosition,
    non_null: bool,
    errors: &mut Vec<ExecutionError>,
) -> (v: Option<Value>)
    ensures
        option_model(v) == complete(*r, names_view(path@), location, non_null).0,
        execution_errors_view(final(errors)@) == execution_errors_view(old(errors)@) + complete(
            *r,
            names_view(path@),
            location,
            non_null,
        ).1,
    decreases r,
{
    let ghost start = execution_errors_view(errors@);
    match r {
        Resolved::Failed(m) => {
            report(errors, location, path, m.clone());
            assert(execution_errors_view(errors@) =~= start + seq![(location, names_view(path@), m@)]);
            if non_null {
                None
            } else {
                Some(Value::Null)
            }
        },
        Resolved::Null => {
            if non_null {
                let message = String::from_str("Cannot return null for non-nullable field");
                proof {
                    reveal_strlit("Cannot return null for non-nullable field");
                    assert(message@ =~= null_message());
                }
                report(errors, location, path, message);
                assert(execution_errors_view(errors@) =~= start + seq![
                    (location, names_view(path@), null_message()),
                ]);
                None
            } else {
                assert(execution_errors_view(errors@) =~= start + Seq::<ErrorModel>::empty());
                Some(Value::Null)
            }
        },
        Resolved::Leaf(s) => {
            assert(execution_errors_view(errors@) =~= start + Seq::<ErrorModel>::empty());
            Some(scalar_value(s))
        },
        Resolved::List(item_non_null, items) => {
            match complete_list(items, path, location, *item_non_null, errors) {
                Some(vs) => {
                    proof {
                        let m = value_model(Value::List(vs));
                        assert(m->List_0 =~= values_model(vs@));
                    }
                    Some(Value::List(vs))
                },
                None => if non_null {
                    None
                } else {
                    Some(Value::Null)
                },
            }
        },
        Resolved::Object(fields) => {
            match complete_object(fields, path, errors) {
                Some(es) => {
                    proof {
                        let m = value_model(Value::Object(es));
                        assert(m->Object_0 =~= entries_model(es@));
                    }
                    Some(Value::Object(es))
                },
                None => if non_null {
                    None
                } else {
                    Some(Value::Null)
                },
            }
        },
    }
}

/// Completes every item of a list at the list's path.
pub fn complete_list(
    items: &Vec<Resolved>,
    path: &Vec<String>,
    location: SourcePosition,
    non_null: bool,
    errors: &mut Vec<ExecutionError>,
) -> (r: Option<Vec<Value>>)
    ensures
        match r {
            Some(vs) => complete_items(items@, names_view(path@), location, non_null).0 == Some(
                values_model(vs@),
            ),
            None => complete_items(items@, names_view(path@), location, non_null).0 is None,
        },
        execution_errors_view(final(errors)@) == execution_errors_view(old(errors)@)
            + complete_items(items@, names_view(path@), location, non_null).1,
    decreases items,
{
    let ghost p = names_view(path@);
    let mut out: Vec<Value> = Vec::new();
    let mut ok = true;
    let mut i: usize = 0;
    while i < items.len()
        invariant
            i <= items@.len(),
            execution_errors_view(errors@) == execution_errors_view(old(errors)@)
                + complete_items(items@.subrange(0, i as int), p, location, non_null).1,
            ok ==> complete_items(items@.subrange(0, i as int), p, location, non_null).0 == Some(
                values_model(out@),
            ),
            !ok ==> complete_items(items@.subrange(0, i as int), p, location, non_null).0 is None,
            p == names_view(path@),
        decreases items@.len() - i,
    {
        let ghost before = execution_errors_view(errors@);
        proof {
            assert(items@.subrange(0, i + 1).subrange(0, i as int) =~= items@.subrange(0, i as int));
            assert(items@.subrange(0, i + 1)[i as int] == items@[i as int]);
        }
        let v = complete_value(&items[i], path, location, non_null, errors);
        match v {
            Some(x) => {
                if ok {
                    let ghost old_out = out@;
                    out.push(x);
                    assert(values_model(out@) =~= values_model(old_out).push(value_model(x)));
                }
            },
            None => {
                ok = false;
            },
        }
        assert(execution_errors_view(errors@) =~= execution_errors_view(old(errors)@)
            + complete_items(items@.subrange(0, i + 1), p, location, non_null).1);
        i = i + 1;
    }
    assert(items@.subrange(0, items@.len() as int) =~= items@);
    if ok {
        Some(out)
    } else {
        None
    }
}

/// Completes every field of an object, each under its own key.
pub fn complete_object(
    fields: &Vec<ResolvedField>,
    path: &Vec<String>,
    errors: &mut Vec<ExecutionError>,
) -> (r: Option<Vec<(String, Value)>>)
    ensures
        match r {
            Some(es) => complete_fields(fields@, names_view(path@)).0 == Some(entries_model(es@)),
            None => complete_fields(fields@, names_view(path@)).0 is None,
        },
        execution_errors_view(final(errors)@) == execution_errors_view(old(errors)@)
            + complete_fields(fields@, names_view(path@)).1,
    decreases fields,
{
    let ghost p = names_view(path@);
    let mut out: Vec<(String, Value)> = Vec::new();
    let mut ok = true;
    let mut i: usize = 0;
    while i < fields.len()
        invariant
            i <= fields@.len(),
            execution_errors_view(errors@) == execution_errors_view(old(errors)@)
                + complete_fields(fields@.subrange(0, i as int), p).1,
            ok ==> complete_fields(fields@.subrange(0, i as int), p).0 == Some(
                entries_model(out@),
            ),
            !ok ==> complete_fields(fields@.subrange(0, i as int), p).0 is None,
            p == names_view(path@),
        decreases fields@.len() - i,
    {
        let f = &fields[i];
        proof {
            assert(fields@.subrange(0, i + 1).subrange(0, i as int) =~= fields@.subrange(
                0,
                i as int,
            ));
            assert(fields@.subrange(0, i + 1)[i as int] == fields@[i as int]);
        }
        let mut sub = copy_path(path);
        sub.push(f.key.clone());
        assert(names_view(sub@) =~= p.push(f.key@));
        let v = complete_value(&f.result, &sub, f.location, f.non_null, errors);
        match v {
            Some(x) => {
                if ok {
                    let ghost old_out = out@;
                    out.push((f.key.clone(), x));
                    assert(entries_model(out@) =~= entries_model(old_out).push(
                        (f.key@, value_model(x)),
                    ));
                }
            },
            None => {
                ok = false;
            },
        }
        assert(execution_errors_view(errors@) =~= execution_errors_view(old(errors)@)
            + complete_fields(fields@.subrange(0, i + 1), p).1);
        i = i + 1;
    }
    assert(fields@.subrange(0, fields@.len() as int) =~= fields@);
    if ok {
        Some(out)
    } else {
        None
    }
}

/// The response to a root selection: its fields as an object, or null where
/// a null went up past every field.
pub open spec fn response(fields: Seq<ResolvedField>) -> ValueModel {
    match complete_fields(fields, Seq::empty()).0 {
        Some(s) => ValueModel::Object(s),
        None => ValueModel::Null,
    }
}

/// Completes the fields of the root selection: the response value and the
/// field errors, in the order the fields were evaluated.
pub fn execute_fields(fields: &Vec<ResolvedField>) -> (r: (Value, Vec<ExecutionError>))
    ensures
        value_model(r.0) == response(fields@),
        execution_errors_view(r.1@) == complete_fields(fields@, Seq::empty()).1,
{
    let mut errors: Vec<ExecutionError> = Vec::new();
    let root: Vec<String> = Vec::new();
    assert(names_view(root@) =~= Seq::<Seq<char>>::empty());
    let value = match complete_object(fields, &root, &mut errors) {
        Some(es) => {
            proof {
                let m = value_model(Value::Object(es));
                assert(m->Object_0 =~= entries_model(es@));
            }
            Value::Object(es)
        },
        None => Value::Null,
    };
    assert(execution_errors_view(errors@) =~= complete_fields(fields@, Seq::empty()).1);
    (value, errors)
}

/// A response is null only together with at least one field error.
pub proof fn lemma_null_response_has_error(fields: Seq<ResolvedField>)
    ensures
        response(fields) == ValueModel::Null ==> complete_fields(fields, Seq::empty()).1.len() > 0,
{
    lemma_complete_fields(fields, Seq::empty());
}

/// What holds of every completion at `path`: each field error it raises lies
/// at `path` or below it; a null handed up comes with at least one error; and
/// a non-null position is never left holding null.
pub proof fn lemma_complete(r: Resolved, path: Seq<Seq<char>>, loc: SourcePosition, non_null: bool)
    ensures
        forall|k: int|
            0 <= k < complete(r, path, loc, non_null).1.len() ==> path.is_prefix_of(
                #[trigger] complete(r, path, loc, non_null).1[k].1,
            ),
        complete(r, path, loc, non_null).0 is None ==> complete(r, path, loc, non_null).1.len()
            > 0,
        non_null ==> complete(r, path, loc, non_null).0 != Some(ValueModel::Null),
    decreases r,
{
    match r {
        Resolved::Failed(_) => {
            assert(path.is_prefix_of(path));
        },
        Resolved::Null => {
            assert(path.is_prefix_of(path));
        },
        Resolved::Leaf(s) => {},
        Resolved::List(item_non_null, items) => {
            lemma_complete_items(items@, path, loc, item_non_null);
        },
        Resolved::Object(fields) => {
            lemma_complete_fields(fields@, path);
        },
    }
}

/// Every error from completing a list's items lies at the list's path or
/// below, and a null handed up comes with at least one error.
pub proof fn lemma_complete_items(
    items: Seq<Resolved>,
    path: Seq<Seq<char>>,
    loc: SourcePosition,
    non_null: bool,
)
    ensures
        forall|k: int|
            0 <= k < complete_items(items, path, loc, non_null).1.len() ==> path.is_prefix_of(
                #[trigger] complete_items(items, path, loc, non_null).1[k].1,
            ),
        complete_items(items, path, loc, non_null).0 is None ==> complete_items(
            items,
            path,
            loc,
            non_null,
        ).1.len() > 0,
    decreases items,
{
    if items.len() > 0 {
        let prev = items.subrange(0, items.len() - 1);
        lemma_complete_items(prev, path, loc, non_null);
        lemma_complete(items[items.len() - 1], path, loc, non_null);
        let pe = complete_items(prev, path, loc, non_null).1;
        let e = complete(items[items.len() - 1], path, loc, non_null).1;
        let all = complete_items(items, path, loc, non_null).1;
        assert(all == pe + e);
        assert forall|k: int| 0 <= k < all.len() implies path.is_prefix_of(#[trigger] all[k].1) by {
            if k < pe.len() {
                assert(all[k] == pe[k]);
            } else {
                assert(all[k] == e[k - pe.len()]);
            }
        }
    }
}

/// Every error from completing an object's fields lies at the object's path
/// or below, and a null handed up comes with at least one error.
pub proof fn lemma_complete_fields(fields: Seq<ResolvedField>, path: Seq<Seq<char>>)
    ensures
        forall|k: int|
            0 <= k < complete_fields(fields, path).1.len() ==> path.is_prefix_of(
                #[trigger] complete_fields(fields, path).1[k].1,
            ),
        complete_fields(fields, path).0 is None ==> complete_fields(fields, path).1.len() > 0,
    decreases fields,
{
    if fields.len() > 0 {
        let f = fields[fields.len() - 1];
        let sub = path.push(f.key@);
        let prev = fields.subrange(0, fields.len() - 1);
        lemma_complete_fields(prev, path);
        lemma_complete(f.result, sub, f.location, f.non_null);
        let pe = complete_fields(prev, path).1;
        let e = complete(f.result, sub, f.location, f.non_null).1;
        let all = complete_fields(fields, path).1;
        assert(all == pe + e);
        assert forall|k: int| 0 <= k < all.len() implies path.is_prefix_of(#[trigger] all[k].1) by {
            if k < pe.len() {
                assert(all[k] == pe[k]);
            } else {
                let q = all[k].1;
                assert(all[k] == e[k - pe.len()]);
                assert(sub.is_prefix_of(q));
                assert(q.subrange(0, path.len() as int) =~= sub.subrange(0, path.len() as int));
                assert(sub.subrange(0, path.len() as int) =~= path);
            }
        }
    }
}

} // verus!
