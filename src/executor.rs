use vstd::prelude::*;

use crate::ast::{Definition, Operation};
use crate::position::Spanning;
use crate::validation::RuleError;

verus! {

/// Why a request fails before any field is executed.
#[derive(Debug, PartialEq, Eq)]
pub enum GraphQLError {
    ParseError,
    ValidationError(Vec<RuleError>),
    VariableError,
    NoOperationProvided,
    MultipleOperationsProvided,
    UnknownOperationName,
}

/// The operations of a document, in source order.
pub open spec fn operations(doc: Seq<Definition>) -> Seq<Spanning<Operation>>
    decreases doc.len(),
{
    if doc.len() == 0 {
        Seq::empty()
    } else {
        operations(doc.drop_last()) + match doc.last() {
            Definition::Operation(op) => seq![op],
            Definition::Fragment(_) => Seq::empty(),
        }
    }
}

/// Whether an operation carries this name.
pub open spec fn has_name(op: Spanning<Operation>, name: Seq<char>) -> bool {
    match op.item.name {
        Some(n) => n.item@ == name,
        None => false,
    }
}

/// The first operation of `ops` that carries this name.
pub open spec fn first_named(ops: Seq<Spanning<Operation>>, name: Seq<char>) -> Option<int>
    decreases ops.len(),
{
    if ops.len() == 0 {
        None
    } else {
        match first_named(ops.drop_last(), name) {
            Some(k) => Some(k),
            None => if has_name(ops.last(), name) {
                Some(ops.len() - 1)
            } else {
                None
            },
        }
    }
}

/// Which operation a request runs: the only one, whatever name is asked for;
/// among several, the first that carries the asked name.
pub open spec fn chosen_operation(doc: Seq<Definition>, name: Option<Seq<char>>) -> Result<
    Spanning<Operation>,
    GraphQLError,
> {
    let ops = operations(doc);
    if ops.len() == 0 {
        Err(GraphQLError::NoOperationProvided)
    } else if ops.len() == 1 {
        Ok(ops[0])
    } else {
        match name {
            None => Err(GraphQLError::MultipleOperationsProvided),
            Some(n) => match first_named(ops, n) {
                Some(k) => Ok(ops[k]),
                None => Err(GraphQLError::UnknownOperationName),
            },
        }
    }
}

proof fn lemma_operations_len(doc: Seq<Definition>)
    ensures
        operations(doc).len() <= doc.len(),
    decreases doc.len(),
{
    if doc.len() > 0 {
        lemma_operations_len(doc.drop_last());
    }
}

proof fn lemma_first_named(ops: Seq<Spanning<Operation>>, name: Seq<char>)
    ensures
        match first_named(ops, name) {
            Some(k) => 0 <= k < ops.len() && has_name(ops[k], name) && forall|j: int|
                0 <= j < k ==> !has_name(#[trigger] ops[j], name),
            None => forall|j: int| 0 <= j < ops.len() ==> !has_name(#[trigger] ops[j], name),
        },
    decreases ops.len(),
{
    if ops.len() > 0 {
        let p = ops.drop_last();
        lemma_first_named(p, name);
        assert forall|j: int| 0 <= j < p.len() implies #[trigger] ops[j] == p[j] by {}
        match first_named(p, name) {
            Some(k) => {
                assert(ops[k] == p[k]);
                assert forall|j: int| 0 <= j < k implies !has_name(#[trigger] ops[j], name) by {
                    assert(ops[j] == p[j]);
                }
            },
            None => {
                assert forall|j: int| 0 <= j < p.len() implies !has_name(#[trigger] ops[j], name) by {
                    assert(ops[j] == p[j]);
                }
            },
        }
    }
}

/// The view of an optional name.
pub open spec fn name_view(name: Option<&str>) -> Option<Seq<char>> {
    match name {
        Some(n) => Some(n@),
        None => None,
    }
}

/// Picks the operation a request runs.
pub fn get_operation<'a>(doc: &'a Vec<Definition>, operation_name: Option<&str>) -> (r: Result<
    &'a Spanning<Operation>,
    GraphQLError,
>)
    ensures
        match r {
            Ok(op) => chosen_operation(doc@, name_view(operation_name)) == Ok::<
                Spanning<Operation>,
                GraphQLError,
            >(*op),
            Err(e) => chosen_operation(doc@, name_view(operation_name)) == Err::<
                Spanning<Operation>,
                GraphQLError,
            >(e),
        },
{
    let wanted: Option<String> = match operation_name {
        Some(n) => Some(String::from_str(n)),
        None => None,
    };
    let mut count: usize = 0;
    let mut first: Option<&Spanning<Operation>> = None;
    let mut named: Option<&Spanning<Operation>> = None;
    let mut i: usize = 0;
    while i < doc.len()
        invariant
            i <= doc@.len(),
            count == operations(doc@.subrange(0, i as int)).len(),
            count == 0 ==> first is None,
            count > 0 ==> (first matches Some(o) && *o == operations(doc@.subrange(0, i as int))[0]),
            match wanted {
                Some(n) => match first_named(operations(doc@.subrange(0, i as int)), n@) {
                    Some(k) => (named matches Some(o) && *o == operations(
                        doc@.subrange(0, i as int),
                    )[k]),
                    None => named is None,
                },
                None => true,
            },
            name_view(operation_name) == match wanted {
                Some(n) => Some(n@),
                None => None::<Seq<char>>,
            },
        decreases doc@.len() - i,
    {
        let ghost prev = operations(doc@.subrange(0, i as int));
        proof {
            lemma_operations_len(doc@.subrange(0, i as int));
            if let Some(n) = &wanted {
                lemma_first_named(prev, n@);
            }
            assert(doc@.subrange(0, i + 1).drop_last() =~= doc@.subrange(0, i as int));
        }
        match &doc[i] {
            Definition::Operation(op) => {
                let ghost next = operations(doc@.subrange(0, i + 1));
                assert(next == prev.push(*op));
                if count == 0 {
                    first = Some(op);
                }
                count = count + 1;
                match &wanted {
                    Some(n) => {
                        assert(next.drop_last() =~= prev);
                        assert(next.last() == *op);
                        if named.is_none() {
                            let is_match = match &op.item.name {
                                Some(on) => on.item == *n,
                                None => false,
                            };
                            if is_match {
                                named = Some(op);
                            }
                            assert(is_match == has_name(*op, n@));
                        }
                    },
                    None => {},
                }
            },
            Definition::Fragment(_) => {
                assert(operations(doc@.subrange(0, i + 1)) =~= prev);
            },
        }
        i = i + 1;
    }
    assert(doc@.subrange(0, doc@.len() as int) =~= doc@);
    if count == 0 {
        Err(GraphQLError::NoOperationProvided)
    } else if count == 1 {
        match first {
            Some(op) => Ok(op),
            None => Err(GraphQLError::NoOperationProvided),
        }
    } else {
        match wanted {
            None => Err(GraphQLError::MultipleOperationsProvided),
            Some(_) => match named {
                Some(op) => Ok(op),
                None => Err(GraphQLError::UnknownOperationName),
            },
        }
    }
}

} // verus!
