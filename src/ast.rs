use vstd::prelude::*;

use crate::position::Spanning;

verus! {

broadcast use {
    vstd::seq::axiom_seq_index_decreases,
    vstd::seq::axiom_seq_subrange_decreases,
    vstd::std_specs::vec::axiom_vec_decreases_to_view,
};

/// `...Name`: a use of a named fragment.
#[derive(Clone, Debug, PartialEq, Eq)]
pub struct FragmentSpread {
    pub name: Spanning<String>,
}

/// `... on Type { ... }` or `... { ... }`.
#[derive(Debug, PartialEq, Eq)]
pub struct InlineFragment {
    pub type_condition: Option<Spanning<String>>,
    pub selection_set: Vec<Selection>,
}

/// `alias: name { ... }`.
#[derive(Debug, PartialEq, Eq)]
pub struct Field {
    pub alias: Option<Spanning<String>>,
    pub name: Spanning<String>,
    pub selection_set: Option<Vec<Selection>>,
}

#[derive(Debug, PartialEq, Eq)]
pub enum Selection {
    Field(Spanning<Field>),
    FragmentSpread(Spanning<FragmentSpread>),
    InlineFragment(Spanning<InlineFragment>),
}

#[derive(Clone, Copy, Debug, PartialEq, Eq, Structural)]
pub enum OperationType {
    Query,
    Mutation,
}

#[derive(Debug, PartialEq, Eq)]
pub struct Operation {
    pub operation_type: OperationType,
    pub name: Option<Spanning<String>>,
    pub selection_set: Vec<Selection>,
}

/// `fragment Name on Type { ... }`.
#[derive(Debug, PartialEq, Eq)]
pub struct Fragment {
    pub name: Spanning<String>,
    pub type_condition: Spanning<String>,
    pub selection_set: Vec<Selection>,
}

#[derive(Debug, PartialEq, Eq)]
pub enum Definition {
    Operation(Spanning<Operation>),
    Fragment(Spanning<Fragment>),
}

/// The fragment spreads of a selection set, depth first, in source order.
pub open spec fn spreads_in(ss: Seq<Selection>) -> Seq<Spanning<FragmentSpread>>
    decreases ss,
{
    if ss.len() == 0 {
        Seq::empty()
    } else {
        let rest = ss.subrange(1, ss.len() as int);
        let head = match ss[0] {
            Selection::Field(f) => match f.item.selection_set {
                Some(inner) => spreads_in(inner@),
                None => Seq::empty(),
            },
            Selection::FragmentSpread(s) => seq![s],
            Selection::InlineFragment(i) => spreads_in(i.item.selection_set@),
        };
        head + spreads_in(rest)
    }
}

/// The fragment spreads of a whole document, definition by definition.
pub open spec fn document_spreads(doc: Seq<Definition>) -> Seq<Spanning<FragmentSpread>>
    decreases doc.len(),
{
    if doc.len() == 0 {
        Seq::empty()
    } else {
        let head = match doc[0] {
            Definition::Operation(op) => spreads_in(op.item.selection_set@),
            Definition::Fragment(f) => spreads_in(f.item.selection_set@),
        };
        head + document_spreads(doc.subrange(1, doc.len() as int))
    }
}

/// The names of the fragments a document declares, in source order.
pub open spec fn declared_fragments(doc: Seq<Definition>) -> Seq<Seq<char>>
    decreases doc.len(),
{
    if doc.len() == 0 {
        Seq::empty()
    } else {
        let head = match doc[0] {
            Definition::Operation(_) => Seq::empty(),
            Definition::Fragment(f) => seq![f.item.name.item@],
        };
        head + declared_fragments(doc.subrange(1, doc.len() as int))
    }
}

/// The selection set at the top of a definition.
pub open spec fn definition_selections(d: Definition) -> Seq<Selection> {
    match d {
        Definition::Operation(op) => op.item.selection_set@,
        Definition::Fragment(f) => f.item.selection_set@,
    }
}

pub proof fn lemma_document_spreads_push(doc: Seq<Definition>, d: Definition)
    ensures
        document_spreads(doc.push(d)) == document_spreads(doc) + spreads_in(
            definition_selections(d),
        ),
    decreases doc.len(),
{
    let p = doc.push(d);
    if doc.len() == 0 {
        assert(p.subrange(1, 1) =~= Seq::<Definition>::empty());
        reveal_with_fuel(document_spreads, 2);
        assert(document_spreads(p) =~= document_spreads(doc) + spreads_in(
            definition_selections(d),
        ));
    } else {
        let rest = doc.subrange(1, doc.len() as int);
        lemma_document_spreads_push(rest, d);
        assert(p.subrange(1, p.len() as int) =~= rest.push(d));
        assert(document_spreads(p) =~= document_spreads(doc) + spreads_in(
            definition_selections(d),
        ));
    }
}

/// Copies out the names of the fragments a document declares, in source order.
pub fn fragment_names(doc: &Vec<Definition>) -> (r: Vec<String>)
    ensures
        r@.map_values(|s: String| s@) == declared_fragments(doc@),
{
    let mut r: Vec<String> = Vec::new();
    let mut i: usize = 0;
    while i < doc.len()
        invariant
            i <= doc@.len(),
            r@.map_values(|s: String| s@) == declared_fragments(doc@.subrange(0, i as int)),
        decreases doc@.len() - i,
    {
        proof {
            lemma_declared_fragments_push(doc@.subrange(0, i as int), doc@[i as int]);
            assert(doc@.subrange(0, i as int).push(doc@[i as int]) =~= doc@.subrange(0, i + 1));
        }
        match &doc[i] {
            Definition::Operation(_) => {},
            Definition::Fragment(f) => {
                r.push(f.item.name.item.clone());
            },
        }
        assert(r@.map_values(|s: String| s@) =~= declared_fragments(doc@.subrange(0, i + 1)));
        i = i + 1;
    }
    assert(doc@.subrange(0, doc@.len() as int) =~= doc@);
    r
}

proof fn lemma_declared_fragments_push(doc: Seq<Definition>, d: Definition)
    ensures
        declared_fragments(doc.push(d)) == declared_fragments(doc) + match d {
            Definition::Operation(_) => Seq::<Seq<char>>::empty(),
            Definition::Fragment(f) => seq![f.item.name.item@],
        },
    decreases doc.len(),
{
    let p = doc.push(d);
    if doc.len() == 0 {
        assert(p.subrange(1, 1) =~= Seq::<Definition>::empty());
        reveal_with_fuel(declared_fragments, 2);
        assert(declared_fragments(p) =~= declared_fragments(doc) + match d {
            Definition::Operation(_) => Seq::<Seq<char>>::empty(),
            Definition::Fragment(f) => seq![f.item.name.item@],
        });
    } else {
        let rest = doc.subrange(1, doc.len() as int);
        lemma_declared_fragments_push(rest, d);
        assert(p.subrange(1, p.len() as int) =~= rest.push(d));
        assert(declared_fragments(p) =~= declared_fragments(doc) + match d {
            Definition::Operation(_) => Seq::<Seq<char>>::empty(),
            Definition::Fragment(f) => seq![f.item.name.item@],
        });
    }
}

} // verus!
