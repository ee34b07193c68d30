use vstd::prelude::*;

use crate::ast::{
    declared_fragments, definition_selections, document_spreads, fragment_names,
    lemma_document_spreads_push, spreads_in, Definition, FragmentSpread, Selection,
};
use crate::position::{SourcePosition, Spanning};
use crate::validation::{errors_view, RuleError, ValidatorContext};

verus! {

broadcast use {
    vstd::seq::axiom_seq_index_decreases,
    vstd::seq::axiom_seq_subrange_decreases,
    vstd::std_specs::vec::axiom_vec_index_decreases,
    vstd::std_specs::vec::axiom_vec_decreases_to_view,
};

/// The rule that every fragment spread names a fragment the document declares.
pub struct KnownFragmentNames {}

pub fn factory() -> (r: KnownFragmentNames)
    ensures
        r == (KnownFragmentNames {}),
{
    KnownFragmentNames {}
}

/// `Unknown fragment: "<name>"`.
pub open spec fn unknown_fragment_message(name: Seq<char>) -> Seq<char> {
    seq![
        'U', 'n', 'k', 'n', 'o', 'w', 'n', ' ', 'f', 'r', 'a', 'g', 'm', 'e', 'n', 't', ':', ' ',
        '"',
    ] + name + seq!['"']
}

/// The errors the rule reports for one spread, given the declared fragment names:
/// none if the name is declared, else one at the start of the name.
pub open spec fn spread_errors(
    known: Seq<Seq<char>>,
    spread: Spanning<FragmentSpread>,
) -> Seq<(Seq<char>, Seq<SourcePosition>)> {
    let name = spread.item.name;
    if known.contains(name.item@) {
        Seq::empty()
    } else {
        seq![(unknown_fragment_message(name.item@), seq![name.start])]
    }
}

/// The errors the rule reports for a sequence of spreads, in order.
pub open spec fn spreads_errors(
    known: Seq<Seq<char>>,
    spreads: Seq<Spanning<FragmentSpread>>,
) -> Seq<(Seq<char>, Seq<SourcePosition>)>
    decreases spreads.len(),
{
    if spreads.len() == 0 {
        Seq::empty()
    } else {
        spreads_errors(known, spreads.drop_last()) + spread_errors(known, spreads.last())
    }
}

pub fn error_message(frag_name: &str) -> (r: String)
    ensures
        r@ == unknown_fragment_message(frag_name@),
{
    let mut r = String::from_str("Unknown fragment: \"");
    r.append(frag_name);
    r.append("\"");
    proof {
        reveal_strlit("Unknown fragment: \"");
        reveal_strlit("\"");
        assert(r@ =~= unknown_fragment_message(frag_name@));
    }
    r
}

impl KnownFragmentNames {
    pub fn enter_fragment_spread(
        &mut self,
        context: &mut ValidatorContext,
        spread: &Spanning<FragmentSpread>,
    )
        ensures
            final(context).fragment_names == old(context).fragment_names,
            final(context).reported() == old(context).reported() + spread_errors(
                old(context).known_fragments(),
                *spread,
            ),
    {
        let spread_name = &spread.item.name;
        if !context.is_known_fragment(&spread_name.item) {
            let locations: [SourcePosition; 1] = [spread_name.start];
            context.report_error(&error_message(spread_name.item.as_str()), &locations);
            proof {
                assert(locations@ =~= seq![spread_name.start]);
            }
        }
        assert(context.reported() =~= old(context).reported() + spread_errors(
            old(context).known_fragments(),
            *spread,
        ));
    }

    /// Runs the rule on every spread of a selection set, depth first, in source order.
    pub fn visit_selection_set(&mut self, context: &mut ValidatorContext, ss: &Vec<Selection>)
        ensures
            final(context).fragment_names == old(context).fragment_names,
            final(context).reported() == old(context).reported() + spreads_errors(
                old(context).known_fragments(),
                spreads_in(ss@),
            ),
        decreases ss,
    {
        let ghost known = context.known_fragments();
        let mut i: usize = 0;
        while i < ss.len()
            invariant
                i <= ss@.len(),
                context.fragment_names == old(context).fragment_names,
                known == context.known_fragments(),
                context.reported() == old(context).reported() + spreads_errors(
                    known,
                    spreads_in(ss@.subrange(0, i as int)),
                ),
            decreases ss@.len() - i,
        {
            let ghost before = context.reported();
            proof {
                assert(ss@.subrange(0, i + 1) =~= ss@.subrange(0, i as int) + seq![ss@[i as int]]);
                lemma_spreads_in_append(ss@.subrange(0, i as int), seq![ss@[i as int]]);
                lemma_spreads_in_single(ss@[i as int]);
            }
            match &ss[i] {
                Selection::Field(f) => {
                    match &f.item.selection_set {
                        Some(inner) => {
                            self.visit_selection_set(context, inner);
                        },
                        None => {},
                    }
                },
                Selection::FragmentSpread(spread) => {
                    self.enter_fragment_spread(context, spread);
                    proof {
                        assert(spreads_errors(known, seq![*spread]) =~= spread_errors(known, *spread)) by {
                            assert(seq![*spread].drop_last() =~= Seq::<Spanning<FragmentSpread>>::empty());
                            reveal_with_fuel(spreads_errors, 2);
                        }
                    }
                },
                Selection::InlineFragment(frag) => {
                    self.visit_selection_set(context, &frag.item.selection_set);
                },
            }
            proof {
                let prev = spreads_in(ss@.subrange(0, i as int));
                let here = spreads_in(seq![ss@[i as int]]);
                lemma_spreads_errors_append(known, prev, here);
                assert(context.reported() =~= old(context).reported() + spreads_errors(
                    known,
                    spreads_in(ss@.subrange(0, i + 1)),
                ));
            }
            i = i + 1;
        }
        assert(ss@.subrange(0, ss@.len() as int) =~= ss@);
    }

    /// Runs the rule on every spread of a document, definition by definition.
    pub fn visit_document(&mut self, context: &mut ValidatorContext, doc: &Vec<Definition>)
        ensures
            final(context).fragment_names == old(context).fragment_names,
            final(context).reported() == old(context).reported() + spreads_errors(
                old(context).known_fragments(),
                document_spreads(doc@),
            ),
    {
        let ghost known = context.known_fragments();
        let mut i: usize = 0;
        while i < doc.len()
            invariant
                i <= doc@.len(),
                context.fragment_names == old(context).fragment_names,
                known == context.known_fragments(),
                context.reported() == old(context).reported() + spreads_errors(
                    known,
                    document_spreads(doc@.subrange(0, i as int)),
                ),
            decreases doc@.len() - i,
        {
            proof {
                lemma_document_spreads_push(doc@.subrange(0, i as int), doc@[i as int]);
                assert(doc@.subrange(0, i as int).push(doc@[i as int]) =~= doc@.subrange(0, i + 1));
                lemma_spreads_errors_append(
                    known,
                    document_spreads(doc@.subrange(0, i as int)),
                    spreads_in(definition_selections(doc@[i as int])),
                );
            }
            match &doc[i] {
                Definition::Operation(op) => self.visit_selection_set(context, &op.item.selection_set),
                Definition::Fragment(f) => self.visit_selection_set(context, &f.item.selection_set),
            }
            assert(context.reported() =~= old(context).reported() + spreads_errors(
                known,
                document_spreads(doc@.subrange(0, i + 1)),
            ));
            i = i + 1;
        }
        assert(doc@.subrange(0, doc@.len() as int) =~= doc@);
    }
}

/// What the rule reports on a document: for each spread, depth first and in
/// source order, whose name no fragment of the document declares, one error
/// `Unknown fragment: "<name>"` at the start of the name.
pub open spec fn document_errors(doc: Seq<Definition>) -> Seq<(Seq<char>, Seq<SourcePosition>)> {
    spreads_errors(declared_fragments(doc), document_spreads(doc))
}

/// Checks that every fragment spread of the document names a declared fragment.
pub fn validate(doc: &Vec<Definition>) -> (r: Vec<RuleError>)
    ensures
        errors_view(r@) == document_errors(doc@),
{
    let mut context = ValidatorContext::new(fragment_names(doc));
    let mut rule = factory();
    rule.visit_document(&mut context, doc);
    assert(context.reported() =~= document_errors(doc@));
    context.into_errors()
}

proof fn lemma_errors_by_declared_set(
    k1: Seq<Seq<char>>,
    k2: Seq<Seq<char>>,
    spreads: Seq<Spanning<FragmentSpread>>,
)
    requires
        forall|n: Seq<char>| k1.contains(n) <==> k2.contains(n),
    ensures
        spreads_errors(k1, spreads) == spreads_errors(k2, spreads),
    decreases spreads.len(),
{
    if spreads.len() > 0 {
        lemma_errors_by_declared_set(k1, k2, spreads.drop_last());
    }
}

/// Validation is a function of what the document holds: two documents with
/// the same spreads, in the same order, and the same declared fragment names,
/// in whatever order they are declared, get the same errors.
pub proof fn lemma_validation_depends_on_content_only(d1: Seq<Definition>, d2: Seq<Definition>)
    requires
        document_spreads(d1) == document_spreads(d2),
        forall|n: Seq<char>|
            declared_fragments(d1).contains(n) <==> declared_fragments(d2).contains(n),
    ensures
        document_errors(d1) == document_errors(d2),
{
    lemma_errors_by_declared_set(declared_fragments(d1), declared_fragments(d2), document_spreads(d1));
}

/// The spreads of one selection.
pub open spec fn selection_spreads(sel: Selection) -> Seq<Spanning<FragmentSpread>> {
    match sel {
        Selection::Field(f) => match f.item.selection_set {
            Some(inner) => spreads_in(inner@),
            None => Seq::empty(),
        },
        Selection::FragmentSpread(s) => seq![s],
        Selection::InlineFragment(i) => spreads_in(i.item.selection_set@),
    }
}

proof fn lemma_spreads_in_single(sel: Selection)
    ensures
        spreads_in(seq![sel]) == selection_spreads(sel),
{
    assert(seq![sel].subrange(1, 1) =~= Seq::<Selection>::empty());
    reveal_with_fuel(spreads_in, 2);
    assert(spreads_in(seq![sel]) =~= selection_spreads(sel));
}

proof fn lemma_spreads_in_append(a: Seq<Selection>, b: Seq<Selection>)
    ensures
        spreads_in(a + b) == spreads_in(a) + spreads_in(b),
    decreases a.len(),
{
    if a.len() == 0 {
        assert(a + b =~= b);
        assert(spreads_in(a) =~= Seq::empty());
        assert(spreads_in(a + b) =~= spreads_in(a) + spreads_in(b));
    } else {
        let rest = a.subrange(1, a.len() as int);
        lemma_spreads_in_append(rest, b);
        assert((a + b).subrange(1, (a + b).len() as int) =~= rest + b);
        assert((a + b)[0] == a[0]);
        assert(spreads_in(a + b) =~= spreads_in(a) + spreads_in(b));
    }
}

proof fn lemma_spreads_errors_append(
    known: Seq<Seq<char>>,
    a: Seq<Spanning<FragmentSpread>>,
    b: Seq<Spanning<FragmentSpread>>,
)
    ensures
        spreads_errors(known, a + b) == spreads_errors(known, a) + spreads_errors(known, b),
    decreases b.len(),
{
    if b.len() == 0 {
        assert(a + b =~= a);
        assert(spreads_errors(known, a + b) =~= spreads_errors(known, a) + spreads_errors(known, b));
    } else {
        lemma_spreads_errors_append(known, a, b.drop_last());
        assert((a + b).drop_last() =~= a + b.drop_last());
        assert((a + b).last() == b.last());
        assert(spreads_errors(known, a + b) =~= spreads_errors(known, a) + spreads_errors(known, b));
    }
}

} // verus!
