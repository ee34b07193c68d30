use vstd::prelude::*;

use crate::position::SourcePosition;

verus! {

/// A failed validation rule: its message and the places in the text it points at.
#[derive(Clone, Debug, PartialEq, Eq)]
pub struct RuleError {
    pub message: String,
    pub locations: Vec<SourcePosition>,
}

impl View for RuleError {
    type V = (Seq<char>, Seq<SourcePosition>);

    open spec fn view(&self) -> (Seq<char>, Seq<SourcePosition>) {
        (self.message@, self.locations@)
    }
}

/// The mathematical value of a list of rule errors.
pub open spec fn errors_view(errs: Seq<RuleError>) -> Seq<(Seq<char>, Seq<SourcePosition>)> {
    errs.map_values(|e: RuleError| e@)
}

/// The mathematical value of a list of names.
pub open spec fn names_view(names: Seq<String>) -> Seq<Seq<char>> {
    names.map_values(|s: String| s@)
}

fn copy_positions(locations: &[SourcePosition]) -> (r: Vec<SourcePosition>)
    ensures
        r@ == locations@,
{
    let mut r: Vec<SourcePosition> = Vec::new();
    let mut i: usize = 0;
    while i < locations.len()
        invariant
            i <= locations@.len(),
            r@ == locations@.subrange(0, i as int),
        decreases locations@.len() - i,
    {
        r.push(locations[i]);
        i = i + 1;
        assert(r@ =~= locations@.subrange(0, i as int));
    }
    assert(r@ =~= locations@);
    r
}

impl RuleError {
    pub fn new(message: &str, locations: &[SourcePosition]) -> (r: RuleError)
        ensures
            r@ == (message@, locations@),
    {
        RuleError { message: String::from_str(message), locations: copy_positions(locations) }
    }
}

/// What the rules share while they walk one document: the names of the
/// fragments it declares, and the errors reported so far, in report order.
pub struct ValidatorContext {
    pub fragment_names: Vec<String>,
    pub errors: Vec<RuleError>,
}

impl ValidatorContext {
    /// The declared fragment names.
    pub open spec fn known_fragments(&self) -> Seq<Seq<char>> {
        names_view(self.fragment_names@)
    }

    /// The errors reported so far.
    pub open spec fn reported(&self) -> Seq<(Seq<char>, Seq<SourcePosition>)> {
        errors_view(self.errors@)
    }

    pub fn new(fragment_names: Vec<String>) -> (r: ValidatorContext)
        ensures
            r.fragment_names@ == fragment_names@,
            r.reported() == Seq::<(Seq<char>, Seq<SourcePosition>)>::empty(),
    {
        let r = ValidatorContext { fragment_names, errors: Vec::new() };
        assert(r.reported() =~= Seq::<(Seq<char>, Seq<SourcePosition>)>::empty());
        r
    }

    /// Whether the document declares a fragment of this name.
    pub fn is_known_fragment(&self, name: &String) -> (r: bool)
        ensures
            r == self.known_fragments().contains(name@),
    {
        let mut i: usize = 0;
        while i < self.fragment_names.len()
            invariant
                i <= self.fragment_names@.len(),
                forall|j: int| 0 <= j < i ==> self.fragment_names@[j]@ != name@,
            decreases self.fragment_names@.len() - i,
        {
            if self.fragment_names[i] == *name {
                assert(self.known_fragments()[i as int] == name@);
                return true;
            }
            i = i + 1;
        }
        proof {
            if self.known_fragments().contains(name@) {
                let k = choose|k: int|
                    0 <= k < self.known_fragments().len() && self.known_fragments()[k] == name@;
                assert(self.fragment_names@[k]@ == name@);
            }
        }
        false
    }

    /// Appends an error with this message and these locations.
    pub fn report_error(&mut self, message: &str, locations: &[SourcePosition])
        ensures
            final(self).fragment_names == old(self).fragment_names,
            final(self).reported() == old(self).reported().push((message@, locations@)),
    {
        let e = RuleError::new(message, locations);
        self.errors.push(e);
        assert(self.reported() =~= old(self).reported().push((message@, locations@)));
    }

    /// Hands out the errors reported so far.
    pub fn into_errors(self) -> (r: Vec<RuleError>)
        ensures
            errors_view(r@) == self.reported(),
    {
        self.errors
    }
}

} // verus!
