use vstd::prelude::*;

use crate::ast::{Definition, Field, Fragment, Selection};
use crate::position::Spanning;
use crate::validation::names_view;

verus! {

broadcast use {
    vstd::seq::axiom_seq_index_decreases,
    vstd::seq::axiom_seq_subrange_decreases,
    vstd::std_specs::vec::axiom_vec_index_decreases,
    vstd::std_specs::vec::axiom_vec_decreases_to_view,
};

/// The key under which a field's value stands in the response: its alias, or
/// else its name.
pub open spec fn response_key(f: Field) -> Seq<char> {
    match f.alias {
        Some(a) => a.item@,
        None => f.name.item@,
    }
}

/// Whether a fragment with this type condition applies to a runtime type that
/// answers to `names` (its own name, and those of its interfaces and unions).
pub open spec fn applies(cond: Option<Spanning<String>>, names: Seq<Seq<char>>) -> bool {
    match cond {
        Some(c) => names.contains(c.item@),
        None => true,
    }
}

/// The first fragment of the document with this name.
pub open spec fn fragment_named(doc: Seq<Definition>, name: Seq<char>) -> Option<Fragment>
    decreases doc.len(),
{
    if doc.len() == 0 {
        None
    } else {
        match doc[0] {
            Definition::Fragment(f) => if f.item.name.item@ == name {
                Some(f.item)
            } else {
                fragment_named(doc.subrange(1, doc.len() as int), name)
            },
            Definition::Operation(_) => fragment_named(doc.subrange(1, doc.len() as int), name),
        }
    }
}

/// The fields a selection set selects on a runtime type, in source order:
/// fields as they stand, and the fields of each fragment that applies, in
/// place. Named fragments are followed `depth` levels deep.
pub open spec fn flatten(
    ss: Seq<Selection>,
    doc: Seq<Definition>,
    names: Seq<Seq<char>>,
    depth: nat,
) -> Seq<Field>
    decreases depth, ss,
{
    if ss.len() == 0 {
        Seq::empty()
    } else {
        let head = match ss[0] {
            Selection::Field(f) => seq![f.item],
            Selection::InlineFragment(i) => if applies(i.item.type_condition, names) {
                flatten(i.item.selection_set@, doc, names, depth)
            } else {
                Seq::empty()
            },
            Selection::FragmentSpread(s) => if depth == 0 {
                Seq::empty()
            } else {
                match fragment_named(doc, s.item.name.item@) {
                    Some(fr) => if applies(Some(fr.type_condition), names) {
                        flatten(fr.selection_set@, doc, names, (depth - 1) as nat)
                    } else {
                        Seq::empty()
                    },
                    None => Seq::empty(),
                }
            },
        };
        head + flatten(ss.subrange(1, ss.len() as int), doc, names, depth)
    }
}

proof fn lemma_flatten_append(
    a: Seq<Selection>,
    b: Seq<Selection>,
    doc: Seq<Definition>,
    names: Seq<Seq<char>>,
    depth: nat,
)
    ensures
        flatten(a + b, doc, names, depth) == flatten(a, doc, names, depth) + flatten(
            b,
            doc,
            names,
            depth,
        ),
    decreases a.len(),
{
    if a.len() == 0 {
        assert(a + b =~= b);
        assert(flatten(a + b, doc, names, depth) =~= flatten(a, doc, names, depth) + flatten(
            b,
            doc,
            names,
            depth,
        ));
    } else {
        let rest = a.subrange(1, a.len() as int);
        lemma_flatten_append(rest, b, doc, names, depth);
        assert((a + b).subrange(1, (a + b).len() as int) =~= rest + b);
        assert((a + b)[0] == a[0]);
        assert(seq![a[0]].subrange(1, 1) =~= Seq::<Selection>::empty());
        reveal_with_fuel(flatten, 2);
        assert(flatten(a + b, doc, names, depth) =~= flatten(a, doc, names, depth) + flatten(
            b,
            doc,
            names,
            depth,
        ));
    }
}

/// The fields a sequence of references points at.
pub open spec fn fields_view(s: Seq<&Field>) -> Seq<Field> {
    s.map_values(|f: &Field| *f)
}

fn names_contain(names: &Vec<String>, name: &String) -> (r: bool)
    ensures
        r == names_view(names@).contains(name@),
{
    let mut i: usize = 0;
    while i < names.len()
        invariant
            i <= names@.len(),
            forall|j: int| 0 <= j < i ==> names@[j]@ != name@,
        decreases names@.len() - i,
    {
        if names[i] == *name {
            assert(names_view(names@)[i as int] == name@);
            return true;
        }
        i = i + 1;
    }
    proof {
        if names_view(names@).contains(name@) {
            let k = choose|k: int|
                0 <= k < names_view(names@).len() && names_view(names@)[k] == name@;
            assert(names@[k]@ == name@);
        }
    }
    false
}

/// Looks up the first fragment of the document with this name.
pub fn find_fragment<'a>(doc: &'a Vec<Definition>, name: &String) -> (r: Option<&'a Fragment>)
    ensures
        match r {
            Some(f) => fragment_named(doc@, name@) == Some(*f),
            None => fragment_named(doc@, name@) is None,
        },
{
    let mut i: usize = 0;
    assert(doc@.subrange(0, doc@.len() as int) =~= doc@);
    while i < doc.len()
        invariant
            i <= doc@.len(),
            fragment_named(doc@, name@) == fragment_named(
                doc@.subrange(i as int, doc@.len() as int),
                name@,
            ),
        decreases doc@.len() - i,
    {
        let ghost rest = doc@.subrange(i as int, doc@.len() as int);
        assert(rest[0] == doc@[i as int]);
        assert(rest.subrange(1, rest.len() as int) =~= doc@.subrange(i + 1, doc@.len() as int));
        match &doc[i] {
            Definition::Fragment(f) => {
                if f.item.name.item == *name {
                    return Some(&f.item);
                }
            },
            Definition::Operation(_) => {},
        }
        i = i + 1;
    }
    assert(doc@.subrange(doc@.len() as int, doc@.len() as int) =~= Seq::<Definition>::empty());
    None
}

/// Appends the fields a selection set selects on a runtime type answering to
/// `names`, in source order, following named fragments `depth` levels deep.
pub fn collect_fields<'a>(
    ss: &'a Vec<Selection>,
    doc: &'a Vec<Definition>,
    names: &Vec<String>,
    depth: usize,
    out: &mut Vec<&'a Field>,
)
    ensures
        fields_view(final(out)@) == fields_view(old(out)@) + flatten(
            ss@,
            doc@,
            names_view(names@),
            depth as nat,
        ),
    decreases depth, ss,
{
    let ghost n = names_view(names@);
    let mut i: usize = 0;
    while i < ss.len()
        invariant
            i <= ss@.len(),
            n == names_view(names@),
            fields_view(out@) == fields_view(old(out)@) + flatten(
                ss@.subrange(0, i as int),
                doc@,
                n,
                depth as nat,
            ),
        decreases ss@.len() - i,
    {
        let ghost before = fields_view(out@);
        proof {
            assert(ss@.subrange(0, i + 1) =~= ss@.subrange(0, i as int) + seq![ss@[i as int]]);
            lemma_flatten_append(ss@.subrange(0, i as int), seq![ss@[i as int]], doc@, n, depth as nat);
            assert(seq![ss@[i as int]].subrange(1, 1) =~= Seq::<Selection>::empty());
            reveal_with_fuel(flatten, 2);
        }
        match &ss[i] {
            Selection::Field(f) => {
                out.push(&f.item);
                assert(fields_view(out@) =~= before + seq![f.item]);
            },
            Selection::InlineFragment(frag) => {
                let applies_here = match &frag.item.type_condition {
                    Some(c) => names_contain(names, &c.item),
                    None => true,
                };
                if applies_here {
                    collect_fields(&frag.item.selection_set, doc, names, depth, out);
                } else {
                    assert(fields_view(out@) =~= before + Seq::<Field>::empty());
                }
            },
            Selection::FragmentSpread(spread) => {
                if depth == 0 {
                    assert(fields_view(out@) =~= before + Seq::<Field>::empty());
                } else {
                    match find_fragment(doc, &spread.item.name.item) {
                        Some(fr) => {
                            if names_contain(names, &fr.type_condition.item) {
                                collect_fields(&fr.selection_set, doc, names, depth - 1, out);
                            } else {
                                assert(fields_view(out@) =~= before + Seq::<Field>::empty());
                            }
                        },
                        None => {
                            assert(fields_view(out@) =~= before + Seq::<Field>::empty());
                        },
                    }
                }
            },
        }
        assert(fields_view(out@) =~= fields_view(old(out)@) + flatten(
            ss@.subrange(0, i + 1),
            doc@,
            n,
            depth as nat,
        ));
        i = i + 1;
    }
    assert(ss@.subrange(0, ss@.len() as int) =~= ss@);
}

/// Fields grouped by response key.
pub type Grouped = Seq<(Seq<char>, Seq<Field>)>;

/// The first entry of `g` under key `k`.
pub open spec fn key_index(g: Grouped, k: Seq<char>) -> Option<int>
    decreases g.len(),
{
    if g.len() == 0 {
        None
    } else {
        match key_index(g.drop_last(), k) {
            Some(j) => Some(j),
            None => if g.last().0 == k {
                Some(g.len() - 1)
            } else {
                None
            },
        }
    }
}

/// Groups fields by response key: one entry per key, in the order keys are
/// first met, each holding that key's fields in order.
pub open spec fn group(fs: Seq<Field>) -> Grouped
    decreases fs.len(),
{
    if fs.len() == 0 {
        Seq::empty()
    } else {
        let g = group(fs.drop_last());
        let f = fs.last();
        let k = response_key(f);
        match key_index(g, k) {
            Some(j) => g.update(j, (k, g[j].1.push(f))),
            None => g.push((k, seq![f])),
        }
    }
}

proof fn lemma_key_index(g: Grouped, k: Seq<char>)
    ensures
        match key_index(g, k) {
            Some(j) => 0 <= j < g.len() && g[j].0 == k && forall|i: int|
                0 <= i < j ==> (#[trigger] g[i]).0 != k,
            None => forall|i: int| 0 <= i < g.len() ==> (#[trigger] g[i]).0 != k,
        },
    decreases g.len(),
{
    if g.len() > 0 {
        let p = g.drop_last();
        lemma_key_index(p, k);
        assert forall|i: int| 0 <= i < p.len() implies #[trigger] g[i] == p[i] by {}
        match key_index(p, k) {
            Some(j) => {
                assert(g[j] == p[j]);
                assert forall|i: int| 0 <= i < j implies (#[trigger] g[i]).0 != k by {
                    assert(g[i] == p[i]);
                }
            },
            None => {
                assert forall|i: int| 0 <= i < p.len() implies (#[trigger] g[i]).0 != k by {
                    assert(g[i] == p[i]);
                }
            },
        }
    }
}

/// The key of each entry is the response key of all its fields, keys are
/// never repeated, and an entry holds exactly the fields under its key, in
/// the order they were met.
pub open spec fn groups_well_formed(fs: Seq<Field>, g: Grouped) -> bool {
    &&& forall|i: int, j: int| 0 <= i < j < g.len() ==> (#[trigger] g[i]).0 != (#[trigger] g[j]).0
    &&& forall|j: int|
        0 <= j < g.len() ==> (#[trigger] g[j]).1 == fs.filter(|f: Field| response_key(f) == g[j].0)
    &&& forall|i: int|
        0 <= i < fs.len() ==> key_index(g, response_key(#[trigger] fs[i])) is Some
}

proof fn lemma_filter_none(s: Seq<Field>, pred: spec_fn(Field) -> bool)
    requires
        forall|i: int| 0 <= i < s.len() ==> !pred(#[trigger] s[i]),
    ensures
        s.filter(pred).len() == 0,
    decreases s.len(),
{
    reveal(Seq::filter);
    if s.len() > 0 {
        let p = s.drop_last();
        assert forall|i: int| 0 <= i < p.len() implies !pred(#[trigger] p[i]) by {
            assert(p[i] == s[i]);
        }
        lemma_filter_none(p, pred);
    }
}

/// Merging fields that share a response key: each entry of the grouping holds
/// exactly the fields under its key, in the order they were met, and keys are
/// neither repeated nor lost.
pub proof fn lemma_group(fs: Seq<Field>)
    ensures
        groups_well_formed(fs, group(fs)),
    decreases fs.len(),
{
    if fs.len() == 0 {
        reveal(Seq::filter);
    } else {
        let p = fs.drop_last();
        let f = fs.last();
        let k = response_key(f);
        let g0 = group(p);
        let g = group(fs);
        lemma_group(p);
        lemma_key_index(g0, k);
        assert(fs =~= p.push(f));
        assert forall|j: int| 0 <= j < g.len() implies (#[trigger] g[j]).1 == fs.filter(
            |x: Field| response_key(x) == g[j].0,
        ) by {
            let pred = |x: Field| response_key(x) == g[j].0;
            p.lemma_filter_push(f, pred);
            if j < g0.len() {
                assert(g[j].0 == g0[j].0);
                assert(g0[j].1 == p.filter(|x: Field| response_key(x) == g0[j].0));
                assert(pred == |x: Field| response_key(x) == g0[j].0);
            } else {
                assert forall|i: int| 0 <= i < p.len() implies !pred(#[trigger] p[i]) by {
                    let ki = response_key(p[i]);
                    assert(key_index(g0, response_key(p[i])) is Some);
                    lemma_key_index(g0, ki);
                }
                lemma_filter_none(p, pred);
                assert(g[j].1 =~= fs.filter(pred));
            }
        }
        assert forall|i: int| 0 <= i < fs.len() implies key_index(
            g,
            response_key(#[trigger] fs[i]),
        ) is Some by {
            let ki = response_key(fs[i]);
            lemma_key_index(g, ki);
            if i < p.len() {
                assert(fs[i] == p[i]);
                lemma_key_index(g0, ki);
                let j = key_index(g0, ki)->Some_0;
                assert(g[j].0 == ki);
            } else {
                lemma_key_index(g, k);
                let j = match key_index(g0, k) {
                    Some(j) => j,
                    None => g0.len() as int,
                };
                assert(g[j].0 == k);
            }
        }
    }
}

/// The mathematical value of a grouping.
pub open spec fn grouped_view<'a>(out: Seq<(String, Vec<&'a Field>)>) -> Grouped {
    out.map_values(|e: (String, Vec<&'a Field>)| (e.0@, fields_view(e.1@)))
}

fn field_key(f: &Field) -> (r: &String)
    ensures
        r@ == response_key(*f),
{
    match &f.alias {
        Some(a) => &a.item,
        None => &f.name.item,
    }
}

/// Merges fields by response key: one entry per key, in the order keys are
/// first met, holding that key's fields in order.
pub fn group_fields<'a>(fields: &Vec<&'a Field>) -> (r: Vec<(String, Vec<&'a Field>)>)
    ensures
        grouped_view(r@) == group(fields_view(fields@)),
{
    let ghost fs = fields_view(fields@);
    let mut out: Vec<(String, Vec<&'a Field>)> = Vec::new();
    let mut i: usize = 0;
    assert(grouped_view(out@) =~= group(fs.subrange(0, 0)));
    while i < fields.len()
        invariant
            i <= fields@.len(),
            fs == fields_view(fields@),
            grouped_view(out@) == group(fs.subrange(0, i as int)),
        decreases fields@.len() - i,
    {
        let f: &'a Field = fields[i];
        let k = field_key(f);
        let ghost g = grouped_view(out@);
        proof {
            assert(fs.subrange(0, i + 1).drop_last() =~= fs.subrange(0, i as int));
            assert(fs.subrange(0, i + 1).last() == *f);
            lemma_key_index(g, k@);
        }
        let mut j: usize = 0;
        let mut found = false;
        while j < out.len() && !found
            invariant
                j <= out@.len(),
                g == grouped_view(out@),
                found ==> j < out@.len() && g[j as int].0 == k@,
                forall|jj: int| 0 <= jj < j ==> (#[trigger] g[jj]).0 != k@,
            decreases out@.len() - j + (if found { 0int } else { 1int }),
        {
            if out[j].0 == *k {
                found = true;
            } else {
                j = j + 1;
            }
        }
        proof {
            if found {
                match key_index(g, k@) {
                    Some(jj) => {
                        if jj < j {
                            assert(g[jj].0 != k@);
                        }
                        if jj > j {
                            assert(g[j as int].0 != k@);
                        }
                    },
                    None => {
                        assert(g[j as int].0 != k@);
                    },
                }
                assert(key_index(g, k@) == Some(j as int));
            } else {
                if let Some(jj) = key_index(g, k@) {
                    assert(g[jj].0 != k@);
                }
            }
        }
        if found {
            let ghost old_out = out@;
            let (key, mut v) = out.remove(j);
            assert((key, v) == old_out[j as int]);
            let ghost old_v = v@;
            v.push(f);
            assert(fields_view(v@) =~= fields_view(old_v).push(*f));
            let ghost entry = (key, v);
            out.insert(j, (key, v));
            assert(out@ =~= old_out.update(j as int, entry));
            assert(grouped_view(out@) =~= g.update(j as int, (k@, g[j as int].1.push(*f))));
        } else {
            let ghost old_out = out@;
            let first: Vec<&'a Field> = vec![f];
            assert(fields_view(first@) =~= seq![*f]);
            let kc = k.clone();
            out.push((kc, first));
            assert(grouped_view(out@) =~= g.push((k@, seq![*f])));
        }
        i = i + 1;
    }
    assert(fs.subrange(0, fields@.len() as int) =~= fs);
    out
}

} // verus!
