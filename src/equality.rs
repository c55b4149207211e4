use vstd::prelude::*;

use crate::entity::BaseEntity;
use crate::text::{bool_text, bool_to_string, opt_eq, opt_text, opt_to_string, opt_view, same_key, keys_match};

verus! {

/// One field-level discrepancy between a source resource and a destination resource.
#[derive(Debug, Clone, PartialEq, Eq)]
pub enum Difference {
    UpdatingField { field: String, current_value: String, new_value: String },
    /// An item present in the source collection and absent from the destination one.
    AddingItem { field: String, item: String },
    /// An item present in the destination collection and absent from the source one.
    RemovingItem { field: String, item: String },
    /// A field too complex to report piece by piece; it is only said to change.
    UpdatingComplexField { field: String },
}

/// A difference with its texts as character sequences.
pub enum DiffView {
    UpdatingField { field: Seq<char>, current_value: Seq<char>, new_value: Seq<char> },
    AddingItem { field: Seq<char>, item: Seq<char> },
    RemovingItem { field: Seq<char>, item: Seq<char> },
    UpdatingComplexField { field: Seq<char> },
}

impl View for Difference {
    type V = DiffView;

    open spec fn view(&self) -> DiffView {
        match self {
            Difference::UpdatingField { field, current_value, new_value } => DiffView::UpdatingField {
                field: field@,
                current_value: current_value@,
                new_value: new_value@,
            },
            Difference::AddingItem { field, item } => DiffView::AddingItem { field: field@, item: item@ },
            Difference::RemovingItem { field, item } => DiffView::RemovingItem { field: field@, item: item@ },
            Difference::UpdatingComplexField { field } => DiffView::UpdatingComplexField { field: field@ },
        }
    }
}

impl Difference {
    /// The report line of this difference, newest value first.
    pub fn describe(&self) -> (r: String)
        ensures
            r@ == describe_spec(self@),
    {
        match self {
            Difference::UpdatingField { field, current_value, new_value } => {
                field.clone().concat(": '").concat(new_value.as_str()).concat("' -> '").concat(
                    current_value.as_str(),
                ).concat("'")
            },
            Difference::AddingItem { field, item } => {
                String::from_str("+").concat(field.as_str()).concat(": ").concat(item.as_str())
            },
            Difference::RemovingItem { field, item } => {
                String::from_str("-").concat(field.as_str()).concat(": ").concat(item.as_str())
            },
            Difference::UpdatingComplexField { field } => {
                field.clone().concat(" will be updated")
            },
        }
    }
}

/// The report line of a difference: `field: 'new' -> 'current'`, `+field: item`,
/// `-field: item` or `field will be updated`.
pub open spec fn describe_spec(d: DiffView) -> Seq<char> {
    match d {
        DiffView::UpdatingField { field, current_value, new_value } => field + ": '"@ + new_value
            + "' -> '"@ + current_value + "'"@,
        DiffView::AddingItem { field, item } => "+"@ + field + ": "@ + item,
        DiffView::RemovingItem { field, item } => "-"@ + field + ": "@ + item,
        DiffView::UpdatingComplexField { field } => field + " will be updated"@,
    }
}

/// The views of a list of differences.
pub open spec fn views(ds: Seq<Difference>) -> Seq<DiffView> {
    ds.map_values(|d: Difference| d@)
}

/// A resource kind that can be matched across systems and compared field by field.
/// Its view holds what the comparison reads.
pub trait LooksLike: Sized + View {
    /// Whether two values stand for the same resource (natural keys agree).
    spec fn spec_same(a: Self::V, b: Self::V) -> bool;

    /// The field-level differences of `a` (source) against `b` (destination).
    spec fn spec_diffs(a: Self::V, b: Self::V) -> Seq<DiffView>;

    /// Matching by natural key is an equivalence.
    proof fn lemma_same_is_equivalence(a: Self::V, b: Self::V, c: Self::V)
        ensures
            Self::spec_same(a, a),
            Self::spec_same(a, b) == Self::spec_same(b, a),
            Self::spec_same(a, b) && Self::spec_same(b, c) ==> Self::spec_same(a, c),
    ;

    /// What every value of the kind satisfies (unique keys inside it, for instance).
    spec fn spec_wf(a: Self::V) -> bool;

    /// A well-formed resource shows no difference against itself.
    proof fn lemma_no_self_difference(a: Self::V)
        requires
            Self::spec_wf(a),
        ensures
            Self::spec_diffs(a, a).len() == 0,
    ;

    fn differences(&self, other: &Self) -> (r: Vec<Difference>)
        ensures
            views(r@) == Self::spec_diffs(self@, other@),
    ;

    /// Whether the compared fields of the two values agree: exactly when there
    /// is no difference.
    fn looks_like(&self, other: &Self) -> (r: bool)
        ensures
            r == (Self::spec_diffs(self@, other@).len() == 0),
    ;

    /// Whether the two values stand for the same resource.
    fn is_same_resource(&self, other: &Self) -> (r: bool)
        ensures
            r == Self::spec_same(self@, other@),
    ;

    /// A copy of the resource with the same view.
    fn duplicate(&self) -> (r: Self)
        ensures
            r@ == self@,
    ;
}

/// The change reported for a text field: one entry when the two values differ.
pub open spec fn text_change(field: Seq<char>, current: Seq<char>, new: Seq<char>) -> Seq<DiffView> {
    if current == new {
        seq![]
    } else {
        seq![DiffView::UpdatingField { field, current_value: current, new_value: new }]
    }
}

/// The change reported for a flag.
pub open spec fn bool_change(field: Seq<char>, current: bool, new: bool) -> Seq<DiffView> {
    if current == new {
        seq![]
    } else {
        seq![DiffView::UpdatingField { field, current_value: bool_text(current), new_value: bool_text(new) }]
    }
}

/// The change reported for an optional text field; an absent value is shown empty.
pub open spec fn opt_change(field: Seq<char>, current: Option<Seq<char>>, new: Option<Seq<char>>) -> Seq<DiffView> {
    if current == new {
        seq![]
    } else {
        seq![DiffView::UpdatingField {
            field,
            current_value: opt_text(current),
            new_value: opt_text(new),
        }]
    }
}

/// The change reported for a field compared only as a whole.
pub open spec fn complex_change(field: Seq<char>, differ: bool) -> Seq<DiffView> {
    if differ {
        seq![DiffView::UpdatingComplexField { field }]
    } else {
        seq![]
    }
}

/// Whether some stub of `ys` names the same resource as `x`.
pub open spec fn has_match(x: BaseEntity, ys: Seq<BaseEntity>) -> bool {
    exists|j: int| 0 <= j < ys.len() && same_key(x.name@, #[trigger] ys[j].name@)
}

/// `AddingItem` for each stub of `xs` that has no match in `ys`, in the order of `xs`.
pub open spec fn added_items(field: Seq<char>, xs: Seq<BaseEntity>, ys: Seq<BaseEntity>) -> Seq<DiffView>
    decreases xs.len(),
{
    if xs.len() == 0 {
        seq![]
    } else {
        added_items(field, xs.drop_last(), ys) + if has_match(xs.last(), ys) {
            seq![]
        } else {
            seq![DiffView::AddingItem { field, item: xs.last().name@ }]
        }
    }
}

/// `RemovingItem` for each stub of `ys` that has no match in `xs`, in the order of `ys`.
pub open spec fn removed_items(field: Seq<char>, xs: Seq<BaseEntity>, ys: Seq<BaseEntity>) -> Seq<DiffView>
    decreases ys.len(),
{
    if ys.len() == 0 {
        seq![]
    } else {
        removed_items(field, xs, ys.drop_last()) + if has_match(ys.last(), xs) {
            seq![]
        } else {
            seq![DiffView::RemovingItem { field, item: ys.last().name@ }]
        }
    }
}

/// The changes of a nested collection: source-only stubs are added, destination-only
/// stubs are removed; stubs present in both are not compared further.
pub open spec fn list_change(field: Seq<char>, source: Seq<BaseEntity>, dest: Seq<BaseEntity>) -> Seq<DiffView> {
    added_items(field, source, dest) + removed_items(field, source, dest)
}

pub proof fn lemma_views_push(ds: Seq<Difference>, d: Difference)
    ensures
        views(ds.push(d)) == views(ds).push(d@),
{
    assert(views(ds.push(d)) =~= views(ds).push(d@));
}

/// A collection shows no added or removed item against itself.
pub proof fn lemma_list_change_self(field: Seq<char>, xs: Seq<BaseEntity>)
    ensures
        list_change(field, xs, xs).len() == 0,
{
    assert forall|i: int| 0 <= i < xs.len() implies has_match(#[trigger] xs[i], xs) by {
        assert(same_key(xs[i].name@, xs[i].name@));
    }
    lemma_added_none(field, xs, xs);
    lemma_removed_none(field, xs, xs);
}

proof fn lemma_added_none(field: Seq<char>, xs: Seq<BaseEntity>, ys: Seq<BaseEntity>)
    requires
        forall|i: int| 0 <= i < xs.len() ==> has_match(#[trigger] xs[i], ys),
    ensures
        added_items(field, xs, ys).len() == 0,
    decreases xs.len(),
{
    if xs.len() > 0 {
        assert(has_match(xs[xs.len() - 1], ys));
        let p = xs.drop_last();
        assert forall|i: int| 0 <= i < p.len() implies has_match(#[trigger] p[i], ys) by {
            assert(p[i] == xs[i]);
        }
        lemma_added_none(field, p, ys);
    }
}

proof fn lemma_removed_none(field: Seq<char>, xs: Seq<BaseEntity>, ys: Seq<BaseEntity>)
    requires
        forall|i: int| 0 <= i < ys.len() ==> has_match(#[trigger] ys[i], xs),
    ensures
        removed_items(field, xs, ys).len() == 0,
    decreases ys.len(),
{
    if ys.len() > 0 {
        assert(has_match(ys[ys.len() - 1], xs));
        let p = ys.drop_last();
        assert forall|i: int| 0 <= i < p.len() implies has_match(#[trigger] p[i], xs) by {
            assert(p[i] == ys[i]);
        }
        lemma_removed_none(field, xs, p);
    }
}

/// Whether `x` has a match among `ys`, by natural key.
fn find_match(x: &BaseEntity, ys: &Vec<BaseEntity>) -> (r: bool)
    ensures
        r == has_match(*x, ys@),
{
    let mut j: usize = 0;
    while j < ys.len()
        invariant
            j <= ys.len(),
            forall|k: int| 0 <= k < j ==> !same_key(x.name@, #[trigger] ys@[k].name@),
        decreases ys.len() - j,
    {
        if keys_match(&x.name, &ys[j].name) {
            return true;
        }
        j += 1;
    }
    false
}

/// Appends the changes of a text field.
pub fn push_text_change(diffs: &mut Vec<Difference>, field: &str, current: &String, new: &String)
    ensures
        views(final(diffs)@) == views(old(diffs)@) + text_change(field@, current@, new@),
{
    if *current != *new {
        let d = Difference::UpdatingField {
            field: String::from_str(field),
            current_value: current.clone(),
            new_value: new.clone(),
        };
        proof { lemma_views_push(diffs@, d); }
        diffs.push(d);
    } else {
        assert(views(diffs@) + text_change(field@, current@, new@) =~= views(diffs@));
    }
}

/// Appends the changes of a flag.
pub fn push_bool_change(diffs: &mut Vec<Difference>, field: &str, current: bool, new: bool)
    ensures
        views(final(diffs)@) == views(old(diffs)@) + bool_change(field@, current, new),
{
    if current != new {
        let d = Difference::UpdatingField {
            field: String::from_str(field),
            current_value: bool_to_string(current),
            new_value: bool_to_string(new),
        };
        proof { lemma_views_push(diffs@, d); }
        diffs.push(d);
    } else {
        assert(views(diffs@) + bool_change(field@, current, new) =~= views(diffs@));
    }
}

/// Appends the changes of an optional text field.
pub fn push_opt_change(diffs: &mut Vec<Difference>, field: &str, current: &Option<String>, new: &Option<String>)
    ensures
        views(final(diffs)@) == views(old(diffs)@) + opt_change(field@, opt_view(*current), opt_view(*new)),
{
    if !opt_eq(current, new) {
        let d = Difference::UpdatingField {
            field: String::from_str(field),
            current_value: opt_to_string(current),
            new_value: opt_to_string(new),
        };
        proof { lemma_views_push(diffs@, d); }
        diffs.push(d);
    } else {
        assert(views(diffs@) + opt_change(field@, opt_view(*current), opt_view(*new)) =~= views(diffs@));
    }
}

/// Appends a whole-field change when `differ` holds.
pub fn push_complex_change(diffs: &mut Vec<Difference>, field: &str, differ: bool)
    ensures
        views(final(diffs)@) == views(old(diffs)@) + complex_change(field@, differ),
{
    if differ {
        let d = Difference::UpdatingComplexField { field: String::from_str(field) };
        proof { lemma_views_push(diffs@, d); }
        diffs.push(d);
    } else {
        assert(views(diffs@) + complex_change(field@, differ) =~= views(diffs@));
    }
}

/// Appends the changes of a nested collection of stubs.
pub fn push_list_change(
    diffs: &mut Vec<Difference>,
    field: &str,
    source: &Vec<BaseEntity>,
    dest: &Vec<BaseEntity>,
)
    ensures
        views(final(diffs)@) == views(old(diffs)@) + list_change(field@, source@, dest@),
{
    let ghost start = views(diffs@);
    let mut i: usize = 0;
    while i < source.len()
        invariant
            i <= source.len(),
            views(diffs@) == start + added_items(field@, source@.subrange(0, i as int), dest@),
        decreases source.len() - i,
    {
        let x = &source[i];
        let found = find_match(x, dest);
        proof {
            let p = source@.subrange(0, i as int + 1);
            assert(p.drop_last() =~= source@.subrange(0, i as int));
            assert(p.last() == *x);
        }
        if !found {
            let d = Difference::AddingItem { field: String::from_str(field), item: x.name.clone() };
            proof { lemma_views_push(diffs@, d); }
            diffs.push(d);
        }
        assert(views(diffs@) =~= start + added_items(field@, source@.subrange(0, i as int + 1), dest@));
        i += 1;
    }
    assert(source@.subrange(0, source.len() as int) =~= source@);
    let ghost mid = views(diffs@);
    let mut k: usize = 0;
    while k < dest.len()
        invariant
            k <= dest.len(),
            views(diffs@) == mid + removed_items(field@, source@, dest@.subrange(0, k as int)),
        decreases dest.len() - k,
    {
        let y = &dest[k];
        let found = find_match(y, source);
        proof {
            let p = dest@.subrange(0, k as int + 1);
            assert(p.drop_last() =~= dest@.subrange(0, k as int));
            assert(p.last() == *y);
        }
        if !found {
            let d = Difference::RemovingItem { field: String::from_str(field), item: y.name.clone() };
            proof { lemma_views_push(diffs@, d); }
            diffs.push(d);
        }
        assert(views(diffs@) =~= mid + removed_items(field@, source@, dest@.subrange(0, k as int + 1)));
        k += 1;
    }
    assert(dest@.subrange(0, dest.len() as int) =~= dest@);
    assert(views(diffs@) =~= start + list_change(field@, source@, dest@));
}

} // verus!
