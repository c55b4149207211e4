use vstd::prelude::*;

use crate::equality::LooksLike;

verus! {

/// One proposed action on one resource of a kind.
pub enum MigrationPlan<T: LooksLike> {
    Create { source_resource: T },
    Update { source_resource: T, target_resource: T },
    Delete { target_resource: T },
}

/// A plan entry over the views of the resources.
pub enum PlanView<V> {
    Create { source: V },
    Update { source: V, target: V },
    Delete { target: V },
}

impl<T: LooksLike> View for MigrationPlan<T> {
    type V = PlanView<T::V>;

    open spec fn view(&self) -> PlanView<T::V> {
        match self {
            MigrationPlan::Create { source_resource } => PlanView::Create { source: source_resource@ },
            MigrationPlan::Update { source_resource, target_resource } => PlanView::Update {
                source: source_resource@,
                target: target_resource@,
            },
            MigrationPlan::Delete { target_resource } => PlanView::Delete { target: target_resource@ },
        }
    }
}

/// The views of a sequence of values.
pub open spec fn seq_view<T: View>(s: Seq<T>) -> Seq<T::V> {
    s.map_values(|x: T| x@)
}

/// `j` is the first position of `d` that holds the same resource as `s`.
pub open spec fn is_first_match<T: LooksLike>(s: T::V, d: Seq<T::V>, j: int) -> bool {
    &&& 0 <= j < d.len()
    &&& T::spec_same(d[j], s)
    &&& forall|k: int| 0 <= k < j ==> !T::spec_same(#[trigger] d[k], s)
}

/// Whether some resource of `d` is the same resource as `s`.
pub open spec fn in_seq<T: LooksLike>(s: T::V, d: Seq<T::V>) -> bool {
    exists|j: int| 0 <= j < d.len() && T::spec_same(#[trigger] d[j], s)
}

/// The first resource of `d` that is the same resource as `s`, if any.
pub open spec fn first_match<T: LooksLike>(s: T::V, d: Seq<T::V>) -> Option<int> {
    if exists|j: int| is_first_match::<T>(s, d, j) {
        Some(choose|j: int| is_first_match::<T>(s, d, j))
    } else {
        None
    }
}

/// The entry a source resource gives: `Create` when the destination lacks it,
/// `Update` when the destination's copy differs, nothing when it looks alike.
pub open spec fn source_entry<T: LooksLike>(s: T::V, d: Seq<T::V>) -> Seq<PlanView<T::V>> {
    match first_match::<T>(s, d) {
        None => seq![PlanView::Create { source: s }],
        Some(j) => if T::spec_diffs(s, d[j]).len() == 0 {
            seq![]
        } else {
            seq![PlanView::Update { source: s, target: d[j] }]
        },
    }
}

/// The entries of the source resources, in source order.
pub open spec fn source_entries<T: LooksLike>(s: Seq<T::V>, d: Seq<T::V>) -> Seq<PlanView<T::V>>
    decreases s.len(),
{
    if s.len() == 0 {
        seq![]
    } else {
        source_entries::<T>(s.drop_last(), d) + source_entry::<T>(s.last(), d)
    }
}

/// A `Delete` for each destination resource that the source lacks, in destination order.
pub open spec fn target_entries<T: LooksLike>(s: Seq<T::V>, d: Seq<T::V>) -> Seq<PlanView<T::V>>
    decreases d.len(),
{
    if d.len() == 0 {
        seq![]
    } else {
        target_entries::<T>(s, d.drop_last()) + if in_seq::<T>(d.last(), s) {
            seq![]
        } else {
            seq![PlanView::Delete { target: d.last() }]
        }
    }
}

/// The migration plan of a source collection against a destination collection.
pub open spec fn reconcile_spec<T: LooksLike>(s: Seq<T::V>, d: Seq<T::V>) -> Seq<PlanView<T::V>> {
    source_entries::<T>(s, d) + target_entries::<T>(s, d)
}

/// The position of the first resource of `d` that is the same resource as `s`.
pub(crate) fn find_first<T: LooksLike>(s: &T, d: &Vec<T>) -> (r: Option<usize>)
    ensures
        r matches Some(j) ==> is_first_match::<T>(s@, seq_view(d@), j as int),
        r is None ==> !in_seq::<T>(s@, seq_view(d@)),
{
    let ghost dv = seq_view(d@);
    let mut j: usize = 0;
    while j < d.len()
        invariant
            j <= d.len(),
            dv == seq_view(d@),
            forall|k: int| 0 <= k < j ==> !T::spec_same(#[trigger] dv[k], s@),
        decreases d.len() - j,
    {
        assert(dv[j as int] == d@[j as int]@);
        if d[j].is_same_resource(s) {
            return Some(j);
        }
        j += 1;
    }
    None
}

/// Whether some resource of `s` is the same resource as `d`.
fn contains_same<T: LooksLike>(x: &T, s: &Vec<T>) -> (r: bool)
    ensures
        r == in_seq::<T>(x@, seq_view(s@)),
{
    let ghost sv = seq_view(s@);
    let mut i: usize = 0;
    while i < s.len()
        invariant
            i <= s.len(),
            sv == seq_view(s@),
            forall|k: int| 0 <= k < i ==> !T::spec_same(#[trigger] sv[k], x@),
        decreases s.len() - i,
    {
        assert(sv[i as int] == s@[i as int]@);
        if s[i].is_same_resource(x) {
            return true;
        }
        i += 1;
    }
    false
}

pub proof fn lemma_first_match_is<T: LooksLike>(s: T::V, d: Seq<T::V>, j: int)
    requires
        is_first_match::<T>(s, d, j),
    ensures
        first_match::<T>(s, d) == Some(j),
{
    let c = choose|j: int| is_first_match::<T>(s, d, j);
    assert(is_first_match::<T>(s, d, c));
    if c < j {
        assert(!T::spec_same(d[c], s));
    } else if c > j {
        assert(!T::spec_same(d[j], s));
    }
}

pub proof fn lemma_first_match_none<T: LooksLike>(s: T::V, d: Seq<T::V>)
    requires
        !in_seq::<T>(s, d),
    ensures
        first_match::<T>(s, d) is None,
{
    if exists|j: int| is_first_match::<T>(s, d, j) {
        let j = choose|j: int| is_first_match::<T>(s, d, j);
        assert(T::spec_same(d[j], s));
    }
}

/// Computes the migration plan of one resource kind: a `Create` for each source
/// resource that the destination lacks, an `Update` for each one whose
/// destination copy differs, then a `Delete` for each destination resource that
/// the source lacks.
pub fn reconcile<T: LooksLike>(source: &Vec<T>, target: &Vec<T>) -> (plan: Vec<MigrationPlan<T>>)
    ensures
        seq_view(plan@) == reconcile_spec::<T>(seq_view(source@), seq_view(target@)),
{
    let ghost sv = seq_view(source@);
    let ghost tv = seq_view(target@);
    let mut plan: Vec<MigrationPlan<T>> = Vec::new();
    assert(seq_view(plan@) =~= source_entries::<T>(sv.subrange(0, 0), tv));
    let mut i: usize = 0;
    while i < source.len()
        invariant
            i <= source.len(),
            sv == seq_view(source@),
            tv == seq_view(target@),
            sv.len() == source.len(),
            tv.len() == target.len(),
            seq_view(plan@) == source_entries::<T>(sv.subrange(0, i as int), tv),
        decreases source.len() - i,
    {
        let s = &source[i];
        let ghost before = seq_view(plan@);
        proof {
            assert(sv[i as int] == s@);
            let p = sv.subrange(0, i as int + 1);
            assert(p.drop_last() =~= sv.subrange(0, i as int));
            assert(p.last() == s@);
        }
        match find_first(s, target) {
            Some(j) => {
                proof {
                    lemma_first_match_is::<T>(s@, tv, j as int);
                    assert(tv[j as int] == target@[j as int]@);
                }
                if !s.looks_like(&target[j]) {
                    let e = MigrationPlan::Update {
                        source_resource: s.duplicate(),
                        target_resource: target[j].duplicate(),
                    };
                    plan.push(e);
                }
            },
            None => {
                proof { lemma_first_match_none::<T>(s@, tv); }
                plan.push(MigrationPlan::Create { source_resource: s.duplicate() });
            },
        }
        assert(seq_view(plan@) =~= before + source_entry::<T>(s@, tv));
        i += 1;
    }
    assert(sv.subrange(0, source.len() as int) =~= sv);
    let ghost mid = seq_view(plan@);
    assert(seq_view(plan@) =~= mid + target_entries::<T>(sv, tv.subrange(0, 0)));
    let mut k: usize = 0;
    while k < target.len()
        invariant
            k <= target.len(),
            sv == seq_view(source@),
            tv == seq_view(target@),
            sv.len() == source.len(),
            tv.len() == target.len(),
            seq_view(plan@) == mid + target_entries::<T>(sv, tv.subrange(0, k as int)),
        decreases target.len() - k,
    {
        let t = &target[k];
        let ghost before = seq_view(plan@);
        proof {
            assert(tv[k as int] == t@);
            let p = tv.subrange(0, k as int + 1);
            assert(p.drop_last() =~= tv.subrange(0, k as int));
            assert(p.last() == t@);
        }
        let present = contains_same(t, source);
        let ghost p = tv.subrange(0, k as int + 1);
        assert(p.last() == t@);
        assert(target_entries::<T>(sv, p) == target_entries::<T>(sv, p.drop_last()) + if in_seq::<T>(t@, sv) {
            seq![]
        } else {
            seq![PlanView::Delete { target: t@ }]
        });
        if !present {
            plan.push(MigrationPlan::Delete { target_resource: t.duplicate() });
            assert(seq_view(plan@) =~= before.push(PlanView::Delete { target: t@ }));
        } else {
            assert(seq_view(plan@) =~= before);
        }
        assert(seq_view(plan@) =~= mid + target_entries::<T>(sv, tv.subrange(0, k as int + 1)));
        k += 1;
    }
    assert(tv.subrange(0, target.len() as int) =~= tv);
    plan
}

/// The resource a plan entry is about.
pub open spec fn key_of<V>(e: PlanView<V>) -> V {
    match e {
        PlanView::Create { source } => source,
        PlanView::Update { source, .. } => source,
        PlanView::Delete { target } => target,
    }
}

/// The entries of `p` about the same resource as `x`, in plan order.
pub open spec fn entries_for<T: LooksLike>(p: Seq<PlanView<T::V>>, x: T::V) -> Seq<PlanView<T::V>>
    decreases p.len(),
{
    if p.len() == 0 {
        seq![]
    } else {
        entries_for::<T>(p.drop_last(), x) + if T::spec_same(key_of(p.last()), x) {
            seq![p.last()]
        } else {
            seq![]
        }
    }
}

/// No two resources of `s` share a natural key.
pub open spec fn keys_unique<T: LooksLike>(s: Seq<T::V>) -> bool {
    forall|i: int, j: int|
        0 <= i < s.len() && 0 <= j < s.len() && i != j ==> !T::spec_same(#[trigger] s[i], #[trigger] s[j])
}

proof fn lemma_entries_for_single<T: LooksLike>(e: PlanView<T::V>, x: T::V)
    ensures
        entries_for::<T>(seq![e], x) == if T::spec_same(key_of(e), x) {
            seq![e]
        } else {
            Seq::<PlanView<T::V>>::empty()
        },
{
    let q = seq![e];
    assert(q.drop_last() =~= Seq::<PlanView<T::V>>::empty());
    assert(entries_for::<T>(q.drop_last(), x) =~= Seq::<PlanView<T::V>>::empty());
    assert(q.last() == e);
    assert(entries_for::<T>(q, x) =~= (if T::spec_same(key_of(e), x) {
        seq![e]
    } else {
        Seq::<PlanView<T::V>>::empty()
    }));
}

proof fn lemma_entries_for_concat<T: LooksLike>(a: Seq<PlanView<T::V>>, b: Seq<PlanView<T::V>>, x: T::V)
    ensures
        entries_for::<T>(a + b, x) == entries_for::<T>(a, x) + entries_for::<T>(b, x),
    decreases b.len(),
{
    if b.len() == 0 {
        assert(a + b =~= a);
        assert(entries_for::<T>(a, x) + entries_for::<T>(b, x) =~= entries_for::<T>(a, x));
    } else {
        assert((a + b).drop_last() =~= a + b.drop_last());
        assert((a + b).last() == b.last());
        lemma_entries_for_concat::<T>(a, b.drop_last(), x);
        assert(entries_for::<T>(a + b, x) =~= entries_for::<T>(a, x) + entries_for::<T>(b, x));
    }
}

/// The entry of one source resource is about that resource.
proof fn lemma_source_entry_for<T: LooksLike>(s: T::V, d: Seq<T::V>, x: T::V)
    ensures
        T::spec_same(s, x) ==> entries_for::<T>(source_entry::<T>(s, d), x) == source_entry::<T>(s, d),
        !T::spec_same(s, x) ==> entries_for::<T>(source_entry::<T>(s, d), x) == Seq::<PlanView<T::V>>::empty(),
{
    let e = source_entry::<T>(s, d);
    if e.len() == 1 {
        assert(e.drop_last() =~= Seq::<PlanView<T::V>>::empty());
        assert(key_of(e.last()) == s);
        assert(entries_for::<T>(e.drop_last(), x) =~= Seq::<PlanView<T::V>>::empty());
        if T::spec_same(s, x) {
            assert(entries_for::<T>(e, x) =~= e);
        } else {
            assert(entries_for::<T>(e, x) =~= Seq::<PlanView<T::V>>::empty());
        }
    } else {
        assert(e =~= Seq::<PlanView<T::V>>::empty());
    }
}

/// Source resources with another key contribute nothing about `x`.
proof fn lemma_source_entries_none<T: LooksLike>(s: Seq<T::V>, d: Seq<T::V>, x: T::V)
    requires
        forall|i: int| 0 <= i < s.len() ==> !T::spec_same(#[trigger] s[i], x),
    ensures
        entries_for::<T>(source_entries::<T>(s, d), x) == Seq::<PlanView<T::V>>::empty(),
    decreases s.len(),
{
    if s.len() > 0 {
        let p = s.drop_last();
        assert forall|i: int| 0 <= i < p.len() implies !T::spec_same(#[trigger] p[i], x) by {
            assert(p[i] == s[i]);
        }
        lemma_source_entries_none::<T>(p, d, x);
        lemma_entries_for_concat::<T>(source_entries::<T>(p, d), source_entry::<T>(s.last(), d), x);
        lemma_source_entry_for::<T>(s.last(), d, x);
        assert(!T::spec_same(s[s.len() - 1], x));
        assert(entries_for::<T>(source_entries::<T>(s, d), x) =~= Seq::<PlanView<T::V>>::empty());
    }
}

/// With unique keys, the source entries about `s[i]` are exactly its own entry.
proof fn lemma_source_entries_one<T: LooksLike>(s: Seq<T::V>, d: Seq<T::V>, i: int)
    requires
        keys_unique::<T>(s),
        0 <= i < s.len(),
    ensures
        entries_for::<T>(source_entries::<T>(s, d), s[i]) == source_entry::<T>(s[i], d),
    decreases s.len(),
{
    let p = s.drop_last();
    let x = s[i];
    T::lemma_same_is_equivalence(x, x, x);
    lemma_entries_for_concat::<T>(source_entries::<T>(p, d), source_entry::<T>(s.last(), d), x);
    lemma_source_entry_for::<T>(s.last(), d, x);
    if i == s.len() - 1 {
        assert forall|k: int| 0 <= k < p.len() implies !T::spec_same(#[trigger] p[k], x) by {
            assert(p[k] == s[k]);
            assert(!T::spec_same(s[k], s[i]));
        }
        lemma_source_entries_none::<T>(p, d, x);
        assert(entries_for::<T>(source_entries::<T>(s, d), x) =~= source_entry::<T>(s[i], d));
    } else {
        assert forall|a: int, b: int|
            0 <= a < p.len() && 0 <= b < p.len() && a != b implies !T::spec_same(#[trigger] p[a], #[trigger] p[b]) by {
            assert(p[a] == s[a] && p[b] == s[b]);
        }
        assert(p[i] == x);
        lemma_source_entries_one::<T>(p, d, i);
        T::lemma_same_is_equivalence(s[s.len() - 1], x, x);
        assert(!T::spec_same(s[s.len() - 1], s[i]));
        assert(entries_for::<T>(source_entries::<T>(s, d), x) =~= source_entry::<T>(s[i], d));
    }
}

/// A resource of the source has no `Delete` entry.
proof fn lemma_target_entries_none<T: LooksLike>(s: Seq<T::V>, d: Seq<T::V>, x: T::V)
    requires
        in_seq::<T>(x, s),
    ensures
        entries_for::<T>(target_entries::<T>(s, d), x) == Seq::<PlanView<T::V>>::empty(),
    decreases d.len(),
{
    if d.len() > 0 {
        let p = d.drop_last();
        let t = d.last();
        lemma_target_entries_none::<T>(s, p, x);
        let tail: Seq<PlanView<T::V>> = if in_seq::<T>(t, s) { seq![] } else { seq![PlanView::Delete { target: t }] };
        lemma_entries_for_concat::<T>(target_entries::<T>(s, p), tail, x);
        if !in_seq::<T>(t, s) {
            let j = choose|j: int| 0 <= j < s.len() && T::spec_same(#[trigger] s[j], x);
            T::lemma_same_is_equivalence(s[j], x, t);
            T::lemma_same_is_equivalence(t, x, s[j]);
            assert(!T::spec_same(s[j], t));
            assert(!T::spec_same(t, x));
            lemma_entries_for_single::<T>(PlanView::Delete { target: t }, x);
        } else {
            assert(tail =~= Seq::<PlanView<T::V>>::empty());
        }
        assert(entries_for::<T>(target_entries::<T>(s, d), x) =~= Seq::<PlanView<T::V>>::empty());
    }
}

/// With unique destination keys, a destination resource that the source lacks
/// has exactly its own `Delete` entry.
proof fn lemma_target_entries_one<T: LooksLike>(s: Seq<T::V>, d: Seq<T::V>, k: int)
    requires
        keys_unique::<T>(d),
        0 <= k < d.len(),
        !in_seq::<T>(d[k], s),
    ensures
        entries_for::<T>(target_entries::<T>(s, d), d[k]) == seq![PlanView::Delete { target: d[k] }],
    decreases d.len(),
{
    let p = d.drop_last();
    let t = d.last();
    let x = d[k];
    T::lemma_same_is_equivalence(x, x, x);
    let tail: Seq<PlanView<T::V>> = if in_seq::<T>(t, s) { seq![] } else { seq![PlanView::Delete { target: t }] };
    lemma_entries_for_concat::<T>(target_entries::<T>(s, p), tail, x);
    if k == d.len() - 1 {
        lemma_entries_for_single::<T>(PlanView::Delete { target: t }, x);
        assert(entries_for::<T>(tail, x) =~= seq![PlanView::Delete { target: x }]);
        lemma_target_entries_other::<T>(s, p, x);
        assert(entries_for::<T>(target_entries::<T>(s, d), x) =~= seq![PlanView::Delete { target: x }]);
    } else {
        assert forall|a: int, b: int|
            0 <= a < p.len() && 0 <= b < p.len() && a != b implies !T::spec_same(#[trigger] p[a], #[trigger] p[b]) by {
            assert(p[a] == d[a] && p[b] == d[b]);
        }
        assert(p[k] == x);
        lemma_target_entries_one::<T>(s, p, k);
        assert(!T::spec_same(d[d.len() - 1], d[k]));
        if in_seq::<T>(t, s) {
            assert(tail =~= Seq::<PlanView<T::V>>::empty());
        } else {
            lemma_entries_for_single::<T>(PlanView::Delete { target: t }, x);
        }
        assert(entries_for::<T>(target_entries::<T>(s, d), x) =~= seq![PlanView::Delete { target: x }]);
    }
}

/// Before the last destination resource, nothing is about it (unique keys).
proof fn lemma_target_entries_other<T: LooksLike>(s: Seq<T::V>, d: Seq<T::V>, x: T::V)
    requires
        forall|k: int| 0 <= k < d.len() ==> !T::spec_same(#[trigger] d[k], x),
    ensures
        entries_for::<T>(target_entries::<T>(s, d), x) == Seq::<PlanView<T::V>>::empty(),
    decreases d.len(),
{
    if d.len() > 0 {
        let p = d.drop_last();
        let t = d.last();
        assert forall|k: int| 0 <= k < p.len() implies !T::spec_same(#[trigger] p[k], x) by {
            assert(p[k] == d[k]);
        }
        lemma_target_entries_other::<T>(s, p, x);
        let tail: Seq<PlanView<T::V>> = if in_seq::<T>(t, s) { seq![] } else { seq![PlanView::Delete { target: t }] };
        lemma_entries_for_concat::<T>(target_entries::<T>(s, p), tail, x);
        assert(!T::spec_same(d[d.len() - 1], x));
        if in_seq::<T>(t, s) {
            assert(tail =~= Seq::<PlanView<T::V>>::empty());
        } else {
            lemma_entries_for_single::<T>(PlanView::Delete { target: t }, x);
        }
        assert(entries_for::<T>(target_entries::<T>(s, d), x) =~= Seq::<PlanView<T::V>>::empty());
    }
}

/// Partition: with unique natural keys on each side, the plan has, for each
/// source resource, exactly one `Create` when the destination lacks it, exactly
/// one `Update` when the destination's copy differs, and nothing when it looks
/// alike; and, for each destination resource that the source lacks, exactly one
/// `Delete`. No entry is about any other resource.
pub proof fn lemma_plan_partitions<T: LooksLike>(s: Seq<T::V>, d: Seq<T::V>)
    requires
        keys_unique::<T>(s),
        keys_unique::<T>(d),
    ensures
        forall|i: int| #![trigger s[i]] 0 <= i < s.len() ==> {
            let x = s[i];
            let own = entries_for::<T>(reconcile_spec::<T>(s, d), x);
            match first_match::<T>(x, d) {
                None => own == seq![PlanView::Create { source: x }],
                Some(j) => if T::spec_diffs(x, d[j]).len() == 0 {
                    own.len() == 0
                } else {
                    own == seq![PlanView::Update { source: x, target: d[j] }]
                },
            }
        },
        forall|k: int| #![trigger d[k]] 0 <= k < d.len() && !in_seq::<T>(d[k], s) ==>
            entries_for::<T>(reconcile_spec::<T>(s, d), d[k]) == seq![PlanView::Delete { target: d[k] }],
        forall|k: int| 0 <= k < reconcile_spec::<T>(s, d).len() ==> in_seq::<T>(
            key_of(#[trigger] reconcile_spec::<T>(s, d)[k]),
            s,
        ) || in_seq::<T>(key_of(reconcile_spec::<T>(s, d)[k]), d),
{
    let p = reconcile_spec::<T>(s, d);
    let se = source_entries::<T>(s, d);
    let te = target_entries::<T>(s, d);
    lemma_source_entries_members::<T>(s, d);
    lemma_target_entries_members::<T>(s, d);
    assert forall|k: int| 0 <= k < p.len() implies in_seq::<T>(key_of(#[trigger] p[k]), s) || in_seq::<T>(
        key_of(p[k]),
        d,
    ) by {
        if k < se.len() {
            assert(p[k] == se[k]);
            let i = choose|i: int| 0 <= i < s.len() && source_entry::<T>(s[i], d) == seq![#[trigger] se[k]];
            assert(source_entry::<T>(s[i], d)[0] == se[k]);
            assert(key_of(se[k]) == s[i]);
            T::lemma_same_is_equivalence(s[i], s[i], s[i]);
        } else {
            assert(p[k] == te[k - se.len()]);
            let j = choose|j: int| 0 <= j < d.len() && #[trigger] te[k - se.len()] == PlanView::Delete { target: d[j] }
                && !in_seq::<T>(d[j], s);
            T::lemma_same_is_equivalence(d[j], d[j], d[j]);
        }
    }
    assert forall|i: int| #![trigger s[i]] 0 <= i < s.len() implies {
        let x = s[i];
        let own = entries_for::<T>(reconcile_spec::<T>(s, d), x);
        match first_match::<T>(x, d) {
            None => own == seq![PlanView::Create { source: x }],
            Some(j) => if T::spec_diffs(x, d[j]).len() == 0 {
                own.len() == 0
            } else {
                own == seq![PlanView::Update { source: x, target: d[j] }]
            },
        }
    } by {
        let x = s[i];
        lemma_entries_for_concat::<T>(source_entries::<T>(s, d), target_entries::<T>(s, d), x);
        lemma_source_entries_one::<T>(s, d, i);
        T::lemma_same_is_equivalence(x, x, x);
        assert(in_seq::<T>(x, s));
        lemma_target_entries_none::<T>(s, d, x);
        assert(entries_for::<T>(reconcile_spec::<T>(s, d), x) =~= source_entry::<T>(x, d));
    }
    assert forall|k: int| #![trigger d[k]] 0 <= k < d.len() && !in_seq::<T>(d[k], s) implies
        entries_for::<T>(reconcile_spec::<T>(s, d), d[k]) == seq![PlanView::Delete { target: d[k] }] by {
        let x = d[k];
        lemma_entries_for_concat::<T>(source_entries::<T>(s, d), target_entries::<T>(s, d), x);
        assert forall|i: int| 0 <= i < s.len() implies !T::spec_same(#[trigger] s[i], x) by {
            if T::spec_same(s[i], x) {
                assert(in_seq::<T>(x, s));
            }
        }
        lemma_source_entries_none::<T>(s, d, x);
        lemma_target_entries_one::<T>(s, d, k);
        assert(entries_for::<T>(reconcile_spec::<T>(s, d), x) =~= seq![PlanView::Delete { target: x }]);
    }
}

/// The destination resource an entry removes or replaces, if any.
pub open spec fn target_of<V>(e: PlanView<V>) -> Option<V> {
    match e {
        PlanView::Create { .. } => None,
        PlanView::Update { target, .. } => Some(target),
        PlanView::Delete { target } => Some(target),
    }
}

/// The resource an entry writes to the destination, if any.
pub open spec fn written_of<V>(e: PlanView<V>) -> Option<V> {
    match e {
        PlanView::Create { source } => Some(source),
        PlanView::Update { source, .. } => Some(source),
        PlanView::Delete { .. } => None,
    }
}

/// Whether some entry of `p` removes or replaces `y`.
pub open spec fn touched<V>(p: Seq<PlanView<V>>, y: V) -> bool {
    exists|k: int| 0 <= k < p.len() && target_of(#[trigger] p[k]) == Some(y)
}

/// The destination resources that no entry of `p` removes or replaces, in order.
pub open spec fn kept<V>(p: Seq<PlanView<V>>, d: Seq<V>) -> Seq<V>
    decreases d.len(),
{
    if d.len() == 0 {
        seq![]
    } else {
        kept(p, d.drop_last()) + if touched(p, d.last()) {
            seq![]
        } else {
            seq![d.last()]
        }
    }
}

/// The resources that the entries of `p` write, in plan order.
pub open spec fn written<V>(p: Seq<PlanView<V>>) -> Seq<V>
    decreases p.len(),
{
    if p.len() == 0 {
        seq![]
    } else {
        written(p.drop_last()) + match written_of(p.last()) {
            Some(v) => seq![v],
            None => seq![],
        }
    }
}

/// The destination after a plan is applied: what it kept, then what the plan
/// created or updated (as the source has it).
pub open spec fn apply_plan<V>(p: Seq<PlanView<V>>, d: Seq<V>) -> Seq<V> {
    kept(p, d) + written(p)
}

proof fn lemma_kept_members<V>(p: Seq<PlanView<V>>, d: Seq<V>)
    ensures
        forall|m: int| 0 <= m < kept(p, d).len() ==> exists|k: int|
            0 <= k < d.len() && #[trigger] kept(p, d)[m] == d[k] && !touched(p, d[k]),
        forall|k: int| 0 <= k < d.len() && !touched(p, #[trigger] d[k]) ==> kept(p, d).contains(d[k]),
    decreases d.len(),
{
    if d.len() > 0 {
        let q = d.drop_last();
        lemma_kept_members(p, q);
        let kq = kept(p, q);
        let kd = kept(p, d);
        assert forall|m: int| 0 <= m < kd.len() implies exists|k: int|
            0 <= k < d.len() && #[trigger] kd[m] == d[k] && !touched(p, d[k]) by {
            if m < kq.len() {
                assert(kd[m] == kq[m]);
                let k = choose|k: int| 0 <= k < q.len() && #[trigger] kq[m] == q[k] && !touched(p, q[k]);
                assert(d[k] == q[k]);
            } else {
                assert(kd[m] == d[d.len() - 1]);
            }
        }
        assert forall|k: int| 0 <= k < d.len() && !touched(p, #[trigger] d[k]) implies kd.contains(d[k]) by {
            if k < q.len() {
                assert(q[k] == d[k]);
                let m = choose|m: int| 0 <= m < kq.len() && kq[m] == q[k];
                assert(kd[m] == kq[m]);
            } else {
                assert(kd[kd.len() - 1] == d[k]);
            }
        }
    }
}

proof fn lemma_written_members<V>(p: Seq<PlanView<V>>)
    ensures
        forall|m: int| 0 <= m < written(p).len() ==> exists|k: int|
            0 <= k < p.len() && written_of(#[trigger] p[k]) == Some(#[trigger] written(p)[m]),
        forall|k: int| 0 <= k < p.len() && (#[trigger] written_of(p[k])) is Some ==> written(p).contains(
            written_of(p[k])->0,
        ),
    decreases p.len(),
{
    if p.len() > 0 {
        let q = p.drop_last();
        lemma_written_members(q);
        let wq = written(q);
        let wp = written(p);
        assert forall|m: int| 0 <= m < wp.len() implies exists|k: int|
            0 <= k < p.len() && written_of(#[trigger] p[k]) == Some(#[trigger] wp[m]) by {
            if m < wq.len() {
                assert(wp[m] == wq[m]);
                let k = choose|k: int| 0 <= k < q.len() && written_of(#[trigger] q[k]) == Some(#[trigger] wq[m]);
                assert(p[k] == q[k]);
            } else {
                assert(written_of(p[p.len() - 1]) == Some(wp[m]));
            }
        }
        assert forall|k: int| 0 <= k < p.len() && (#[trigger] written_of(p[k])) is Some implies wp.contains(
            written_of(p[k])->0,
        ) by {
            if k < q.len() {
                assert(q[k] == p[k]);
                let m = choose|m: int| 0 <= m < wq.len() && wq[m] == written_of(q[k])->0;
                assert(wp[m] == wq[m]);
            } else {
                assert(wp[wp.len() - 1] == written_of(p[k])->0);
            }
        }
    }
}

/// Every source entry comes from one source resource.
proof fn lemma_source_entries_members<T: LooksLike>(s: Seq<T::V>, d: Seq<T::V>)
    ensures
        forall|k: int| 0 <= k < source_entries::<T>(s, d).len() ==> exists|i: int|
            0 <= i < s.len() && source_entry::<T>(s[i], d) == seq![#[trigger] source_entries::<T>(s, d)[k]],
        forall|i: int| 0 <= i < s.len() && (#[trigger] source_entry::<T>(s[i], d)).len() == 1
            ==> source_entries::<T>(s, d).contains(source_entry::<T>(s[i], d)[0]),
    decreases s.len(),
{
    if s.len() > 0 {
        let q = s.drop_last();
        lemma_source_entries_members::<T>(q, d);
        let eq = source_entries::<T>(q, d);
        let es = source_entries::<T>(s, d);
        let last = source_entry::<T>(s.last(), d);
        assert(last.len() <= 1);
        assert forall|k: int| 0 <= k < es.len() implies exists|i: int|
            0 <= i < s.len() && source_entry::<T>(s[i], d) == seq![#[trigger] es[k]] by {
            if k < eq.len() {
                assert(es[k] == eq[k]);
                let i = choose|i: int| 0 <= i < q.len() && source_entry::<T>(q[i], d) == seq![#[trigger] eq[k]];
                assert(s[i] == q[i]);
            } else {
                assert(es[k] == last[0]);
                assert(last =~= seq![last[0]]);
                assert(s[s.len() - 1] == s.last());
            }
        }
        assert forall|i: int| 0 <= i < s.len() && (#[trigger] source_entry::<T>(s[i], d)).len() == 1
            implies es.contains(source_entry::<T>(s[i], d)[0]) by {
            if i < q.len() {
                assert(q[i] == s[i]);
                let m = choose|m: int| 0 <= m < eq.len() && eq[m] == source_entry::<T>(q[i], d)[0];
                assert(es[m] == eq[m]);
            } else {
                assert(es[es.len() - 1] == last[0]);
            }
        }
    }
}

/// Every target entry deletes a destination resource that the source lacks, and
/// each such resource is deleted.
proof fn lemma_target_entries_members<T: LooksLike>(s: Seq<T::V>, d: Seq<T::V>)
    ensures
        forall|k: int| 0 <= k < target_entries::<T>(s, d).len() ==> exists|j: int|
            0 <= j < d.len() && #[trigger] target_entries::<T>(s, d)[k] == (PlanView::Delete { target: d[j] })
                && !in_seq::<T>(d[j], s),
        forall|j: int| 0 <= j < d.len() && !in_seq::<T>(#[trigger] d[j], s) ==> target_entries::<T>(s, d).contains(
            (PlanView::Delete { target: d[j] }),
        ),
    decreases d.len(),
{
    if d.len() > 0 {
        let q = d.drop_last();
        lemma_target_entries_members::<T>(s, q);
        let tq = target_entries::<T>(s, q);
        let td = target_entries::<T>(s, d);
        assert forall|k: int| 0 <= k < td.len() implies exists|j: int|
            0 <= j < d.len() && #[trigger] td[k] == PlanView::Delete { target: d[j] } && !in_seq::<T>(d[j], s) by {
            if k < tq.len() {
                assert(td[k] == tq[k]);
                let j = choose|j: int| 0 <= j < q.len() && #[trigger] tq[k] == PlanView::Delete { target: q[j] } && !in_seq::<T>(q[j], s);
                assert(d[j] == q[j]);
            } else {
                assert(td[k] == PlanView::Delete { target: d[d.len() - 1] });
            }
        }
        assert forall|j: int| 0 <= j < d.len() && !in_seq::<T>(#[trigger] d[j], s) implies td.contains(
            PlanView::Delete { target: d[j] },
        ) by {
            if j < q.len() {
                assert(q[j] == d[j]);
                let m = choose|m: int| 0 <= m < tq.len() && tq[m] == PlanView::Delete { target: q[j] };
                assert(td[m] == tq[m]);
            } else {
                assert(td[td.len() - 1] == PlanView::Delete { target: d[j] });
            }
        }
    }
}

proof fn lemma_first_match_some<T: LooksLike>(x: T::V, d: Seq<T::V>)
    requires
        in_seq::<T>(x, d),
    ensures
        first_match::<T>(x, d) is Some,
{
    let w = choose|w: int| 0 <= w < d.len() && T::spec_same(#[trigger] d[w], x);
    lemma_first_match_exists::<T>(x, d, w);
}

proof fn lemma_first_match_exists<T: LooksLike>(x: T::V, d: Seq<T::V>, w: int)
    requires
        0 <= w < d.len(),
        T::spec_same(d[w], x),
    ensures
        exists|j: int| is_first_match::<T>(x, d, j),
    decreases w,
{
    if exists|l: int| 0 <= l < w && T::spec_same(#[trigger] d[l], x) {
        let l = choose|l: int| 0 <= l < w && T::spec_same(#[trigger] d[l], x);
        lemma_first_match_exists::<T>(x, d, l);
    } else {
        assert(is_first_match::<T>(x, d, w));
    }
}

proof fn lemma_source_entries_empty<T: LooksLike>(s: Seq<T::V>, d: Seq<T::V>)
    requires
        forall|i: int| 0 <= i < s.len() ==> (#[trigger] source_entry::<T>(s[i], d)).len() == 0,
    ensures
        source_entries::<T>(s, d).len() == 0,
    decreases s.len(),
{
    if s.len() > 0 {
        let q = s.drop_last();
        assert forall|i: int| 0 <= i < q.len() implies (#[trigger] source_entry::<T>(q[i], d)).len() == 0 by {
            assert(q[i] == s[i]);
        }
        lemma_source_entries_empty::<T>(q, d);
        assert(source_entry::<T>(s[s.len() - 1], d).len() == 0);
    }
}

proof fn lemma_target_entries_empty<T: LooksLike>(s: Seq<T::V>, d: Seq<T::V>)
    requires
        forall|j: int| 0 <= j < d.len() ==> in_seq::<T>(#[trigger] d[j], s),
    ensures
        target_entries::<T>(s, d).len() == 0,
    decreases d.len(),
{
    if d.len() > 0 {
        let q = d.drop_last();
        assert forall|j: int| 0 <= j < q.len() implies in_seq::<T>(#[trigger] q[j], s) by {
            assert(q[j] == d[j]);
        }
        lemma_target_entries_empty::<T>(s, q);
        assert(in_seq::<T>(d[d.len() - 1], s));
    }
}

/// Idempotence: with unique natural keys on each side and well-formed source
/// resources, once the plan of `s`
/// against `d` is applied to `d`, the plan of `s` against the result is empty.
pub proof fn lemma_reconcile_idempotent<T: LooksLike>(s: Seq<T::V>, d: Seq<T::V>)
    requires
        keys_unique::<T>(s),
        forall|i: int| 0 <= i < s.len() ==> T::spec_wf(#[trigger] s[i]),
        keys_unique::<T>(d),
    ensures
        reconcile_spec::<T>(s, apply_plan(reconcile_spec::<T>(s, d), d)).len() == 0,
{
    let p = reconcile_spec::<T>(s, d);
    let se = source_entries::<T>(s, d);
    let te = target_entries::<T>(s, d);
    let kp = kept(p, d);
    let wp = written(p);
    let d2 = apply_plan(p, d);
    lemma_kept_members(p, d);
    lemma_written_members(p);
    lemma_source_entries_members::<T>(s, d);
    lemma_target_entries_members::<T>(s, d);
    // Where an entry of the plan comes from.
    assert forall|k: int| 0 <= k < p.len() implies
        (exists|i: int| 0 <= i < s.len() && source_entry::<T>(s[i], d) == seq![#[trigger] p[k]])
        || (exists|j: int| 0 <= j < d.len() && #[trigger] p[k] == PlanView::Delete { target: d[j] }
            && !in_seq::<T>(d[j], s)) by {
        if k < se.len() {
            assert(p[k] == se[k]);
        } else {
            assert(p[k] == te[k - se.len()]);
        }
    }
    // Every resource of the applied destination is in the source, and each one
    // that is the same resource as a source resource looks like it.
    assert forall|m: int| 0 <= m < d2.len() implies {
        &&& in_seq::<T>(#[trigger] d2[m], s)
        &&& forall|i: int| 0 <= i < s.len() && T::spec_same(d2[m], #[trigger] s[i]) ==> T::spec_diffs(s[i], d2[m]).len() == 0
    } by {
        let y = d2[m];
        if m < kp.len() {
            assert(y == kp[m]);
            let k = choose|k: int| 0 <= k < d.len() && #[trigger] kp[m] == d[k] && !touched(p, d[k]);
            if !in_seq::<T>(y, s) {
                let t = choose|t: int| 0 <= t < te.len() && te[t] == PlanView::Delete { target: d[k] };
                assert(p[se.len() + t] == te[t]);
                assert(target_of(p[se.len() + t]) == Some(y));
            }
            assert forall|i: int| 0 <= i < s.len() && T::spec_same(y, #[trigger] s[i]) implies T::spec_diffs(s[i], y).len() == 0 by {
                T::lemma_same_is_equivalence(y, s[i], y);
                T::lemma_same_is_equivalence(s[i], y, s[i]);
                assert(in_seq::<T>(s[i], d));
                lemma_first_match_some::<T>(s[i], d);
                let j = first_match::<T>(s[i], d)->0;
                let c = choose|j: int| is_first_match::<T>(s[i], d, j);
                assert(is_first_match::<T>(s[i], d, c));
                assert(j == c);
                T::lemma_same_is_equivalence(d[j], s[i], d[k]);
                if j != k {
                    assert(!T::spec_same(d[j], d[k]));
                }
                assert(j == k);
                if T::spec_diffs(s[i], d[j]).len() != 0 {
                    let e = source_entry::<T>(s[i], d)[0];
                    assert(source_entry::<T>(s[i], d).len() == 1);
                    let w = choose|w: int| 0 <= w < se.len() && se[w] == e;
                    assert(p[w] == se[w]);
                    assert(target_of(p[w]) == Some(y));
                }
            }
        } else {
            let wi = m - kp.len();
            assert(y == wp[wi]);
            let k = choose|k: int| 0 <= k < p.len() && written_of(#[trigger] p[k]) == Some(#[trigger] wp[wi]);
            if k < se.len() {
                assert(p[k] == se[k]);
                let i = choose|i: int| 0 <= i < s.len() && source_entry::<T>(s[i], d) == seq![#[trigger] se[k]];
                assert(y == s[i]);
                T::lemma_same_is_equivalence(y, y, y);
                assert(in_seq::<T>(y, s));
                assert forall|l: int| 0 <= l < s.len() && T::spec_same(y, #[trigger] s[l]) implies T::spec_diffs(s[l], y).len() == 0 by {
                    if l != i {
                        T::lemma_same_is_equivalence(s[l], s[i], s[l]);
                        assert(!T::spec_same(s[l], s[i]));
                    }
                    T::lemma_no_self_difference(y);
                }
            } else {
                assert(p[k] == te[k - se.len()]);
                let j = choose|j: int| 0 <= j < d.len() && #[trigger] te[k - se.len()] == PlanView::Delete { target: d[j] }
                    && !in_seq::<T>(d[j], s);
                assert(written_of(p[k]) is None);
            }
        }
    }
    // Each source resource finds a look-alike in the applied destination.
    assert forall|i: int| 0 <= i < s.len() implies (#[trigger] source_entry::<T>(s[i], d2)).len() == 0 by {
        let x = s[i];
        T::lemma_same_is_equivalence(x, x, x);
        let e = source_entry::<T>(x, d);
        let found: int = if e.len() == 1 {
            let w = choose|w: int| 0 <= w < se.len() && se[w] == e[0];
            assert(p[w] == se[w]);
            assert(written_of(p[w]) == Some(x));
            let m = choose|m: int| 0 <= m < wp.len() && wp[m] == x;
            assert(d2[kp.len() + m] == x);
            kp.len() + m
        } else {
            assert(in_seq::<T>(x, d));
            lemma_first_match_some::<T>(x, d);
            let j = first_match::<T>(x, d)->0;
            let c = choose|j: int| is_first_match::<T>(x, d, j);
            assert(is_first_match::<T>(x, d, c));
            if touched(p, d[j]) {
                let k = choose|k: int| 0 <= k < p.len() && target_of(#[trigger] p[k]) == Some(d[j]);
                if exists|l: int| 0 <= l < s.len() && source_entry::<T>(s[l], d) == seq![#[trigger] p[k]] {
                    let l = choose|l: int| 0 <= l < s.len() && source_entry::<T>(s[l], d) == seq![#[trigger] p[k]];
                    let jl = first_match::<T>(s[l], d)->0;
                    let cl = choose|j: int| is_first_match::<T>(s[l], d, j);
                    assert(is_first_match::<T>(s[l], d, cl));
                    T::lemma_same_is_equivalence(d[j], s[l], x);
                    T::lemma_same_is_equivalence(s[l], d[j], x);
                    if l != i {
                        assert(!T::spec_same(s[l], s[i]));
                    }
                } else {
                    let t = choose|t: int| 0 <= t < d.len() && #[trigger] p[k] == PlanView::Delete { target: d[t] }
                        && !in_seq::<T>(d[t], s);
                    T::lemma_same_is_equivalence(x, d[j], x);
                    assert(T::spec_same(s[i], d[t]));
                }
            }
            let m = choose|m: int| 0 <= m < kp.len() && kp[m] == d[j];
            assert(d2[m] == d[j]);
            m
        };
        assert(0 <= found < d2.len() && T::spec_same(d2[found], x));
        lemma_first_match_exists::<T>(x, d2, found);
        let f = choose|j: int| is_first_match::<T>(x, d2, j);
        assert(is_first_match::<T>(x, d2, f));
        T::lemma_same_is_equivalence(d2[f], x, d2[f]);
        assert(T::spec_diffs(x, d2[f]).len() == 0);
    }
    lemma_source_entries_empty::<T>(s, d2);
    lemma_target_entries_empty::<T>(s, d2);
}

} // verus!
