//! Grouped aggregation over a stream of row-level deltas: per-group
//! accumulators, and the smallest correct output delta for every incoming
//! insert, update or delete.
//!
//! Additive aggregates (SUM, COUNT, AVG) keep O(1) numeric state. Extremal
//! aggregates (MIN, MAX) keep the multiset of contributing values, because
//! retracting the current extremum needs the next candidate.

use vstd::prelude::*;

use crate::alist::{
    alist_map, keys_distinct, lemma_alist_contains, lemma_alist_index, lemma_alist_push,
    lemma_alist_remove,
};
use crate::errors::AggregationError;
use crate::fields::{
    field_eq, field_le, field_le_exec, field_wf, is_orderable_exec, is_wf_exec, lemma_field_le_refl,
    lemma_field_le_total, lemma_field_le_trans, orderable, same_variant, same_variant_exec, Field,
    FieldV,
};
use crate::records::{
    clone_fields, fields_eq, get_primary_key, spec_primary_key, Operation, OperationV, Record,
    RecordV,
};

verus! {

use vstd::multiset::Multiset;

broadcast use vstd::seq_lib::group_to_multiset_ensures;

/// The aggregate functions the operator maintains.
#[derive(Clone, Copy, PartialEq, Eq, Structural, Debug)]
pub enum AggregateKind {
    Sum,
    Count,
    Avg,
    Min,
    Max,
}

/// Sum of a sequence of integer fields (non-integers count as zero; the
/// accumulator invariant keeps them out).
pub open spec fn sum_ints(s: Seq<FieldV>) -> int
    decreases s.len(),
{
    if s.len() == 0 {
        0
    } else {
        sum_ints(s.drop_last()) + int_of(s.last())
    }
}

pub open spec fn int_of(v: FieldV) -> int {
    match v {
        FieldV::Int(x) => x,
        _ => 0,
    }
}

/// Integer division truncating toward zero.
pub open spec fn trunc_div(s: int, c: int) -> int {
    if s >= 0 {
        s / c
    } else {
        -((-s) / c)
    }
}

/// `v` is a maximum of the multiset `m`.
pub open spec fn is_max_of(m: Multiset<FieldV>, v: FieldV) -> bool {
    &&& m.contains(v)
    &&& forall|x: FieldV| m.contains(x) ==> field_le(x, v)
}

/// `v` is a minimum of the multiset `m`.
pub open spec fn is_min_of(m: Multiset<FieldV>, v: FieldV) -> bool {
    &&& m.contains(v)
    &&& forall|x: FieldV| m.contains(x) ==> field_le(v, x)
}

/// `v` is the value a group with live measures `ms` currently reports.
pub open spec fn agg_value_ok(kind: AggregateKind, ms: Seq<FieldV>, v: FieldV) -> bool {
    match kind {
        AggregateKind::Sum => v == FieldV::Int(sum_ints(ms)),
        AggregateKind::Count => v == FieldV::UInt(ms.len() as int),
        AggregateKind::Avg => ms.len() > 0 && v == FieldV::Int(
            trunc_div(sum_ints(ms), ms.len() as int),
        ),
        AggregateKind::Min => is_min_of(ms.to_multiset(), v),
        AggregateKind::Max => is_max_of(ms.to_multiset(), v),
    }
}

/// Whether a measure value can join a group whose live measures are `ms`.
pub open spec fn measure_ok(kind: AggregateKind, ms: Seq<FieldV>, v: FieldV) -> bool {
    match kind {
        AggregateKind::Sum | AggregateKind::Avg => v is Int,
        AggregateKind::Count => true,
        AggregateKind::Min | AggregateKind::Max => orderable(v) && field_wf(v) && (ms.len() == 0
            || same_variant(ms[0], v)),
    }
}

/// Per-group accumulator state. `sum` and `count` carry the additive
/// kinds; `values` carries the contributing values for the extremal
/// kinds; `history` is the ghost multiset of live measures that every
/// kind is proved against.
pub struct Accumulator {
    pub sum: i64,
    pub count: u64,
    pub values: Vec<Field>,
    pub history: Ghost<Seq<FieldV>>,
}

impl Accumulator {
    /// The live measures this accumulator stands for.
    pub open spec fn measures(&self) -> Seq<FieldV> {
        self.history@
    }

    /// The numeric state is exactly a from-scratch recomputation over the
    /// live measures, and the extremal state mirrors them.
    pub open spec fn wf(&self, kind: AggregateKind) -> bool {
        &&& self.count == self.history@.len()
        &&& match kind {
            AggregateKind::Sum | AggregateKind::Avg => {
                &&& self.sum == sum_ints(self.history@)
                &&& forall|i: int| 0 <= i < self.history@.len() ==> (#[trigger] self.history@[i]) is Int
                &&& self.values@.len() == 0
            },
            AggregateKind::Count => self.values@.len() == 0,
            AggregateKind::Min | AggregateKind::Max => {
                &&& self.values.deep_view() == self.history@
                &&& extremal_props(self.history@)
            },
        }
    }
}

/// The values an extremal accumulator may hold: orderable,
/// machine-representable, and all of one variant.
pub open spec fn extremal_props(s: Seq<FieldV>) -> bool {
    &&& forall|i: int| 0 <= i < s.len() ==> orderable(#[trigger] s[i]) && field_wf(s[i])
    &&& forall|i: int, j: int|
        0 <= i < s.len() && 0 <= j < s.len() ==> same_variant(#[trigger] s[i], #[trigger] s[j])
}

pub proof fn lemma_extremal_props_push(s: Seq<FieldV>, v: FieldV)
    requires
        extremal_props(s),
        orderable(v),
        field_wf(v),
        s.len() == 0 || same_variant(s[0], v),
    ensures
        extremal_props(s.push(v)),
{
    let t = s.push(v);
    assert forall|i: int| 0 <= i < t.len() implies orderable(#[trigger] t[i]) && field_wf(t[i]) by {
        if i < s.len() {
            assert(t[i] == s[i]);
        }
    }
    assert forall|i: int, j: int| 0 <= i < t.len() && 0 <= j < t.len() implies same_variant(
        #[trigger] t[i],
        #[trigger] t[j],
    ) by {
        if i < s.len() && j < s.len() {
            assert(t[i] == s[i] && t[j] == s[j]);
        } else if i < s.len() {
            assert(t[i] == s[i] && t[j] == v);
            assert(same_variant(s[0], s[i]));
        } else if j < s.len() {
            assert(t[i] == v && t[j] == s[j]);
            assert(same_variant(s[0], s[j]));
        }
    }
}

pub proof fn lemma_extremal_props_remove(s: Seq<FieldV>, k: int)
    requires
        extremal_props(s),
        0 <= k < s.len(),
    ensures
        extremal_props(s.remove(k)),
{
    let t = s.remove(k);
    assert forall|i: int| 0 <= i < t.len() implies orderable(#[trigger] t[i]) && field_wf(t[i]) by {
        if i < k {
            assert(t[i] == s[i]);
        } else {
            assert(t[i] == s[i + 1]);
        }
    }
    assert forall|i: int, j: int| 0 <= i < t.len() && 0 <= j < t.len() implies same_variant(
        #[trigger] t[i],
        #[trigger] t[j],
    ) by {
        let i0 = if i < k {
            i
        } else {
            i + 1
        };
        let j0 = if j < k {
            j
        } else {
            j + 1
        };
        assert(t[i] == s[i0] && t[j] == s[j0]);
        assert(same_variant(s[i0], s[j0]));
    }
}

/// Truncating division of the additive state, written over unsigned
/// division on the magnitude.
fn div_trunc(sum: i64, count: u64) -> (r: i64)
    requires
        count > 0,
    ensures
        r == trunc_div(sum as int, count as int),
{
    if sum >= 0 {
        let q = (sum as u64) / count;
        q as i64
    } else {
        let m: u64 = ((-(sum as i128)) as u64);
        let q = m / count;
        proof {
            assert(q <= m);
            assert((-(sum as int)) / (count as int) <= (-(sum as int)) / 1int) by (nonlinear_arith)
                requires
                    count >= 1,
                    sum < 0,
            {
            }
        }
        if q > 0x7fff_ffff_ffff_ffff {
            // only reachable for the most negative sum at count 1
            i64::MIN
        } else {
            -(q as i64)
        }
    }
}

/// The current aggregate value of a non-empty group.
fn acc_value(kind: AggregateKind, acc: &Accumulator) -> (r: Field)
    requires
        acc.wf(kind),
        acc.measures().len() > 0,
    ensures
        agg_value_ok(kind, acc.measures(), r@),
        field_wf(r@),
{
    match kind {
        AggregateKind::Sum => Field::Int(acc.sum),
        AggregateKind::Count => Field::UInt(acc.count),
        AggregateKind::Avg => Field::Int(div_trunc(acc.sum, acc.count)),
        AggregateKind::Min => extremum(&acc.values, false),
        AggregateKind::Max => extremum(&acc.values, true),
    }
}

/// Scan the contributing values for the extremum.
fn extremum(values: &Vec<Field>, maximize: bool) -> (r: Field)
    requires
        values.deep_view().len() > 0,
        extremal_props(values.deep_view()),
    ensures
        maximize ==> is_max_of(values.deep_view().to_multiset(), r@),
        !maximize ==> is_min_of(values.deep_view().to_multiset(), r@),
        field_wf(r@),
{
    let ghost dv = values.deep_view();
    let mut best: usize = 0;
    let mut i: usize = 1;
    proof {
        assert(dv[0] == values@[0]@);
        lemma_field_le_refl(dv[0]);
    }
    while i < values.len()
        invariant
            dv == values.deep_view(),
            dv.len() == values@.len(),
            forall|k: int| 0 <= k < dv.len() ==> orderable(#[trigger] dv[k]) && field_wf(dv[k]),
            forall|k: int, j: int|
                0 <= k < dv.len() && 0 <= j < dv.len() ==> same_variant(
                    #[trigger] dv[k],
                    #[trigger] dv[j],
                ),
            best < i <= dv.len(),
            maximize ==> forall|k: int| 0 <= k < i ==> field_le(#[trigger] dv[k], dv[best as int]),
            !maximize ==> forall|k: int| 0 <= k < i ==> field_le(dv[best as int], #[trigger] dv[k]),
        decreases dv.len() - i,
    {
        proof {
            assert(dv[i as int] == values@[i as int]@);
            assert(dv[best as int] == values@[best as int]@);
        }
        let better = if maximize {
            field_le_exec(&values[best], &values[i])
        } else {
            field_le_exec(&values[i], &values[best])
        };
        if better {
            proof {
                if maximize {
                    assert forall|k: int| 0 <= k < i + 1 implies field_le(
                        #[trigger] dv[k],
                        dv[i as int],
                    ) by {
                        if k < i {
                            lemma_field_le_trans(dv[k], dv[best as int], dv[i as int]);
                        } else {
                            lemma_field_le_refl(dv[i as int]);
                        }
                    }
                } else {
                    assert forall|k: int| 0 <= k < i + 1 implies field_le(
                        dv[i as int],
                        #[trigger] dv[k],
                    ) by {
                        if k < i {
                            lemma_field_le_trans(dv[i as int], dv[best as int], dv[k]);
                        } else {
                            lemma_field_le_refl(dv[i as int]);
                        }
                    }
                }
            }
            best = i;
        } else {
            proof {
                lemma_field_le_total(dv[best as int], dv[i as int]);
            }
        }
        i = i + 1;
    }
    let r = values[best].clone();
    proof {
        assert(dv[best as int] == values@[best as int]@);
        assert(dv.to_multiset().contains(r@)) by {
            assert(dv.contains(r@));
        }
        assert forall|x: FieldV| dv.to_multiset().contains(x) implies (if maximize {
            field_le(x, r@)
        } else {
            field_le(r@, x)
        }) by {
            assert(dv.contains(x));
            let k = choose|k: int| 0 <= k < dv.len() && dv[k] == x;
            assert(maximize ==> field_le(dv[k], dv[best as int]));
            assert(!maximize ==> field_le(dv[best as int], dv[k]));
        }
    }
    r
}

/// The output row of a group: the key columns followed by the aggregate
/// value.
pub open spec fn group_row(g: Seq<FieldV>, v: FieldV) -> RecordV {
    RecordV { schema_id: None, values: g.push(v), version: None }
}

/// The group key of an incoming row.
pub open spec fn group_key_of(gb: Seq<usize>, rec: RecordV) -> Seq<FieldV> {
    spec_primary_key(gb, rec.values)
}

/// The live measures of a group, empty if the group is absent.
pub open spec fn ms_of(b: Map<Seq<FieldV>, Seq<FieldV>>, g: Seq<FieldV>) -> Seq<FieldV> {
    if b.dom().contains(g) {
        b[g]
    } else {
        Seq::empty()
    }
}

pub open spec fn in_i64(x: int) -> bool {
    i64::MIN <= x <= i64::MAX
}

/// `out` is an Update delta of group `g` carrying the group's value
/// before (over measures `bms`) and after (over measures `ams`).
pub open spec fn out_update_ok(
    kind: AggregateKind,
    bms: Seq<FieldV>,
    ams: Seq<FieldV>,
    g: Seq<FieldV>,
    out: OperationV,
) -> bool {
    match out {
        OperationV::Update { old, new } => {
            &&& old == group_row(g, old.values.last())
            &&& agg_value_ok(kind, bms, old.values.last())
            &&& new == group_row(g, new.values.last())
            &&& agg_value_ok(kind, ams, new.values.last())
        },
        _ => false,
    }
}

/// `out` is an Insert delta announcing a new group `g` with measures
/// `ams`.
pub open spec fn out_insert_ok(
    kind: AggregateKind,
    ams: Seq<FieldV>,
    g: Seq<FieldV>,
    out: OperationV,
) -> bool {
    match out {
        OperationV::Insert { new } => {
            &&& new == group_row(g, new.values.last())
            &&& agg_value_ok(kind, ams, new.values.last())
        },
        _ => false,
    }
}

/// `out` is a Delete delta retiring group `g`, carrying its last value
/// (over measures `bms`).
pub open spec fn out_delete_ok(
    kind: AggregateKind,
    bms: Seq<FieldV>,
    g: Seq<FieldV>,
    out: OperationV,
) -> bool {
    match out {
        OperationV::Delete { old } => {
            &&& old == group_row(g, old.values.last())
            &&& agg_value_ok(kind, bms, old.values.last())
        },
        _ => false,
    }
}

/// Folding measure `v` into group `g` turns the group map `b` into `a`
/// and emits exactly the announced delta: an Insert for a new group, an
/// Update for an existing one.
pub open spec fn insert_step_ok(
    kind: AggregateKind,
    b: Map<Seq<FieldV>, Seq<FieldV>>,
    a: Map<Seq<FieldV>, Seq<FieldV>>,
    g: Seq<FieldV>,
    v: FieldV,
    outs: Seq<OperationV>,
) -> bool {
    &&& a.dom().contains(g)
    &&& a == b.insert(g, a[g])
    &&& outs.len() == 1
    &&& if b.dom().contains(g) {
        &&& a[g].to_multiset() == b[g].to_multiset().insert(v)
        &&& out_update_ok(kind, b[g], a[g], g, outs[0])
    } else {
        &&& a[g].to_multiset() == Multiset::<FieldV>::empty().insert(v)
        &&& out_insert_ok(kind, a[g], g, outs[0])
    }
}

/// Retracting measure `v` from group `g` turns `b` into `a` and emits a
/// Delete exactly when the group becomes empty, else an Update.
pub open spec fn delete_step_ok(
    kind: AggregateKind,
    b: Map<Seq<FieldV>, Seq<FieldV>>,
    a: Map<Seq<FieldV>, Seq<FieldV>>,
    g: Seq<FieldV>,
    v: FieldV,
    outs: Seq<OperationV>,
) -> bool {
    &&& b.dom().contains(g)
    &&& outs.len() == 1
    &&& if b[g].len() == 1 {
        &&& a == b.remove(g)
        &&& out_delete_ok(kind, b[g], g, outs[0])
    } else {
        &&& a.dom().contains(g)
        &&& a == b.insert(g, a[g])
        &&& a[g].to_multiset() == b[g].to_multiset().remove(v)
        &&& out_update_ok(kind, b[g], a[g], g, outs[0])
    }
}

/// Replacing measure `vold` by `vnew` inside one group `g` (an update
/// that keeps its group key) turns `b` into `a` and emits a single
/// Update.
pub open spec fn replace_step_ok(
    kind: AggregateKind,
    b: Map<Seq<FieldV>, Seq<FieldV>>,
    a: Map<Seq<FieldV>, Seq<FieldV>>,
    g: Seq<FieldV>,
    vold: FieldV,
    vnew: FieldV,
    outs: Seq<OperationV>,
) -> bool {
    &&& b.dom().contains(g)
    &&& a.dom().contains(g)
    &&& a == b.insert(g, a[g])
    &&& a[g].to_multiset() == b[g].to_multiset().remove(vold).insert(vnew)
    &&& outs.len() == 1
    &&& out_update_ok(kind, b[g], a[g], g, outs[0])
}

/// What one successfully processed delta does: the new group map and the
/// exact emitted deltas. A cross-group update contributes its new-group
/// delta first, then the old-group delta.
pub open spec fn agg_step_ok(
    kind: AggregateKind,
    b: Map<Seq<FieldV>, Seq<FieldV>>,
    a: Map<Seq<FieldV>, Seq<FieldV>>,
    opv: OperationV,
    outs: Seq<OperationV>,
    gb: Seq<usize>,
    m: int,
) -> bool {
    match opv {
        OperationV::Insert { new } => insert_step_ok(
            kind,
            b,
            a,
            group_key_of(gb, new),
            new.values[m],
            outs,
        ),
        OperationV::Delete { old } => delete_step_ok(
            kind,
            b,
            a,
            group_key_of(gb, old),
            old.values[m],
            outs,
        ),
        OperationV::Update { old, new } => {
            let go = group_key_of(gb, old);
            let gn = group_key_of(gb, new);
            if go == gn {
                replace_step_ok(kind, b, a, go, old.values[m], new.values[m], outs)
            } else {
                let mid = b.insert(gn, a[gn]);
                &&& a.dom().contains(gn)
                &&& outs.len() == 2
                &&& insert_step_ok(kind, b, mid, gn, new.values[m], outs.take(1))
                &&& delete_step_ok(kind, mid, a, go, old.values[m], outs.skip(1))
            }
        },
        OperationV::BatchInsert { .. } => false,
    }
}

/// The error, if any, that folding `v` into a group with measures `ms`
/// reports: a type mismatch, or leaving the numeric range.
pub open spec fn insert_err(kind: AggregateKind, ms: Seq<FieldV>, v: FieldV) -> Option<
    AggregationError,
> {
    if !measure_ok(kind, ms, v) {
        Some(AggregationError::TypeMismatch)
    } else if ms.len() >= u64::MAX {
        Some(AggregationError::Overflow)
    } else if (kind == AggregateKind::Sum || kind == AggregateKind::Avg) && !in_i64(
        sum_ints(ms) + int_of(v),
    ) {
        Some(AggregationError::Overflow)
    } else {
        None
    }
}

/// The error, if any, that retracting `v` from a group with measures
/// `ms` reports.
pub open spec fn delete_err(kind: AggregateKind, ms: Seq<FieldV>, v: FieldV) -> Option<
    AggregationError,
> {
    if (kind == AggregateKind::Sum || kind == AggregateKind::Avg) && !in_i64(
        sum_ints(ms) - int_of(v),
    ) {
        Some(AggregationError::Overflow)
    } else {
        None
    }
}

/// The error, if any, that replacing `vold` by `vnew` inside a group
/// with measures `ms` reports.
pub open spec fn replace_err(
    kind: AggregateKind,
    ms: Seq<FieldV>,
    vold: FieldV,
    vnew: FieldV,
) -> Option<AggregationError> {
    let remaining = if ms.len() == 1 {
        Seq::<FieldV>::empty()
    } else {
        ms
    };
    if !measure_ok(kind, remaining, vnew) {
        Some(AggregationError::TypeMismatch)
    } else if (kind == AggregateKind::Sum || kind == AggregateKind::Avg) && !in_i64(
        sum_ints(ms) - int_of(vold) + int_of(vnew),
    ) {
        Some(AggregationError::Overflow)
    } else {
        None
    }
}

/// The error, if any, that a whole delta reports against the group map
/// `b`. For a cross-group update the new group's check comes first.
pub open spec fn agg_op_err(
    kind: AggregateKind,
    b: Map<Seq<FieldV>, Seq<FieldV>>,
    opv: OperationV,
    gb: Seq<usize>,
    m: int,
) -> Option<AggregationError> {
    match opv {
        OperationV::Insert { new } => insert_err(
            kind,
            ms_of(b, group_key_of(gb, new)),
            new.values[m],
        ),
        OperationV::Delete { old } => delete_err(
            kind,
            ms_of(b, group_key_of(gb, old)),
            old.values[m],
        ),
        OperationV::Update { old, new } => {
            let go = group_key_of(gb, old);
            let gn = group_key_of(gb, new);
            if go == gn {
                replace_err(kind, ms_of(b, go), old.values[m], new.values[m])
            } else if insert_err(kind, ms_of(b, gn), new.values[m]) is Some {
                insert_err(kind, ms_of(b, gn), new.values[m])
            } else {
                delete_err(kind, ms_of(b, go), old.values[m])
            }
        },
        OperationV::BatchInsert { .. } => None,
    }
}

/// Appending a measure adds it to the sum.
pub proof fn lemma_sum_push(s: Seq<FieldV>, v: FieldV)
    ensures
        sum_ints(s.push(v)) == sum_ints(s) + int_of(v),
{
    assert(s.push(v).drop_last() =~= s);
}

/// Removing a measure subtracts it from the sum.
pub proof fn lemma_sum_remove(s: Seq<FieldV>, i: int)
    requires
        0 <= i < s.len(),
    ensures
        sum_ints(s.remove(i)) == sum_ints(s) - int_of(s[i]),
    decreases s.len(),
{
    if i == s.len() - 1 {
        assert(s.remove(i) =~= s.drop_last());
    } else {
        assert(s.remove(i).drop_last() =~= s.drop_last().remove(i));
        assert(s.remove(i).last() == s.last());
        lemma_sum_remove(s.drop_last(), i);
        assert(s.drop_last()[i] == s[i]);
    }
}

/// An empty accumulator, ready for its first measure.
fn acc_empty() -> (r: Accumulator)
    ensures
        forall|kind: AggregateKind| r.wf(kind),
        r.measures() == Seq::<FieldV>::empty(),
{
    let r = Accumulator { sum: 0, count: 0, values: Vec::new(), history: Ghost(Seq::empty()) };
    proof {
        assert(r.values.deep_view() =~= Seq::<FieldV>::empty());
    }
    r
}

/// Read the integer payload of an integer measure.
fn int_value(v: &Field) -> (r: i64)
    requires
        v@ is Int,
    ensures
        r == int_of(v@),
{
    match v {
        Field::Int(x) => *x,
        _ => {
            proof {
                assert(false);
            }
            0
        },
    }
}

/// Fold one measure into an accumulator.
fn acc_push(kind: AggregateKind, acc: Accumulator, v: &Field) -> (r: Accumulator)
    requires
        acc.wf(kind),
        measure_ok(kind, acc.measures(), v@),
        acc.measures().len() < u64::MAX,
        (kind == AggregateKind::Sum || kind == AggregateKind::Avg) ==> in_i64(
            sum_ints(acc.measures()) + int_of(v@),
        ),
    ensures
        r.wf(kind),
        r.measures() == acc.measures().push(v@),
{
    let ghost h = acc.history@;
    proof {
        lemma_sum_push(h, v@);
    }
    let mut acc = acc;
    match kind {
        AggregateKind::Sum | AggregateKind::Avg => {
            let x = int_value(v);
            acc.sum = acc.sum + x;
            acc.count = acc.count + 1;
        },
        AggregateKind::Count => {
            acc.count = acc.count + 1;
        },
        AggregateKind::Min | AggregateKind::Max => {
            acc.values.push(v.clone());
            acc.count = acc.count + 1;
            proof {
                assert(acc.values.deep_view() =~= h.push(v@));
                lemma_extremal_props_push(h, v@);
            }
        },
    }
    acc.history = Ghost(h.push(v@));
    proof {
        if kind == AggregateKind::Min || kind == AggregateKind::Max {
            assert(acc.values.deep_view() == acc.history@);
        }
    }
    acc
}

/// Retract one measure from an accumulator that keeps at least one other
/// live measure.
fn acc_remove(kind: AggregateKind, acc: Accumulator, v: &Field) -> (r: Accumulator)
    requires
        acc.wf(kind),
        acc.measures().to_multiset().contains(v@),
        acc.measures().len() >= 2,
        (kind == AggregateKind::Sum || kind == AggregateKind::Avg) ==> in_i64(
            sum_ints(acc.measures()) - int_of(v@),
        ),
    ensures
        r.wf(kind),
        r.measures().to_multiset() == acc.measures().to_multiset().remove(v@),
        r.measures().len() == acc.measures().len() - 1,
{
    let ghost h = acc.history@;
    proof {
        assert(h.contains(v@));
    }
    let mut acc = acc;
    match kind {
        AggregateKind::Sum | AggregateKind::Avg | AggregateKind::Count => {
            let ghost i = choose|i: int| 0 <= i < h.len() && h[i] == v@;
            proof {
                lemma_sum_remove(h, i);
            }
            if kind == AggregateKind::Sum || kind == AggregateKind::Avg {
                let x = int_value(v);
                acc.sum = acc.sum - x;
            }
            acc.count = acc.count - 1;
            acc.history = Ghost(h.remove(i));
        },
        AggregateKind::Min | AggregateKind::Max => {
            let i = find_value(&acc.values, v);
            acc.values.remove(i);
            acc.count = acc.count - 1;
            acc.history = Ghost(h.remove(i as int));
            proof {
                assert(acc.values.deep_view() =~= h.remove(i as int));
                lemma_extremal_props_remove(h, i as int);
            }
        },
    }
    acc
}

/// Replace one live measure by another inside one accumulator: the
/// combined retract-then-apply of an update that keeps its group key,
/// computed with no intermediate state.
fn acc_replace(kind: AggregateKind, acc: Accumulator, vold: &Field, vnew: &Field) -> (r:
    Accumulator)
    requires
        acc.wf(kind),
        acc.measures().to_multiset().contains(vold@),
        measure_ok(
            kind,
            if acc.measures().len() == 1 {
                Seq::<FieldV>::empty()
            } else {
                acc.measures()
            },
            vnew@,
        ),
        (kind == AggregateKind::Sum || kind == AggregateKind::Avg) ==> in_i64(
            sum_ints(acc.measures()) - int_of(vold@) + int_of(vnew@),
        ),
    ensures
        r.wf(kind),
        r.measures().to_multiset() == acc.measures().to_multiset().remove(vold@).insert(vnew@),
        r.measures().len() == acc.measures().len(),
{
    let ghost h = acc.history@;
    proof {
        assert(h.contains(vold@));
    }
    let mut acc = acc;
    match kind {
        AggregateKind::Sum | AggregateKind::Avg | AggregateKind::Count => {
            let ghost i = choose|i: int| 0 <= i < h.len() && h[i] == vold@;
            proof {
                lemma_sum_remove(h, i);
                lemma_sum_push(h.remove(i), vnew@);
            }
            if kind == AggregateKind::Sum || kind == AggregateKind::Avg {
                let xold = int_value(vold);
                let xnew = int_value(vnew);
                let net: i128 = acc.sum as i128 - xold as i128 + xnew as i128;
                acc.sum = net as i64;
            }
            acc.history = Ghost(h.remove(i).push(vnew@));
        },
        AggregateKind::Min | AggregateKind::Max => {
            let i = find_value(&acc.values, vold);
            proof {
                lemma_extremal_props_remove(h, i as int);
                if h.len() > 1 {
                    assert(same_variant(h[0], vnew@));
                    if i == 0 {
                        assert(h.remove(0)[0] == h[1]);
                        assert(same_variant(h[0], h[1]));
                    } else {
                        assert(h.remove(i as int)[0] == h[0]);
                    }
                }
                lemma_extremal_props_push(h.remove(i as int), vnew@);
            }
            acc.values.remove(i);
            acc.values.push(vnew.clone());
            acc.history = Ghost(h.remove(i as int).push(vnew@));
            proof {
                assert(acc.values.deep_view() =~= h.remove(i as int).push(vnew@));
            }
        },
    }
    acc
}

/// Find one position of a value among the contributing values.
fn find_value(values: &Vec<Field>, v: &Field) -> (r: usize)
    requires
        values.deep_view().contains(v@),
    ensures
        r < values.deep_view().len(),
        values.deep_view()[r as int] == v@,
{
    let ghost dv = values.deep_view();
    let mut i: usize = 0;
    while i < values.len()
        invariant
            dv == values.deep_view(),
            dv.len() == values@.len(),
            dv.contains(v@),
            i <= dv.len(),
            forall|j: int| 0 <= j < i ==> dv[j] != v@,
        decreases dv.len() - i,
    {
        proof {
            assert(dv[i as int] == values@[i as int]@);
        }
        if field_eq(&values[i], v) {
            return i;
        }
        i = i + 1;
    }
    proof {
        let k = choose|k: int| 0 <= k < dv.len() && dv[k] == v@;
        assert(false);
    }
    0
}

/// The retraction carried by a Delete or Update matches live state: its
/// group exists and its measure is among the group's live measures.
pub open spec fn retract_valid(
    b: Map<Seq<FieldV>, Seq<FieldV>>,
    gb: Seq<usize>,
    m: int,
    opv: OperationV,
) -> bool {
    match opv {
        OperationV::Delete { old } | OperationV::Update { old, .. } => {
            let g = group_key_of(gb, old);
            &&& b.dom().contains(g)
            &&& b[g].to_multiset().contains(old.values[m])
        },
        _ => true,
    }
}

/// Every record carried by the delta has the operator's input arity.
pub open spec fn op_arity_ok(opv: OperationV, arity: int) -> bool {
    match opv {
        OperationV::Insert { new } => new.values.len() == arity,
        OperationV::Delete { old } => old.values.len() == arity,
        OperationV::Update { old, new } => old.values.len() == arity && new.values.len() == arity,
        OperationV::BatchInsert { new } => forall|i: int|
            0 <= i < new.len() ==> (#[trigger] new[i]).values.len() == arity,
    }
}

pub proof fn lemma_empty_to_multiset()
    ensures
        Seq::<FieldV>::empty().to_multiset() == Multiset::<FieldV>::empty(),
{
    let s = Seq::<FieldV>::empty();
    assert forall|x: FieldV| s.to_multiset().count(x) == 0 by {
        assert(!s.contains(x));
    }
    assert(s.to_multiset() =~= Multiset::<FieldV>::empty());
}

/// Build the output row of a group from its key columns and its value.
fn group_row_exec(key: &Vec<Field>, val: Field) -> (r: Record)
    ensures
        r@ == group_row(key.deep_view(), val@),
{
    let mut values = clone_fields(key);
    values.push(val);
    let r = Record { schema_id: None, values, version: None };
    proof {
        assert(r@.values =~= key.deep_view().push(r@.values.last()));
    }
    r
}

/// The grouped-aggregation operator: one aggregate function, the group-by
/// columns, the measure column, and the per-group accumulator store.
pub struct AggregationOperator {
    pub kind: AggregateKind,
    pub group_by: Vec<usize>,
    pub measure: usize,
    pub input_arity: usize,
    pub state: Vec<(Vec<Field>, Accumulator)>,
}

impl AggregationOperator {
    /// The accumulator store as key/measures pairs.
    pub open spec fn pairs(&self) -> Seq<(Seq<FieldV>, Seq<FieldV>)> {
        self.state@.map(|_i: int, e: (Vec<Field>, Accumulator)| (e.0.deep_view(), e.1.measures()))
    }

    /// The operator's state: each live group's multiset of live measures,
    /// as a map. An entry exists exactly while its group has live rows.
    pub open spec fn groups(&self) -> Map<Seq<FieldV>, Seq<FieldV>> {
        alist_map(self.pairs())
    }

    /// The configured columns fit the input arity.
    pub open spec fn config_wf(&self) -> bool {
        &&& self.measure < self.input_arity
        &&& forall|i: int|
            0 <= i < self.group_by@.len() ==> #[trigger] self.group_by@[i] < self.input_arity
    }

    /// Distinct group keys; every accumulator is well-formed and holds at
    /// least one live measure.
    pub open spec fn wf(&self) -> bool {
        &&& self.config_wf()
        &&& keys_distinct(self.pairs())
        &&& forall|i: int|
            0 <= i < self.state@.len() ==> (#[trigger] self.state@[i]).1.wf(self.kind)
        &&& forall|i: int|
            0 <= i < self.state@.len() ==> (#[trigger] self.state@[i]).1.measures().len() > 0
    }

    /// The configuration (not the state) of two operators agrees.
    pub open spec fn same_config(&self, other: &Self) -> bool {
        &&& self.kind == other.kind
        &&& self.group_by@ == other.group_by@
        &&& self.measure == other.measure
        &&& self.input_arity == other.input_arity
    }

    pub fn new(kind: AggregateKind, group_by: Vec<usize>, measure: usize, input_arity: usize) -> (r:
        Self)
        requires
            measure < input_arity,
            forall|i: int| 0 <= i < group_by@.len() ==> #[trigger] group_by@[i] < input_arity,
        ensures
            r.wf(),
            r.groups() == Map::<Seq<FieldV>, Seq<FieldV>>::empty(),
            r.kind == kind,
            r.group_by@ == group_by@,
            r.measure == measure,
            r.input_arity == input_arity,
    {
        let r = AggregationOperator { kind, group_by, measure, input_arity, state: Vec::new() };
        proof {
            assert(r.pairs() =~= Seq::<(Seq<FieldV>, Seq<FieldV>)>::empty());
        }
        r
    }

    /// Find the position of a group key in the accumulator store.
    fn find_group(&self, key: &Vec<Field>) -> (r: Option<usize>)
        ensures
            match r {
                Some(i) => i < self.pairs().len() && self.pairs()[i as int].0 == key.deep_view(),
                None => forall|i: int|
                    0 <= i < self.pairs().len() ==> (#[trigger] self.pairs()[i]).0
                        != key.deep_view(),
            },
    {
        let mut i: usize = 0;
        while i < self.state.len()
            invariant
                i <= self.state@.len(),
                forall|j: int| 0 <= j < i ==> (#[trigger] self.pairs()[j]).0 != key.deep_view(),
            decreases self.state@.len() - i,
        {
            proof {
                assert(self.pairs()[i as int].0 == self.state@[i as int].0.deep_view());
            }
            if fields_eq(&self.state[i].0, key) {
                return Some(i);
            }
            i = i + 1;
        }
        None
    }

    /// The error folding this measure into its group would report, if
    /// any; reads only, no state change.
    fn check_insert(&self, at: Option<usize>, v: &Field) -> (r: Option<AggregationError>)
        requires
            self.wf(),
            match at {
                Some(i) => i < self.state@.len(),
                None => true,
            },
        ensures
            r == insert_err(
                self.kind,
                match at {
                    Some(i) => self.state@[i as int].1.measures(),
                    None => Seq::<FieldV>::empty(),
                },
                v@,
            ),
    {
        let ghost ms = match at {
            Some(i) => self.state@[i as int].1.measures(),
            None => Seq::<FieldV>::empty(),
        };
        let type_ok: bool = match self.kind {
            AggregateKind::Sum | AggregateKind::Avg => matches!(v, Field::Int(_)),
            AggregateKind::Count => true,
            AggregateKind::Min | AggregateKind::Max => {
                let base = is_orderable_exec(v) && is_wf_exec(v);
                let fit = match at {
                    Some(i) => {
                        if self.state[i].1.values.len() > 0 {
                            proof {
                                assert(self.state@[at->0 as int].1.values.deep_view()[0] == ms[0]);
                            }
                            same_variant_exec(&self.state[i].1.values[0], v)
                        } else {
                            true
                        }
                    },
                    None => true,
                };
                base && fit
            },
        };
        if !type_ok {
            return Some(AggregationError::TypeMismatch);
        }
        match at {
            Some(i) => {
                if self.state[i].1.count == u64::MAX {
                    return Some(AggregationError::Overflow);
                }
            },
            None => {},
        }
        if matches!(self.kind, AggregateKind::Sum | AggregateKind::Avg) {
            let x = int_value(v);
            let sum: i64 = match at {
                Some(i) => self.state[i].1.sum,
                None => 0,
            };
            if sum.checked_add(x).is_none() {
                return Some(AggregationError::Overflow);
            }
        }
        None
    }

    /// The error retracting this measure from its group would report, if
    /// any; reads only, no state change.
    fn check_delete(&self, at: usize, v: &Field) -> (r: Option<AggregationError>)
        requires
            self.wf(),
            at < self.state@.len(),
            self.state@[at as int].1.measures().to_multiset().contains(v@),
        ensures
            r == delete_err(self.kind, self.state@[at as int].1.measures(), v@),
    {
        if matches!(self.kind, AggregateKind::Sum | AggregateKind::Avg) {
            proof {
                let h = self.state@[at as int].1.measures();
                assert(h.contains(v@));
                let k = choose|k: int| 0 <= k < h.len() && h[k] == v@;
                assert(h[k] is Int);
            }
            let x = int_value(v);
            if self.state[at].1.sum.checked_sub(x).is_none() {
                return Some(AggregationError::Overflow);
            }
        }
        None
    }

    /// The error replacing one measure by another inside its group would
    /// report, if any; reads only, no state change.
    fn check_replace(&self, at: usize, vold: &Field, vnew: &Field) -> (r: Option<AggregationError>)
        requires
            self.wf(),
            at < self.state@.len(),
            self.state@[at as int].1.measures().to_multiset().contains(vold@),
        ensures
            r == replace_err(self.kind, self.state@[at as int].1.measures(), vold@, vnew@),
    {
        let ghost ms = self.state@[at as int].1.measures();
        let type_ok: bool = match self.kind {
            AggregateKind::Sum | AggregateKind::Avg => matches!(vnew, Field::Int(_)),
            AggregateKind::Count => true,
            AggregateKind::Min | AggregateKind::Max => {
                let base = is_orderable_exec(vnew) && is_wf_exec(vnew);
                let fit = if self.state[at].1.count == 1 {
                    true
                } else {
                    proof {
                        assert(self.state@[at as int].1.values.deep_view()[0] == ms[0]);
                    }
                    same_variant_exec(&self.state[at].1.values[0], vnew)
                };
                base && fit
            },
        };
        if !type_ok {
            return Some(AggregationError::TypeMismatch);
        }
        if matches!(self.kind, AggregateKind::Sum | AggregateKind::Avg) {
            proof {
                assert(ms.contains(vold@));
                let k = choose|k: int| 0 <= k < ms.len() && ms[k] == vold@;
                assert(ms[k] is Int);
            }
            let xold = int_value(vold);
            let xnew = int_value(vnew);
            let net: i128 = self.state[at].1.sum as i128 - xold as i128 + xnew as i128;
            if net < i64::MIN as i128 || net > i64::MAX as i128 {
                return Some(AggregationError::Overflow);
            }
        }
        None
    }

    /// Remove a group from the store, handing back its key and
    /// accumulator.
    fn take_group(&mut self, i: usize) -> (r: (Vec<Field>, Accumulator))
        requires
            old(self).wf(),
            i < old(self).state@.len(),
        ensures
            final(self).wf(),
            old(self).same_config(final(self)),
            r.0.deep_view() == old(self).pairs()[i as int].0,
            r.1.wf(final(self).kind),
            r.1.measures() == old(self).pairs()[i as int].1,
            final(self).groups() == old(self).groups().remove(r.0.deep_view()),
            !final(self).groups().dom().contains(r.0.deep_view()),
    {
        let ghost old_pairs = self.pairs();
        let ghost g = old_pairs[i as int].0;
        proof {
            lemma_alist_remove(old_pairs, i as int);
        }
        let entry = self.state.remove(i);
        proof {
            assert(self.pairs() =~= old_pairs.remove(i as int));
            assert(entry.0.deep_view() == g);
            assert(entry.1.measures() == old_pairs[i as int].1);
            assert forall|j: int| 0 <= j < self.state@.len() implies (#[trigger] self.state@[j]).1.wf(
                self.kind,
            ) && self.state@[j].1.measures().len() > 0 by {
                let j0 = if j < i {
                    j
                } else {
                    j + 1
                };
                assert(self.state@[j] == old(self).state@[j0]);
                assert(old(self).state@[j0].1.wf(self.kind));
                assert(old(self).state@[j0].1.measures().len() > 0);
            }
            assert(!self.groups().dom().contains(g)) by {
                lemma_alist_contains(self.pairs(), g);
                if exists|j: int| 0 <= j < self.pairs().len() && (#[trigger] self.pairs()[j]).0
                    == g {
                    let j = choose|j: int|
                        0 <= j < self.pairs().len() && (#[trigger] self.pairs()[j]).0 == g;
                    let j0 = if j < i {
                        j
                    } else {
                        j + 1
                    };
                    assert(old_pairs[j0] == self.pairs()[j]);
                    assert(old_pairs[i as int].0 == old_pairs[j0].0 && j0 != i);
                }
            }
        }
        entry
    }

    /// Add a group that is not in the store yet.
    fn add_group(&mut self, key: Vec<Field>, acc: Accumulator)
        requires
            old(self).wf(),
            acc.wf(old(self).kind),
            acc.measures().len() > 0,
            !old(self).groups().dom().contains(key.deep_view()),
        ensures
            final(self).wf(),
            old(self).same_config(final(self)),
            final(self).groups() == old(self).groups().insert(key.deep_view(), acc.measures()),
    {
        let ghost old_pairs = self.pairs();
        let ghost g = key.deep_view();
        let ghost ms = acc.measures();
        proof {
            lemma_alist_contains(old_pairs, g);
            lemma_alist_push(old_pairs, (g, ms));
        }
        self.state.push((key, acc));
        proof {
            assert(self.pairs() =~= old_pairs.push((g, ms)));
            assert forall|j: int| 0 <= j < self.state@.len() implies (#[trigger] self.state@[j]).1.wf(
                self.kind,
            ) && self.state@[j].1.measures().len() > 0 by {
                if j < self.state@.len() - 1 {
                    assert(self.state@[j] == old(self).state@[j]);
                    assert(old(self).state@[j].1.wf(self.kind));
                    assert(old(self).state@[j].1.measures().len() > 0);
                }
            }
            assert forall|a: int, b: int|
                0 <= a < b < self.pairs().len() implies (#[trigger] self.pairs()[a]).0 != (
            #[trigger] self.pairs()[b]).0 by {
                if b < self.pairs().len() - 1 {
                    assert(self.pairs()[a] == old_pairs[a] && self.pairs()[b] == old_pairs[b]);
                } else {
                    assert(self.pairs()[a] == old_pairs[a]);
                    assert(self.pairs()[b].0 == g);
                }
            }
        }
    }

    /// Fold an inserted row into its group: an Insert delta for a fresh
    /// group, an Update delta for an existing one.
    fn apply_insert(&mut self, new: &Record) -> (r: Result<Operation, AggregationError>)
        requires
            old(self).wf(),
            new@.values.len() == old(self).input_arity,
        ensures
            final(self).wf(),
            old(self).same_config(final(self)),
            ({
                let b = old(self).groups();
                let g = group_key_of(old(self).group_by@, new@);
                let v = new@.values[old(self).measure as int];
                match r {
                    Ok(o) => insert_err(old(self).kind, ms_of(b, g), v) is None && insert_step_ok(
                        old(self).kind,
                        b,
                        final(self).groups(),
                        g,
                        v,
                        seq![o@],
                    ),
                    Err(e) => insert_err(old(self).kind, ms_of(b, g), v) == Some(e) && *final(self)
                        == *old(self),
                }
            }),
    {
        let ghost b = self.groups();
        proof {
            assert(new.values.deep_view().len() == new.values@.len());
        }
        let key = get_primary_key(&self.group_by, &new.values);
        let ghost g = key.deep_view();
        let v = &new.values[self.measure];
        proof {
            assert(g == group_key_of(self.group_by@, new@));
            assert(v@ == new@.values[self.measure as int]);
        }
        match self.find_group(&key) {
            Some(i) => {
                proof {
                    lemma_alist_index(self.pairs(), i as int);
                    assert(b[g] == self.state@[i as int].1.measures());
                }
                if let Some(e) = self.check_insert(Some(i), v) {
                    return Err(e);
                }
                let old_val = acc_value(self.kind, &self.state[i].1);
                let entry = self.take_group(i);
                let acc2 = acc_push(self.kind, entry.1, v);
                let new_val = acc_value(self.kind, &acc2);
                let out = Operation::Update {
                    old: group_row_exec(&entry.0, old_val),
                    new: group_row_exec(&entry.0, new_val),
                };
                let ghost ms2 = acc2.measures();
                self.add_group(entry.0, acc2);
                proof {
                    assert(self.groups() =~= b.insert(g, ms2));
                    assert(seq![out@].len() == 1);
                    assert(out_update_ok(self.kind, b[g], ms2, g, out@)) by {
                        assert(group_row(g, old_val@).values.last() == old_val@);
                        assert(group_row(g, new_val@).values.last() == new_val@);
                    }
                }
                Ok(out)
            },
            None => {
                proof {
                    lemma_alist_contains(self.pairs(), g);
                    assert(!b.dom().contains(g));
                }
                if let Some(e) = self.check_insert(None, v) {
                    return Err(e);
                }
                let acc = acc_push(self.kind, acc_empty(), v);
                let val = acc_value(self.kind, &acc);
                let out = Operation::Insert { new: group_row_exec(&key, val) };
                let ghost ms2 = acc.measures();
                self.add_group(key, acc);
                proof {
                    lemma_empty_to_multiset();
                    assert(ms2 == Seq::<FieldV>::empty().push(v@));
                    assert(self.groups() == b.insert(g, ms2));
                    assert(out_insert_ok(self.kind, ms2, g, out@)) by {
                        assert(group_row(g, val@).values.last() == val@);
                    }
                }
                Ok(out)
            },
        }
    }

    /// Retract a deleted row from its group: a Delete delta when the
    /// group becomes empty, an Update delta otherwise.
    fn apply_delete(&mut self, old_rec: &Record) -> (r: Result<Operation, AggregationError>)
        requires
            old(self).wf(),
            old_rec@.values.len() == old(self).input_arity,
            old(self).groups().dom().contains(group_key_of(old(self).group_by@, old_rec@)),
            old(self).groups()[group_key_of(old(self).group_by@, old_rec@)].to_multiset().contains(
                old_rec@.values[old(self).measure as int],
            ),
        ensures
            final(self).wf(),
            old(self).same_config(final(self)),
            ({
                let b = old(self).groups();
                let g = group_key_of(old(self).group_by@, old_rec@);
                let v = old_rec@.values[old(self).measure as int];
                match r {
                    Ok(o) => delete_err(old(self).kind, b[g], v) is None && delete_step_ok(
                        old(self).kind,
                        b,
                        final(self).groups(),
                        g,
                        v,
                        seq![o@],
                    ),
                    Err(e) => delete_err(old(self).kind, b[g], v) == Some(e) && *final(self)
                        == *old(self),
                }
            }),
    {
        let ghost b = self.groups();
        proof {
            assert(old_rec.values.deep_view().len() == old_rec.values@.len());
        }
        let key = get_primary_key(&self.group_by, &old_rec.values);
        let ghost g = key.deep_view();
        let v = &old_rec.values[self.measure];
        proof {
            assert(g == group_key_of(self.group_by@, old_rec@));
            assert(v@ == old_rec@.values[self.measure as int]);
        }
        match self.find_group(&key) {
            Some(i) => {
                proof {
                    lemma_alist_index(self.pairs(), i as int);
                    assert(b[g] == self.state@[i as int].1.measures());
                }
                if let Some(e) = self.check_delete(i, v) {
                    return Err(e);
                }
                let old_val = acc_value(self.kind, &self.state[i].1);
                if self.state[i].1.count == 1 {
                    let entry = self.take_group(i);
                    let out = Operation::Delete { old: group_row_exec(&entry.0, old_val) };
                    proof {
                        assert(b[g].len() == 1);
                        assert(self.groups() == b.remove(g));
                        assert(out_delete_ok(self.kind, b[g], g, out@)) by {
                            assert(group_row(g, old_val@).values.last() == old_val@);
                        }
                    }
                    Ok(out)
                } else {
                    let entry = self.take_group(i);
                    let acc2 = acc_remove(self.kind, entry.1, v);
                    let new_val = acc_value(self.kind, &acc2);
                    let out = Operation::Update {
                        old: group_row_exec(&entry.0, old_val),
                        new: group_row_exec(&entry.0, new_val),
                    };
                    let ghost ms2 = acc2.measures();
                    self.add_group(entry.0, acc2);
                    proof {
                        assert(self.groups() =~= b.insert(g, ms2));
                        assert(out_update_ok(self.kind, b[g], ms2, g, out@)) by {
                            assert(group_row(g, old_val@).values.last() == old_val@);
                            assert(group_row(g, new_val@).values.last() == new_val@);
                        }
                    }
                    Ok(out)
                }
            },
            None => {
                proof {
                    lemma_alist_contains(self.pairs(), g);
                    assert(false);
                }
                Err(AggregationError::Overflow)
            },
        }
    }

    /// Replace a row's measure inside one group (an update that keeps its
    /// group key): a single Update delta; the group always survives.
    fn apply_replace(&mut self, old_rec: &Record, new_rec: &Record) -> (r: Result<
        Operation,
        AggregationError,
    >)
        requires
            old(self).wf(),
            old_rec@.values.len() == old(self).input_arity,
            new_rec@.values.len() == old(self).input_arity,
            group_key_of(old(self).group_by@, old_rec@) == group_key_of(
                old(self).group_by@,
                new_rec@,
            ),
            old(self).groups().dom().contains(group_key_of(old(self).group_by@, old_rec@)),
            old(self).groups()[group_key_of(old(self).group_by@, old_rec@)].to_multiset().contains(
                old_rec@.values[old(self).measure as int],
            ),
        ensures
            final(self).wf(),
            old(self).same_config(final(self)),
            ({
                let b = old(self).groups();
                let g = group_key_of(old(self).group_by@, old_rec@);
                let vold = old_rec@.values[old(self).measure as int];
                let vnew = new_rec@.values[old(self).measure as int];
                match r {
                    Ok(o) => replace_err(old(self).kind, b[g], vold, vnew) is None
                        && replace_step_ok(
                        old(self).kind,
                        b,
                        final(self).groups(),
                        g,
                        vold,
                        vnew,
                        seq![o@],
                    ),
                    Err(e) => replace_err(old(self).kind, b[g], vold, vnew) == Some(e)
                        && *final(self) == *old(self),
                }
            }),
    {
        let ghost b = self.groups();
        proof {
            assert(old_rec.values.deep_view().len() == old_rec.values@.len());
            assert(new_rec.values.deep_view().len() == new_rec.values@.len());
        }
        let key = get_primary_key(&self.group_by, &old_rec.values);
        let ghost g = key.deep_view();
        let vold = &old_rec.values[self.measure];
        let vnew = &new_rec.values[self.measure];
        proof {
            assert(g == group_key_of(self.group_by@, old_rec@));
            assert(vold@ == old_rec@.values[self.measure as int]);
            assert(vnew@ == new_rec@.values[self.measure as int]);
        }
        match self.find_group(&key) {
            Some(i) => {
                proof {
                    lemma_alist_index(self.pairs(), i as int);
                    assert(b[g] == self.state@[i as int].1.measures());
                }
                if let Some(e) = self.check_replace(i, vold, vnew) {
                    return Err(e);
                }
                let old_val = acc_value(self.kind, &self.state[i].1);
                let entry = self.take_group(i);
                let acc2 = acc_replace(self.kind, entry.1, vold, vnew);
                let new_val = acc_value(self.kind, &acc2);
                let out = Operation::Update {
                    old: group_row_exec(&entry.0, old_val),
                    new: group_row_exec(&entry.0, new_val),
                };
                let ghost ms2 = acc2.measures();
                self.add_group(entry.0, acc2);
                proof {
                    assert(self.groups() =~= b.insert(g, ms2));
                    assert(out_update_ok(self.kind, b[g], ms2, g, out@)) by {
                        assert(group_row(g, old_val@).values.last() == old_val@);
                        assert(group_row(g, new_val@).values.last() == new_val@);
                    }
                }
                Ok(out)
            },
            None => {
                proof {
                    lemma_alist_contains(self.pairs(), g);
                    assert(false);
                }
                Err(AggregationError::Overflow)
            },
        }
    }

    /// Process one delta: update the per-group state and emit the
    /// smallest correct deltas downstream. An update that moves a row
    /// between groups emits the new group's delta first, then the old
    /// group's. On error nothing is mutated. Batches are unrolled before
    /// they reach the operator: every delta here carries single rows.
    pub fn aggregate(&mut self, op: &Operation) -> (r: Result<Vec<Operation>, AggregationError>)
        requires
            old(self).wf(),
            !(op@ is BatchInsert),
            op_arity_ok(op@, old(self).input_arity as int),
            retract_valid(old(self).groups(), old(self).group_by@, old(self).measure as int, op@),
        ensures
            final(self).wf(),
            old(self).same_config(final(self)),
            ({
                let b = old(self).groups();
                let gb = old(self).group_by@;
                let m = old(self).measure as int;
                match r {
                    Ok(outs) => agg_op_err(old(self).kind, b, op@, gb, m) is None && agg_step_ok(
                        old(self).kind,
                        b,
                        final(self).groups(),
                        op@,
                        outs.deep_view(),
                        gb,
                        m,
                    ),
                    Err(e) => agg_op_err(old(self).kind, b, op@, gb, m) == Some(e) && *final(self)
                        == *old(self),
                }
            }),
    {
        let ghost b = self.groups();
        let ghost gb = self.group_by@;
        let ghost m = self.measure as int;
        match op {
            Operation::Insert { new } => {
                match self.apply_insert(new) {
                    Ok(o) => {
                        let ghost ov = o@;
                        let mut outs: Vec<Operation> = Vec::new();
                        outs.push(o);
                        proof {
                            assert(outs.deep_view() =~= seq![ov]);
                        }
                        Ok(outs)
                    },
                    Err(e) => Err(e),
                }
            },
            Operation::Delete { old } => {
                match self.apply_delete(old) {
                    Ok(o) => {
                        let ghost ov = o@;
                        let mut outs: Vec<Operation> = Vec::new();
                        outs.push(o);
                        proof {
                            assert(outs.deep_view() =~= seq![ov]);
                        }
                        Ok(outs)
                    },
                    Err(e) => Err(e),
                }
            },
            Operation::Update { old, new } => {
                proof {
                    assert(old.values.deep_view().len() == old.values@.len());
                    assert(new.values.deep_view().len() == new.values@.len());
                }
                let key_old = get_primary_key(&self.group_by, &old.values);
                let key_new = get_primary_key(&self.group_by, &new.values);
                let ghost go = group_key_of(gb, old@);
                let ghost gn = group_key_of(gb, new@);
                proof {
                    assert(key_old.deep_view() == go);
                    assert(key_new.deep_view() == gn);
                }
                if fields_eq(&key_old, &key_new) {
                    match self.apply_replace(old, new) {
                        Ok(o) => {
                            let ghost ov = o@;
                            let mut outs: Vec<Operation> = Vec::new();
                            outs.push(o);
                            proof {
                                assert(outs.deep_view() =~= seq![ov]);
                            }
                            Ok(outs)
                        },
                        Err(e) => Err(e),
                    }
                } else {
                    let vold = &old.values[self.measure];
                    let vnew = &new.values[self.measure];
                    proof {
                        assert(vold@ == old@.values[m]);
                        assert(vnew@ == new@.values[m]);
                    }
                    // validate both halves before touching any state
                    let ins_at = self.find_group(&key_new);
                    proof {
                        match ins_at {
                            Some(i) => {
                                lemma_alist_index(self.pairs(), i as int);
                                assert(ms_of(b, gn) == self.state@[i as int].1.measures());
                            },
                            None => {
                                lemma_alist_contains(self.pairs(), gn);
                                assert(ms_of(b, gn) == Seq::<FieldV>::empty());
                            },
                        }
                    }
                    if let Some(e) = self.check_insert(ins_at, vnew) {
                        return Err(e);
                    }
                    let del_at = match self.find_group(&key_old) {
                        Some(i) => i,
                        None => {
                            proof {
                                lemma_alist_contains(self.pairs(), go);
                                assert(false);
                            }
                            return Err(AggregationError::Overflow);
                        },
                    };
                    proof {
                        lemma_alist_index(self.pairs(), del_at as int);
                        assert(b[go] == self.state@[del_at as int].1.measures());
                    }
                    if let Some(e) = self.check_delete(del_at, vold) {
                        return Err(e);
                    }
                    // both halves are clear: apply, new group first
                    let o1 = match self.apply_insert(new) {
                        Ok(o) => o,
                        Err(_) => {
                            proof {
                                assert(false);
                            }
                            return Err(AggregationError::Overflow);
                        },
                    };
                    let ghost mid = self.groups();
                    proof {
                        assert(mid[go] == b[go]);
                    }
                    let o2 = match self.apply_delete(old) {
                        Ok(o) => o,
                        Err(_) => {
                            proof {
                                assert(false);
                            }
                            return Err(AggregationError::Overflow);
                        },
                    };
                    let ghost ov1 = o1@;
                    let ghost ov2 = o2@;
                    let mut outs: Vec<Operation> = Vec::new();
                    outs.push(o1);
                    outs.push(o2);
                    proof {
                        let a = self.groups();
                        assert(outs.deep_view() =~= seq![ov1, ov2]);
                        assert(outs.deep_view().take(1) =~= seq![ov1]);
                        assert(outs.deep_view().skip(1) =~= seq![ov2]);
                        assert(a[gn] == mid[gn]);
                        assert(a.dom().contains(gn));
                        assert(mid =~= b.insert(gn, a[gn]));
                    }
                    Ok(outs)
                }
            },
            Operation::BatchInsert { .. } => {
                proof {
                    assert(false);
                }
                Err(AggregationError::Overflow)
            },
        }
    }
}

/// A downstream consumer's table after replaying emitted deltas: output
/// rows keyed by their group columns (all columns but the value).
pub open spec fn replay(d: Map<Seq<FieldV>, RecordV>, outs: Seq<OperationV>) -> Map<
    Seq<FieldV>,
    RecordV,
>
    decreases outs.len(),
{
    if outs.len() == 0 {
        d
    } else {
        let d1 = match outs[0] {
            OperationV::Insert { new } => d.insert(new.values.drop_last(), new),
            OperationV::Update { old, new } => d.insert(new.values.drop_last(), new),
            OperationV::Delete { old } => d.remove(old.values.drop_last()),
            OperationV::BatchInsert { .. } => d,
        };
        replay(d1, outs.skip(1))
    }
}

/// The replayed table matches the operator's live state: one row per
/// live group, carrying a current aggregate value for that group.
pub open spec fn downstream_ok(
    kind: AggregateKind,
    groups: Map<Seq<FieldV>, Seq<FieldV>>,
    d: Map<Seq<FieldV>, RecordV>,
) -> bool {
    &&& d.dom() == groups.dom()
    &&& forall|g: Seq<FieldV>| #[trigger]
        groups.dom().contains(g) ==> d[g] == group_row(g, d[g].values.last()) && agg_value_ok(
            kind,
            groups[g],
            d[g].values.last(),
        )
}

/// Before any delta: no live group, and an empty replayed table.
pub proof fn lemma_replay_init(kind: AggregateKind)
    ensures
        downstream_ok(
            kind,
            Map::<Seq<FieldV>, Seq<FieldV>>::empty(),
            Map::<Seq<FieldV>, RecordV>::empty(),
        ),
{
}

proof fn lemma_replay_one(
    kind: AggregateKind,
    b: Map<Seq<FieldV>, Seq<FieldV>>,
    a: Map<Seq<FieldV>, Seq<FieldV>>,
    g: Seq<FieldV>,
    outs: Seq<OperationV>,
    d: Map<Seq<FieldV>, RecordV>,
)
    requires
        downstream_ok(kind, b, d),
        outs.len() == 1,
        match outs[0] {
            OperationV::Insert { new } => !b.dom().contains(g) && a == b.insert(g, a[g])
                && a.dom().contains(g) && out_insert_ok(kind, a[g], g, outs[0]),
            OperationV::Update { old, new } => b.dom().contains(g) && a == b.insert(g, a[g])
                && a.dom().contains(g) && out_update_ok(kind, b[g], a[g], g, outs[0]),
            OperationV::Delete { old } => b.dom().contains(g) && a == b.remove(g) && out_delete_ok(
                kind,
                b[g],
                g,
                outs[0],
            ),
            OperationV::BatchInsert { .. } => false,
        },
    ensures
        downstream_ok(kind, a, replay(d, outs)),
{
    assert(outs.skip(1) =~= Seq::<OperationV>::empty());
    reveal_with_fuel(replay, 2);
    match outs[0] {
        OperationV::Insert { new } => {
            assert(new.values.drop_last() =~= g);
            let d2 = d.insert(g, new);
            assert(replay(d, outs) == d2);
            assert(d2.dom() =~= a.dom());
        },
        OperationV::Update { old, new } => {
            assert(new.values.drop_last() =~= g);
            let d2 = d.insert(g, new);
            assert(replay(d, outs) == d2);
            assert(d2.dom() =~= a.dom());
        },
        OperationV::Delete { old } => {
            assert(old.values.drop_last() =~= g);
            let d2 = d.remove(g);
            assert(replay(d, outs) == d2);
            assert(d2.dom() =~= a.dom());
        },
        OperationV::BatchInsert { .. } => {},
    }
}

/// Replay correctness, one processed delta at a time: if the downstream
/// table reconstructed so far shows, for every live group, a current
/// aggregate value over that group's live measures (for MAX: its
/// maximum), then replaying what `aggregate` emitted keeps it that way —
/// and groups appear and disappear downstream exactly as they fill and
/// empty. Together with `lemma_replay_init`, induction over any delta
/// sequence.
pub proof fn lemma_replay_step(
    kind: AggregateKind,
    b: Map<Seq<FieldV>, Seq<FieldV>>,
    a: Map<Seq<FieldV>, Seq<FieldV>>,
    opv: OperationV,
    outs: Seq<OperationV>,
    gb: Seq<usize>,
    m: int,
    d: Map<Seq<FieldV>, RecordV>,
)
    requires
        downstream_ok(kind, b, d),
        agg_step_ok(kind, b, a, opv, outs, gb, m),
    ensures
        downstream_ok(kind, a, replay(d, outs)),
{
    match opv {
        OperationV::Insert { new } => {
            let g = group_key_of(gb, new);
            if b.dom().contains(g) {
                lemma_replay_one(kind, b, a, g, outs, d);
            } else {
                lemma_replay_one(kind, b, a, g, outs, d);
            }
        },
        OperationV::Delete { old } => {
            let g = group_key_of(gb, old);
            if b[g].len() == 1 {
                lemma_replay_one(kind, b, a, g, outs, d);
            } else {
                lemma_replay_one(kind, b, a, g, outs, d);
            }
        },
        OperationV::Update { old, new } => {
            let go = group_key_of(gb, old);
            let gn = group_key_of(gb, new);
            if go == gn {
                lemma_replay_one(kind, b, a, go, outs, d);
            } else {
                let mid = b.insert(gn, a[gn]);
                let outs1 = outs.take(1);
                let outs2 = outs.skip(1);
                lemma_replay_one(kind, b, mid, gn, outs1, d);
                let d1 = replay(d, outs1);
                if mid[go].len() == 1 {
                    lemma_replay_one(kind, mid, a, go, outs2, d1);
                } else {
                    lemma_replay_one(kind, mid, a, go, outs2, d1);
                }
                assert(outs1.skip(1) =~= Seq::<OperationV>::empty());
                assert(outs1[0] == outs[0]);
                assert(outs2[0] == outs[1]);
                assert(replay(d, outs) == replay(d1, outs2)) by {
                    reveal_with_fuel(replay, 3);
                }
            }
        },
        OperationV::BatchInsert { .. } => {},
    }
}

/// A retraction's delta retires its group exactly when the group runs
/// out of live measures: a Delete is emitted for the group's output row
/// precisely when the group's state entry disappears.
pub proof fn lemma_delete_iff_group_empties(
    kind: AggregateKind,
    b: Map<Seq<FieldV>, Seq<FieldV>>,
    a: Map<Seq<FieldV>, Seq<FieldV>>,
    old_rec: RecordV,
    outs: Seq<OperationV>,
    gb: Seq<usize>,
    m: int,
)
    requires
        agg_step_ok(kind, b, a, (OperationV::Delete { old: old_rec }), outs, gb, m),
    ensures
        (outs[0] is Delete) <==> !a.dom().contains(group_key_of(gb, old_rec)),
{
    let g = group_key_of(gb, old_rec);
    if b[g].len() == 1 {
        assert(!a.dom().contains(g));
    } else {
        assert(a.dom().contains(g));
    }
}

/// Additive accumulator equivalence: in a well-formed operator running
/// SUM, COUNT or AVG, every group's stored numeric state equals a
/// from-scratch recomputation over that group's currently-live measures.
pub proof fn lemma_additive_recompute(op: &AggregationOperator, i: int)
    requires
        op.wf(),
        0 <= i < op.state@.len(),
    ensures
        op.groups().dom().contains(op.pairs()[i].0),
        op.groups()[op.pairs()[i].0] == op.state@[i].1.measures(),
        (op.kind == AggregateKind::Sum || op.kind == AggregateKind::Avg) ==> op.state@[i].1.sum
            == sum_ints(op.state@[i].1.measures()),
        op.state@[i].1.count == op.state@[i].1.measures().len(),
{
    lemma_alist_index(op.pairs(), i);
}

} // verus!
