//! The window operator: translate each record-level delta into one delta
//! per window instance the row belongs to. Assignment is computed eagerly
//! per row; no window buffers anything or waits for a watermark.

use vstd::prelude::*;

use crate::errors::WindowError;
use crate::fields::{Field, FieldV};
use crate::records::{clone_fields, Operation, OperationV, Record, RecordV};

verus! {

/// The output port deltas are forwarded on when no routing is configured.
pub const DEFAULT_PORT_HANDLE: u16 = 0xffff;

/// A windowing strategy over one timestamp column. A tumbling window
/// tiles time into intervals; a hopping window starts a new interval
/// every `hop_size` ticks.
#[derive(Clone, Copy, PartialEq, Eq, Structural, Debug)]
pub enum WindowType {
    Tumbling { column: usize, interval: i64 },
    Hop { column: usize, hop_size: i64, interval: i64 },
}

impl WindowType {
    /// The hop between window starts: the interval itself for tumbling.
    pub open spec fn hop(&self) -> int {
        match self {
            WindowType::Tumbling { interval, .. } => *interval as int,
            WindowType::Hop { hop_size, .. } => *hop_size as int,
        }
    }

    pub open spec fn interval_of(&self) -> int {
        match self {
            WindowType::Tumbling { interval, .. } => *interval as int,
            WindowType::Hop { interval, .. } => *interval as int,
        }
    }

    pub open spec fn column_of(&self) -> int {
        match self {
            WindowType::Tumbling { column, .. } => *column as int,
            WindowType::Hop { column, .. } => *column as int,
        }
    }
}

/// The first window start containing `ts`: the smallest multiple `k` of
/// the hop with `k * hop + interval > ts`.
pub open spec fn first_window(ts: int, hop: int, interval: int) -> int {
    (ts - interval) / hop + 1
}

/// The last window start containing `ts`: the largest multiple of the
/// hop at or below `ts`.
pub open spec fn last_window(ts: int, hop: int) -> int {
    ts / hop
}

/// The row emitted for the window starting at `k * hop`: the input row
/// with the window's start and end appended.
pub open spec fn window_row(rec: RecordV, k: int, hop: int, interval: int) -> RecordV {
    RecordV {
        schema_id: rec.schema_id,
        values: rec.values.push(FieldV::Timestamp(k * hop)).push(
            FieldV::Timestamp(k * hop + interval),
        ),
        version: None,
    }
}

/// All rows a record maps to under a strategy: one per window containing
/// its timestamp.
pub open spec fn assigned(w: WindowType, rec: RecordV) -> Seq<RecordV> {
    let ts = ts_of(rec, w.column_of());
    let k0 = first_window(ts, w.hop(), w.interval_of());
    let k1 = last_window(ts, w.hop());
    Seq::new(
        if k1 + 1 >= k0 {
            (k1 + 1 - k0) as nat
        } else {
            0
        },
        |j: int| window_row(rec, k0 + j, w.hop(), w.interval_of()),
    )
}

pub open spec fn ts_of(rec: RecordV, col: int) -> int {
    match rec.values[col] {
        FieldV::Timestamp(t) => t,
        _ => 0,
    }
}

/// The error a record reports under a strategy, if any: an unusable
/// interval, a missing or non-timestamp column, or window bounds outside
/// the timestamp range.
pub open spec fn window_err(w: WindowType, rec: RecordV) -> Option<WindowError> {
    if w.hop() <= 0 || w.interval_of() <= 0 {
        Some(WindowError::InvalidInterval)
    } else if w.column_of() >= rec.values.len() {
        Some(WindowError::InvalidColumn)
    } else if !(rec.values[w.column_of()] is Timestamp) {
        Some(WindowError::TypeMismatch)
    } else {
        let ts = ts_of(rec, w.column_of());
        let k0 = first_window(ts, w.hop(), w.interval_of());
        let k1 = last_window(ts, w.hop());
        if k0 <= k1 && (k0 * w.hop() < i64::MIN || k1 * w.hop() + w.interval_of() > i64::MAX) {
            Some(WindowError::RangeOverflow)
        } else {
            None
        }
    }
}

/// Floor division by a positive divisor, on wide integers.
fn floor_div_i128(a: i128, b: i128) -> (q: i128)
    requires
        0 < b <= 0x7fff_ffff_ffff_ffff,
        -0x1_0000_0000_0000_0000_0000 <= a <= 0x1_0000_0000_0000_0000_0000,
    ensures
        q == a as int / b as int,
        a >= 0 ==> 0 <= q <= a,
        a < 0 ==> a <= q <= 0,
{
    if a >= 0 {
        let q = ((a as u128) / (b as u128)) as i128;
        proof {
            assert(q == a as int / b as int);
            assert(q * b <= a && 0 <= q) by (nonlinear_arith)
                requires
                    b >= 1,
                    q == a as int / b as int,
                    a >= 0,
            {
                vstd::arithmetic::div_mod::lemma_fundamental_div_mod(a as int, b as int);
            }
            assert(q <= q * b) by (nonlinear_arith)
                requires
                    b >= 1,
                    q >= 0,
            {
            }
        }
        q
    } else {
        let m: u128 = (-a) as u128;
        let bu: u128 = b as u128;
        let qu: u128 = (m + (bu - 1)) / bu;
        let q: i128 = -(qu as i128);
        proof {
            let mi = m as int;
            let bi = b as int;
            let qi = qu as int;
            assert(qi == (mi + (bi - 1)) / bi);
            assert(a as int == -mi);
            vstd::arithmetic::div_mod::lemma_fundamental_div_mod(mi + (bi - 1), bi);
            vstd::arithmetic::div_mod::lemma_fundamental_div_mod(-mi, bi);
            let r1 = (mi + (bi - 1)) % bi;
            let r2 = (-mi) % bi;
            assert(0 <= r1 < bi);
            assert(0 <= r2 < bi);
            assert(mi + bi - 1 == qi * bi + r1);
            assert(-mi == ((-mi) / bi) * bi + r2);
            assert((-qi) * bi == -(qi * bi)) by (nonlinear_arith);
            assert((-mi - r2) == ((-mi) / bi) * bi);
            assert((qi * bi) == mi + bi - 1 - r1);
            // both -qi and (-mi)/bi satisfy the same division equation
            assert(((-mi) / bi) == -qi) by (nonlinear_arith)
                requires
                    0 < bi,
                    0 <= r1 < bi,
                    0 <= r2 < bi,
                    mi + bi - 1 == qi * bi + r1,
                    -mi == ((-mi) / bi) * bi + r2,
            {
            }
            assert(-qi <= 0);
            assert(mi >= 1);
            assert(qi * bi == mi + bi - 1 - r1);
            assert((qi - 1) * bi == qi * bi - bi) by (nonlinear_arith);
            assert((qi - 1) * bi <= mi - 1);
            if qi >= 1 {
                assert(qi - 1 <= (qi - 1) * bi) by (nonlinear_arith)
                    requires
                        bi >= 1,
                        qi - 1 >= 0,
                {
                }
                assert(qi <= mi);
            } else {
                assert(qi <= mi);
            }
        }
        q
    }
}

/// Compute the rows a record maps to: one per window containing its
/// timestamp, each carrying the window's start and end.
pub fn assign_windows(w: &WindowType, rec: &Record) -> (r: Result<Vec<Record>, WindowError>)
    ensures
        match r {
            Ok(rows) => window_err(*w, rec@) is None && rows.deep_view() == assigned(*w, rec@),
            Err(e) => window_err(*w, rec@) == Some(e),
        },
{
    let (column, hop, interval) = match w {
        WindowType::Tumbling { column, interval } => (*column, *interval, *interval),
        WindowType::Hop { column, hop_size, interval } => (*column, *hop_size, *interval),
    };
    if hop <= 0 || interval <= 0 {
        return Err(WindowError::InvalidInterval);
    }
    proof {
        assert(rec.values.deep_view().len() == rec.values@.len());
    }
    if column >= rec.values.len() {
        return Err(WindowError::InvalidColumn);
    }
    proof {
        assert(rec@.values[column as int] == rec.values@[column as int]@);
    }
    let ts: i64 = match &rec.values[column] {
        Field::Timestamp(t) => *t,
        _ => {
            return Err(WindowError::TypeMismatch);
        },
    };
    let ghost tsv = ts_of(rec@, column as int);
    proof {
        assert(tsv == ts as int);
    }
    let t128 = ts as i128;
    let h128 = hop as i128;
    let i128v = interval as i128;
    let k0: i128 = floor_div_i128(t128 - i128v, h128) + 1;
    let k1: i128 = floor_div_i128(t128, h128);
    proof {
        assert(k0 - 1 == first_window(tsv, hop as int, interval as int) - 1);
        assert(k1 == last_window(tsv, hop as int));
    }
    let mut rows: Vec<Record> = Vec::new();
    if k0 > k1 {
        proof {
            assert(assigned(*w, rec@).len() == 0);
            assert(rows.deep_view() =~= assigned(*w, rec@));
        }
        return Ok(rows);
    }
    // bounds of the extreme windows decide representability of them all
    proof {
        let ti = t128 as int;
        let hi = h128 as int;
        let ii = i128v as int;
        vstd::arithmetic::div_mod::lemma_fundamental_div_mod(ti - ii, hi);
        vstd::arithmetic::div_mod::lemma_fundamental_div_mod(ti, hi);
        assert(ti - ii < k0 * hi <= ti - ii + hi) by (nonlinear_arith)
            requires
                hi >= 1,
                k0 == (ti - ii) / hi + 1,
                ti - ii == hi * ((ti - ii) / hi) + (ti - ii) % hi,
                0 <= (ti - ii) % hi < hi,
        {
        }
        assert(ti - hi < k1 * hi <= ti) by (nonlinear_arith)
            requires
                hi >= 1,
                k1 == ti / hi,
                ti == hi * (ti / hi) + ti % hi,
                0 <= ti % hi < hi,
        {
        }
    }
    let s0: i128 = k0 * h128;
    let e1: i128 = k1 * h128 + i128v;
    if s0 < -0x8000_0000_0000_0000i128 || e1 > 0x7fff_ffff_ffff_ffffi128 {
        return Err(WindowError::RangeOverflow);
    }
    let ghost target = assigned(*w, rec@);
    let mut k: i128 = k0;
    while k <= k1
        invariant
            window_err(*w, rec@) is None,
            target == assigned(*w, rec@),
            hop as int == w.hop(),
            interval as int == w.interval_of(),
            tsv == ts_of(rec@, w.column_of()),
            h128 == hop as i128,
            i128v == interval as i128,
            k0 == first_window(tsv, hop as int, interval as int),
            k1 == last_window(tsv, hop as int),
            k0 <= k <= k1 + 1,
            -0x1_0000_0000_0000_0000_0000 <= k0 <= 0x1_0000_0000_0000_0000_0000,
            -0x1_0000_0000_0000_0000_0000 <= k1 <= 0x1_0000_0000_0000_0000_0000,
            k0 * (hop as int) >= i64::MIN,
            k1 * (hop as int) + interval <= i64::MAX,
            target.len() == k1 + 1 - k0,
            rows.deep_view() =~= target.take(k - k0),
        decreases k1 + 1 - k,
    {
        proof {
            assert(k0 * (hop as int) <= k * (hop as int) && k * (hop as int) <= k1 * (hop as int))
                by (nonlinear_arith)
                requires
                    hop >= 1,
                    k0 <= k <= k1,
            {
            }
        }
        let s128: i128 = k * h128;
        let e128: i128 = s128 + i128v;
        let s: i64 = s128 as i64;
        let e: i64 = e128 as i64;
        let mut values = clone_fields(&rec.values);
        values.push(Field::Timestamp(s));
        values.push(Field::Timestamp(e));
        let row = Record { schema_id: rec.schema_id, values, version: None };
        let ghost prev = rows.deep_view();
        proof {
            assert(s as int == k as int * (hop as int));
            assert(e as int == k as int * (hop as int) + interval);
            assert(row@.values =~= rec@.values.push(FieldV::Timestamp(s as int)).push(
                FieldV::Timestamp(e as int),
            ));
            assert(row@ == window_row(rec@, k as int, hop as int, interval as int));
        }
        rows.push(row);
        proof {
            assert(target[k - k0] == window_row(rec@, k0 + (k - k0), hop as int, interval as int));
            assert(k0 + (k - k0) == k as int);
            assert(rows.deep_view() =~= prev.push(window_row(rec@, k as int, hop as int, interval as int)));
            assert(rows.deep_view() =~= target.take(k + 1 - k0));
        }
        k = k + 1;
    }
    proof {
        assert(rows.deep_view() =~= target);
    }
    Ok(rows)
}

/// The channel-forwarder capability handed to a processor: it takes each
/// emitted delta with its output port, fire-and-forget; the executor's
/// routing layer drains it.
pub struct Forwarder {
    pub sent: Vec<(Operation, u16)>,
}

impl Forwarder {
    /// Everything sent so far, in order.
    pub open spec fn sends(&self) -> Seq<(OperationV, u16)> {
        self.sent@.map(|_i: int, e: (Operation, u16)| (e.0@, e.1))
    }

    pub fn new() -> (r: Self)
        ensures
            r.sends() == Seq::<(OperationV, u16)>::empty(),
    {
        let r = Forwarder { sent: Vec::new() };
        proof {
            assert(r.sends() =~= Seq::<(OperationV, u16)>::empty());
        }
        r
    }

    /// Hand one delta to the routing layer.
    pub fn send(&mut self, op: Operation, port: u16)
        ensures
            final(self).sends() == old(self).sends().push((op@, port)),
    {
        let ghost prev = self.sends();
        let ghost opv = op@;
        self.sent.push((op, port));
        proof {
            assert(self.sends() =~= prev.push((opv, port)));
        }
    }
}

/// The deltas one translated record contributes: one Insert (or Delete)
/// per window row, on the default port.
pub open spec fn row_sends(w: WindowType, rec: RecordV, del: bool) -> Seq<(OperationV, u16)> {
    assigned(w, rec).map(
        |_i: int, r: RecordV|
            (
                if del {
                    OperationV::Delete { old: r }
                } else {
                    OperationV::Insert { new: r }
                },
                DEFAULT_PORT_HANDLE,
            ),
    )
}

/// All window rows of a batch, in record order.
pub open spec fn batch_rows(w: WindowType, recs: Seq<RecordV>) -> Seq<RecordV>
    decreases recs.len(),
{
    if recs.len() == 0 {
        Seq::empty()
    } else {
        batch_rows(w, recs.drop_last()) + assigned(w, recs.last())
    }
}

/// The first error any record of a batch reports, if any.
pub open spec fn batch_err(w: WindowType, recs: Seq<RecordV>) -> Option<WindowError>
    decreases recs.len(),
{
    if recs.len() == 0 {
        None
    } else if window_err(w, recs.first()) is Some {
        window_err(w, recs.first())
    } else {
        batch_err(w, recs.drop_first())
    }
}

proof fn lemma_batch_err_at(w: WindowType, recs: Seq<RecordV>, i: int)
    requires
        0 <= i < recs.len(),
        forall|j: int| 0 <= j < i ==> window_err(w, #[trigger] recs[j]) is None,
        window_err(w, recs[i]) is Some,
    ensures
        batch_err(w, recs) == window_err(w, recs[i]),
    decreases i,
{
    if i == 0 {
    } else {
        assert(window_err(w, recs[0]) is None);
        assert forall|j: int|
            0 <= j < i - 1 implies window_err(w, #[trigger] recs.drop_first()[j]) is None by {
            assert(recs.drop_first()[j] == recs[j + 1]);
        }
        assert(recs.drop_first()[i - 1] == recs[i]);
        lemma_batch_err_at(w, recs.drop_first(), i - 1);
    }
}

proof fn lemma_batch_err_none(w: WindowType, recs: Seq<RecordV>)
    requires
        forall|j: int| 0 <= j < recs.len() ==> window_err(w, #[trigger] recs[j]) is None,
    ensures
        batch_err(w, recs) is None,
    decreases recs.len(),
{
    if recs.len() > 0 {
        assert forall|j: int|
            0 <= j < recs.drop_first().len() implies window_err(
            w,
            #[trigger] recs.drop_first()[j],
        ) is None by {
            assert(recs.drop_first()[j] == recs[j + 1]);
        }
        lemma_batch_err_none(w, recs.drop_first());
    }
}

/// What one processed delta forwards when it succeeds.
pub open spec fn expected_sends(w: WindowType, opv: OperationV) -> Seq<(OperationV, u16)> {
    match opv {
        OperationV::Insert { new } => row_sends(w, new, false),
        OperationV::Delete { old } => row_sends(w, old, true),
        OperationV::Update { old, new } => row_sends(w, old, true) + row_sends(w, new, false),
        OperationV::BatchInsert { new } => seq![
            (
                OperationV::BatchInsert { new: batch_rows(w, new) },
                DEFAULT_PORT_HANDLE,
            ),
        ],
    }
}

/// The error one delta reports, if any; for an update the retraction's
/// record is checked first.
pub open spec fn process_err(w: WindowType, opv: OperationV) -> Option<WindowError> {
    match opv {
        OperationV::Insert { new } => window_err(w, new),
        OperationV::Delete { old } => window_err(w, old),
        OperationV::Update { old, new } => if window_err(w, old) is Some {
            window_err(w, old)
        } else {
            window_err(w, new)
        },
        OperationV::BatchInsert { new } => batch_err(w, new),
    }
}

/// Forward one delta per row, all of one kind.
fn send_rows(fw: &mut Forwarder, rows: Vec<Record>, del: bool, Ghost(w): Ghost<WindowType>, Ghost(
    rec,
): Ghost<RecordV>)
    requires
        rows.deep_view() == assigned(w, rec),
    ensures
        final(fw).sends() == old(fw).sends() + row_sends(w, rec, del),
{
    let ghost base = fw.sends();
    let ghost target = row_sends(w, rec, del);
    let mut rows = rows;
    let ghost all = rows.deep_view();
    let n = rows.len();
    let mut k: usize = 0;
    while rows.len() > 0
        invariant
            n == all.len(),
            k <= n,
            rows@.len() + k == n,
            forall|j: int| 0 <= j < rows@.len() ==> rows@[j]@ == all[k + j],
            target == row_sends(w, rec, del),
            all == assigned(w, rec),
            target.len() == all.len(),
            fw.sends() =~= base + target.take(k as int),
        decreases rows@.len(),
    {
        let ghost rows_prev = rows@;
        let row = rows.remove(0);
        proof {
            assert(row@ == all[k as int]);
            assert forall|j: int| 0 <= j < rows@.len() implies rows@[j]@ == all[k + 1 + j] by {
                assert(rows@[j] == rows_prev[j + 1]);
            }
        }
        let op = if del {
            Operation::Delete { old: row }
        } else {
            Operation::Insert { new: row }
        };
        fw.send(op, DEFAULT_PORT_HANDLE);
        proof {
            assert(target[k as int] == (
                if del {
                    OperationV::Delete { old: all[k as int] }
                } else {
                    OperationV::Insert { new: all[k as int] }
                },
                DEFAULT_PORT_HANDLE,
            ));
            assert(fw.sends() =~= base + target.take(k as int + 1));
        }
        k = k + 1;
    }
    proof {
        assert(target.take(n as int) =~= target);
    }
}

/// The window operator: stateless beyond its strategy; each delta is
/// translated eagerly and forwarded.
#[derive(Debug)]
pub struct WindowProcessor {
    pub _id: String,
    pub window: WindowType,
}

impl WindowProcessor {
    pub fn new(id: String, window: WindowType, _checkpoint_data: Option<Vec<u8>>) -> (r: Self)
        ensures
            r.window == window,
            r._id@ == id@,
    {
        WindowProcessor { _id: id, window }
    }

    /// An epoch boundary: the operator keeps no state to flush.
    pub fn commit(&self) -> (r: Result<(), WindowError>)
        ensures
            r is Ok,
    {
        Ok(())
    }

    /// Translate one delta into window-scoped deltas. An update is
    /// re-expressed as a retraction of the old row followed by an
    /// insertion of the new one, each assigned independently; a batch is
    /// re-batched into a single outbound batch. On error nothing is
    /// forwarded.
    pub fn process(&mut self, _from_port: u16, op: Operation, fw: &mut Forwarder) -> (r: Result<
        (),
        WindowError,
    >)
        ensures
            *final(self) == *old(self),
            match r {
                Ok(()) => process_err(old(self).window, op@) is None && final(fw).sends() == old(
                    fw,
                ).sends() + expected_sends(old(self).window, op@),
                Err(e) => process_err(old(self).window, op@) == Some(e) && *final(fw) == *old(fw),
            },
    {
        let ghost w = self.window;
        match op {
            Operation::Insert { new } => {
                let rows = match assign_windows(&self.window, &new) {
                    Ok(rows) => rows,
                    Err(e) => {
                        return Err(e);
                    },
                };
                send_rows(fw, rows, false, Ghost(w), Ghost(new@));
                Ok(())
            },
            Operation::Delete { old } => {
                let rows = match assign_windows(&self.window, &old) {
                    Ok(rows) => rows,
                    Err(e) => {
                        return Err(e);
                    },
                };
                send_rows(fw, rows, true, Ghost(w), Ghost(old@));
                Ok(())
            },
            Operation::Update { old: old_row, new: new_row } => {
                let del_rows = match assign_windows(&self.window, &old_row) {
                    Ok(rows) => rows,
                    Err(e) => {
                        return Err(e);
                    },
                };
                let ins_rows = match assign_windows(&self.window, &new_row) {
                    Ok(rows) => rows,
                    Err(e) => {
                        return Err(e);
                    },
                };
                send_rows(fw, del_rows, true, Ghost(w), Ghost(old_row@));
                send_rows(fw, ins_rows, false, Ghost(w), Ghost(new_row@));
                proof {
                    assert(old(fw).sends() + row_sends(w, old_row@, true) + row_sends(
                        w,
                        new_row@,
                        false,
                    ) =~= old(fw).sends() + (row_sends(w, old_row@, true) + row_sends(
                        w,
                        new_row@,
                        false,
                    )));
                }
                Ok(())
            },
            Operation::BatchInsert { new: recs } => {
                let ghost rv = recs.deep_view();
                proof {
                    assert(rv.len() == recs@.len());
                }
                let mut all_rows: Vec<Record> = Vec::new();
                let mut i: usize = 0;
                while i < recs.len()
                    invariant
                        rv == recs.deep_view(),
                        rv.len() == recs@.len(),
                        i <= recs@.len(),
                        w == self.window,
                        *self == *old(self),
                        *fw == *old(fw),
                        op@ == (OperationV::BatchInsert { new: rv }),
                        forall|j: int| 0 <= j < i ==> window_err(w, #[trigger] rv[j]) is None,
                        all_rows.deep_view() =~= batch_rows(w, rv.take(i as int)),
                    decreases recs@.len() - i,
                {
                    proof {
                        assert(rv[i as int] == recs@[i as int]@);
                    }
                    let mut rows = match assign_windows(&self.window, &recs[i]) {
                        Ok(rows) => rows,
                        Err(e) => {
                            proof {
                                lemma_batch_err_at(w, rv, i as int);
                            }
                            return Err(e);
                        },
                    };
                    let ghost prev = all_rows.deep_view();
                    all_rows.append(&mut rows);
                    proof {
                        assert(all_rows.deep_view() =~= prev + assigned(w, rv[i as int]));
                        assert(rv.take(i as int + 1).drop_last() =~= rv.take(i as int));
                        assert(rv.take(i as int + 1).last() == rv[i as int]);
                        assert(all_rows.deep_view() =~= batch_rows(w, rv.take(i as int + 1)));
                    }
                    i = i + 1;
                }
                proof {
                    lemma_batch_err_none(w, rv);
                    assert(rv.take(rv.len() as int) =~= rv);
                }
                let ghost rows_v = all_rows.deep_view();
                fw.send(Operation::BatchInsert { new: all_rows }, DEFAULT_PORT_HANDLE);
                proof {
                    assert(fw.sends() =~= old(fw).sends() + seq![
                        (
                            OperationV::BatchInsert { new: batch_rows(w, rv) },
                            DEFAULT_PORT_HANDLE,
                        ),
                    ]);
                }
                Ok(())
            },
        }
    }
}

} // verus!
