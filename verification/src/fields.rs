//! Field values: the tagged union that record cells are made of, its
//! mathematical view, equality, and the total order used by indexes and
//! extremal aggregates.

use vstd::prelude::*;

verus! {

/// Largest decimal scale the engine accepts; keeps cross-scale comparison
/// inside `i128` arithmetic.
pub const MAX_DECIMAL_SCALE: u32 = 18;

/// A fixed-point decimal: the represented value is `num / 10^scale`.
#[derive(Clone, Copy, PartialEq, Eq, Structural, Debug)]
pub struct DecimalField {
    pub num: i64,
    pub scale: u32,
}

/// A calendar date; the derived ordering of (year, month, day) triples is
/// chronological.
#[derive(Clone, Copy, PartialEq, Eq, Structural, Debug)]
pub struct DateField {
    pub year: i32,
    pub month: u8,
    pub day: u8,
}

/// A planar point. Coordinates are carried as order-preserving bit
/// encodings of IEEE doubles; the encoding happens outside the library.
#[derive(Clone, Copy, PartialEq, Eq, Structural, Debug)]
pub struct PointField {
    pub x: u64,
    pub y: u64,
}

/// One cell of a record.
///
/// `Float` carries an IEEE double as its order-preserving bit encoding
/// (sign-folded bits), so that unsigned comparison of the encodings agrees
/// with the usual total order on doubles; callers outside the library
/// encode and decode.
#[derive(Debug)]
pub enum Field {
    Int(i64),
    UInt(u64),
    Float(u64),
    Decimal(DecimalField),
    Boolean(bool),
    String(String),
    Text(String),
    Timestamp(i64),
    Date(DateField),
    Binary(Vec<u8>),
    Bson(Vec<u8>),
    Point(PointField),
    Null,
}

/// The declared type of a schema column.
#[derive(Clone, Copy, PartialEq, Eq, Structural, Debug)]
pub enum FieldType {
    Int,
    UInt,
    Float,
    Decimal,
    Boolean,
    String,
    Text,
    Timestamp,
    Date,
    Binary,
    Bson,
    Point,
}

/// Mathematical view of a `Field`.
pub enum FieldV {
    Int(int),
    UInt(int),
    Float(int),
    Decimal { num: int, scale: int },
    Boolean(bool),
    String(Seq<char>),
    Text(Seq<char>),
    Timestamp(int),
    Date { year: int, month: int, day: int },
    Binary(Seq<u8>),
    Bson(Seq<u8>),
    Point { x: int, y: int },
    Null,
}

impl View for Field {
    type V = FieldV;

    open spec fn view(&self) -> FieldV {
        match self {
            Field::Int(x) => FieldV::Int(*x as int),
            Field::UInt(x) => FieldV::UInt(*x as int),
            Field::Float(x) => FieldV::Float(*x as int),
            Field::Decimal(d) => FieldV::Decimal { num: d.num as int, scale: d.scale as int },
            Field::Boolean(b) => FieldV::Boolean(*b),
            Field::String(s) => FieldV::String(s@),
            Field::Text(s) => FieldV::Text(s@),
            Field::Timestamp(t) => FieldV::Timestamp(*t as int),
            Field::Date(d) => FieldV::Date {
                year: d.year as int,
                month: d.month as int,
                day: d.day as int,
            },
            Field::Binary(b) => FieldV::Binary(b@),
            Field::Bson(b) => FieldV::Bson(b@),
            Field::Point(p) => FieldV::Point { x: p.x as int, y: p.y as int },
            Field::Null => FieldV::Null,
        }
    }
}

impl DeepView for Field {
    type V = FieldV;

    open spec fn deep_view(&self) -> FieldV {
        self@
    }
}

/// Whether a field value belongs to a column of declared type `t`
/// (`Null` is the absent value of every column type).
pub open spec fn has_type(f: FieldV, t: FieldType) -> bool {
    match f {
        FieldV::Int(_) => t == FieldType::Int,
        FieldV::UInt(_) => t == FieldType::UInt,
        FieldV::Float(_) => t == FieldType::Float,
        FieldV::Decimal { .. } => t == FieldType::Decimal,
        FieldV::Boolean(_) => t == FieldType::Boolean,
        FieldV::String(_) => t == FieldType::String,
        FieldV::Text(_) => t == FieldType::Text,
        FieldV::Timestamp(_) => t == FieldType::Timestamp,
        FieldV::Date { .. } => t == FieldType::Date,
        FieldV::Binary(_) => t == FieldType::Binary,
        FieldV::Bson(_) => t == FieldType::Bson,
        FieldV::Point { .. } => t == FieldType::Point,
        FieldV::Null => true,
    }
}

/// Whether two field values are of the same variant.
pub open spec fn same_variant(a: FieldV, b: FieldV) -> bool {
    match (a, b) {
        (FieldV::Int(_), FieldV::Int(_)) => true,
        (FieldV::UInt(_), FieldV::UInt(_)) => true,
        (FieldV::Float(_), FieldV::Float(_)) => true,
        (FieldV::Decimal { .. }, FieldV::Decimal { .. }) => true,
        (FieldV::Boolean(_), FieldV::Boolean(_)) => true,
        (FieldV::String(_), FieldV::String(_)) => true,
        (FieldV::Text(_), FieldV::Text(_)) => true,
        (FieldV::Timestamp(_), FieldV::Timestamp(_)) => true,
        (FieldV::Date { .. }, FieldV::Date { .. }) => true,
        (FieldV::Binary(_), FieldV::Binary(_)) => true,
        (FieldV::Bson(_), FieldV::Bson(_)) => true,
        (FieldV::Point { .. }, FieldV::Point { .. }) => true,
        (FieldV::Null, FieldV::Null) => true,
        _ => false,
    }
}

/// Machine representability of a field value: decimals keep their scale
/// small enough that cross-scale comparison fits in `i128`.
pub open spec fn field_wf(f: FieldV) -> bool {
    match f {
        FieldV::Decimal { num, scale } => 0 <= scale <= MAX_DECIMAL_SCALE,
        _ => true,
    }
}

/// Field variants that carry a total order (the ones usable in ordered
/// indexes and MIN/MAX aggregates).
pub open spec fn orderable(f: FieldV) -> bool {
    match f {
        FieldV::Int(_) => true,
        FieldV::UInt(_) => true,
        FieldV::Float(_) => true,
        FieldV::Decimal { .. } => true,
        FieldV::Boolean(_) => true,
        FieldV::Timestamp(_) => true,
        FieldV::Date { .. } => true,
        FieldV::Point { .. } => true,
        _ => false,
    }
}

pub open spec fn pow10(e: nat) -> int
    decreases e,
{
    if e == 0 {
        1
    } else {
        10 * pow10((e - 1) as nat)
    }
}

/// Order on decimal values: `n1/10^s1 <= n2/10^s2`, cleared of
/// denominators.
pub open spec fn dec_le(n1: int, s1: int, n2: int, s2: int) -> bool {
    n1 * pow10(s2 as nat) <= n2 * pow10(s1 as nat)
}

/// The total order on same-variant orderable field values.
pub open spec fn field_le(a: FieldV, b: FieldV) -> bool {
    match (a, b) {
        (FieldV::Int(x), FieldV::Int(y)) => x <= y,
        (FieldV::UInt(x), FieldV::UInt(y)) => x <= y,
        (FieldV::Float(x), FieldV::Float(y)) => x <= y,
        (FieldV::Decimal { num: n1, scale: s1 }, FieldV::Decimal { num: n2, scale: s2 }) => dec_le(
            n1,
            s1,
            n2,
            s2,
        ),
        (FieldV::Boolean(x), FieldV::Boolean(y)) => !x || y,
        (FieldV::Timestamp(x), FieldV::Timestamp(y)) => x <= y,
        (
            FieldV::Date { year: y1, month: m1, day: d1 },
            FieldV::Date { year: y2, month: m2, day: d2 },
        ) => y1 < y2 || (y1 == y2 && (m1 < m2 || (m1 == m2 && d1 <= d2))),
        (FieldV::Point { x: x1, y: y1 }, FieldV::Point { x: x2, y: y2 }) => x1 < x2 || (x1 == x2
            && y1 <= y2),
        _ => false,
    }
}

pub proof fn lemma_pow10_pos(e: nat)
    ensures
        pow10(e) >= 1,
    decreases e,
{
    if e > 0 {
        lemma_pow10_pos((e - 1) as nat);
    }
}

pub proof fn lemma_pow10_bound(e: nat)
    requires
        e <= 18,
    ensures
        1 <= pow10(e) <= 1000000000000000000,
{
    lemma_pow10_pos(e);
    lemma_pow10_mono(e, 18);
    assert(pow10(18) == 1000000000000000000) by {
        reveal_with_fuel(pow10, 19);
    }
}

pub proof fn lemma_pow10_mono(e1: nat, e2: nat)
    requires
        e1 <= e2,
    ensures
        pow10(e1) <= pow10(e2),
    decreases e2,
{
    if e1 < e2 {
        lemma_pow10_mono(e1, (e2 - 1) as nat);
        lemma_pow10_pos((e2 - 1) as nat);
    }
}

/// The order is total on same-variant orderable values.
pub proof fn lemma_field_le_total(a: FieldV, b: FieldV)
    requires
        orderable(a),
        same_variant(a, b),
    ensures
        field_le(a, b) || field_le(b, a),
{
}

/// The order is reflexive on orderable values.
pub proof fn lemma_field_le_refl(a: FieldV)
    requires
        orderable(a),
    ensures
        field_le(a, a),
{
}

/// The order is transitive on same-variant orderable values.
pub proof fn lemma_field_le_trans(a: FieldV, b: FieldV, c: FieldV)
    requires
        orderable(a),
        same_variant(a, b),
        same_variant(b, c),
        field_le(a, b),
        field_le(b, c),
    ensures
        field_le(a, c),
{
    if a is Decimal {
        let (n1, s1) = (a->Decimal_num, a->Decimal_scale);
        let (n2, s2) = (b->Decimal_num, b->Decimal_scale);
        let (n3, s3) = (c->Decimal_num, c->Decimal_scale);
        let p1 = pow10(s1 as nat);
        let p2 = pow10(s2 as nat);
        let p3 = pow10(s3 as nat);
        lemma_pow10_pos(s1 as nat);
        lemma_pow10_pos(s2 as nat);
        lemma_pow10_pos(s3 as nat);
        assert(n1 * p3 <= n3 * p1) by (nonlinear_arith)
            requires
                n1 * p2 <= n2 * p1,
                n2 * p3 <= n3 * p2,
                p1 >= 1,
                p2 >= 1,
                p3 >= 1,
        {
        }
    }
}

fn pow10_i128(e: u32) -> (r: i128)
    requires
        e <= MAX_DECIMAL_SCALE,
    ensures
        r == pow10(e as nat),
        1 <= r <= 1000000000000000000,
{
    proof {
        lemma_pow10_bound(e as nat);
    }
    let mut r: i128 = 1;
    let mut i: u32 = 0;
    while i < e
        invariant
            i <= e <= MAX_DECIMAL_SCALE,
            r == pow10(i as nat),
            1 <= r <= 1000000000000000000,
        decreases e - i,
    {
        proof {
            lemma_pow10_bound((i + 1) as nat);
        }
        r = r * 10;
        i = i + 1;
    }
    r
}

/// Decide `dec_le` on machine decimals.
fn dec_le_exec(a: &DecimalField, b: &DecimalField) -> (r: bool)
    requires
        a.scale <= MAX_DECIMAL_SCALE,
        b.scale <= MAX_DECIMAL_SCALE,
    ensures
        r == dec_le(a.num as int, a.scale as int, b.num as int, b.scale as int),
{
    let pb = pow10_i128(b.scale);
    let pa = pow10_i128(a.scale);
    proof {
        assert((a.num as i128) * (pb as int) <= i128::MAX && (a.num as i128) * (pb as int)
            >= i128::MIN && (b.num as i128) * (pa as int) <= i128::MAX && (b.num as i128) * (pa
            as int) >= i128::MIN) by (nonlinear_arith)
            requires
                -0x8000_0000_0000_0000 <= a.num <= 0x7fff_ffff_ffff_ffff,
                -0x8000_0000_0000_0000 <= b.num <= 0x7fff_ffff_ffff_ffff,
                1 <= pa <= 1000000000000000000,
                1 <= pb <= 1000000000000000000,
                i128::MAX == 0x7fff_ffff_ffff_ffff_ffff_ffff_ffff_ffff,
                i128::MIN == -0x8000_0000_0000_0000_0000_0000_0000_0000,
        {
        }
    }
    let left: i128 = (a.num as i128) * pb;
    let right: i128 = (b.num as i128) * pa;
    left <= right
}

/// Decide the field order on same-variant orderable values.
pub fn field_le_exec(a: &Field, b: &Field) -> (r: bool)
    requires
        orderable(a@),
        same_variant(a@, b@),
        field_wf(a@),
        field_wf(b@),
    ensures
        r == field_le(a@, b@),
{
    match (a, b) {
        (Field::Int(x), Field::Int(y)) => *x <= *y,
        (Field::UInt(x), Field::UInt(y)) => *x <= *y,
        (Field::Float(x), Field::Float(y)) => *x <= *y,
        (Field::Decimal(d1), Field::Decimal(d2)) => dec_le_exec(d1, d2),
        (Field::Boolean(x), Field::Boolean(y)) => !*x || *y,
        (Field::Timestamp(x), Field::Timestamp(y)) => *x <= *y,
        (Field::Date(d1), Field::Date(d2)) => d1.year < d2.year || (d1.year == d2.year && (d1.month
            < d2.month || (d1.month == d2.month && d1.day <= d2.day))),
        (Field::Point(p1), Field::Point(p2)) => p1.x < p2.x || (p1.x == p2.x && p1.y <= p2.y),
        _ => false,
    }
}

/// Decide whether a field value carries a total order.
pub fn is_orderable_exec(f: &Field) -> (r: bool)
    ensures
        r == orderable(f@),
{
    match f {
        Field::Int(_) => true,
        Field::UInt(_) => true,
        Field::Float(_) => true,
        Field::Decimal(_) => true,
        Field::Boolean(_) => true,
        Field::Timestamp(_) => true,
        Field::Date(_) => true,
        Field::Point(_) => true,
        _ => false,
    }
}

/// Decide machine representability of a field value.
pub fn is_wf_exec(f: &Field) -> (r: bool)
    ensures
        r == field_wf(f@),
{
    match f {
        Field::Decimal(d) => d.scale <= MAX_DECIMAL_SCALE,
        _ => true,
    }
}

/// Decide whether two field values are of the same variant.
pub fn same_variant_exec(a: &Field, b: &Field) -> (r: bool)
    ensures
        r == same_variant(a@, b@),
{
    match (a, b) {
        (Field::Int(_), Field::Int(_)) => true,
        (Field::UInt(_), Field::UInt(_)) => true,
        (Field::Float(_), Field::Float(_)) => true,
        (Field::Decimal(_), Field::Decimal(_)) => true,
        (Field::Boolean(_), Field::Boolean(_)) => true,
        (Field::String(_), Field::String(_)) => true,
        (Field::Text(_), Field::Text(_)) => true,
        (Field::Timestamp(_), Field::Timestamp(_)) => true,
        (Field::Date(_), Field::Date(_)) => true,
        (Field::Binary(_), Field::Binary(_)) => true,
        (Field::Bson(_), Field::Bson(_)) => true,
        (Field::Point(_), Field::Point(_)) => true,
        (Field::Null, Field::Null) => true,
        _ => false,
    }
}

fn bytes_eq(a: &Vec<u8>, b: &Vec<u8>) -> (r: bool)
    ensures
        r == (a@ == b@),
{
    if a.len() != b.len() {
        assert(a@ != b@);
        return false;
    }
    let mut i: usize = 0;
    while i < a.len()
        invariant
            i <= a.len(),
            a@.len() == b@.len(),
            forall|j: int| 0 <= j < i ==> a@[j] == b@[j],
        decreases a.len() - i,
    {
        if a[i] != b[i] {
            return false;
        }
        i = i + 1;
    }
    proof {
        assert(a@ =~= b@);
    }
    true
}

/// Decide equality of field values (equality of their views).
pub fn field_eq(a: &Field, b: &Field) -> (r: bool)
    ensures
        r == (a@ == b@),
{
    match (a, b) {
        (Field::Int(x), Field::Int(y)) => *x == *y,
        (Field::UInt(x), Field::UInt(y)) => *x == *y,
        (Field::Float(x), Field::Float(y)) => *x == *y,
        (Field::Decimal(d1), Field::Decimal(d2)) => *d1 == *d2,
        (Field::Boolean(x), Field::Boolean(y)) => *x == *y,
        (Field::String(s1), Field::String(s2)) => s1.eq(s2),
        (Field::Text(s1), Field::Text(s2)) => s1.eq(s2),
        (Field::Timestamp(x), Field::Timestamp(y)) => *x == *y,
        (Field::Date(d1), Field::Date(d2)) => *d1 == *d2,
        (Field::Binary(b1), Field::Binary(b2)) => bytes_eq(b1, b2),
        (Field::Bson(b1), Field::Bson(b2)) => bytes_eq(b1, b2),
        (Field::Point(p1), Field::Point(p2)) => *p1 == *p2,
        (Field::Null, Field::Null) => true,
        _ => false,
    }
}

impl Clone for Field {
    /// Cloning preserves the mathematical value.
    fn clone(&self) -> (r: Self)
        ensures
            r@ == self@,
    {
        match self {
            Field::Int(x) => Field::Int(*x),
            Field::UInt(x) => Field::UInt(*x),
            Field::Float(x) => Field::Float(*x),
            Field::Decimal(d) => Field::Decimal(*d),
            Field::Boolean(b) => Field::Boolean(*b),
            Field::String(s) => Field::String(s.clone()),
            Field::Text(s) => Field::Text(s.clone()),
            Field::Timestamp(t) => Field::Timestamp(*t),
            Field::Date(d) => Field::Date(*d),
            Field::Binary(b) => Field::Binary(clone_bytes(b)),
            Field::Bson(b) => Field::Bson(clone_bytes(b)),
            Field::Point(p) => Field::Point(*p),
            Field::Null => Field::Null,
        }
    }
}

fn clone_bytes(b: &Vec<u8>) -> (r: Vec<u8>)
    ensures
        r@ == b@,
{
    let r = b.clone();
    proof {
        assert(r@ =~= b@);
    }
    r
}

} // verus!
