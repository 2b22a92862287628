//! Piecewise-linear pH calibration.
//!
//! pH values are carried in micro-pH (one millionth of a pH unit) as integers.
//! Correction rules:
//!   0 points  → pass-through (no change)
//!   1 point   → constant offset: actual = raw + (actual_0 − raw_0)
//!   2+ points → piecewise linear interpolation between neighbouring points,
//!               with linear extrapolation beyond the first/last segment.
//! Points are kept ascending by raw value, one per raw value: the first one
//! given for it.

use vstd::prelude::*;
use crate::text::{ascii_chars, decimal, decimal_string, millionths_string, millionths_text};

verus! {

/// Micro-pH per pH unit.
pub const MICRO_PER_PH: i64 = 1_000_000;

/// pH 14 in micro-pH: the top of the accepted range.
pub const PH_MAX_MICRO: i64 = 14_000_000;

/// Whether a micro-pH value lies in the range 0–14.
pub open spec fn in_ph_range(v: i64) -> bool {
    0 <= v <= PH_MAX_MICRO
}

/// Raw values strictly ascending.
pub open spec fn strictly_ascending(pts: Seq<(i64, i64)>) -> bool {
    forall|i: int, j: int| 0 <= i < j < pts.len() ==> #[trigger] pts[i].0 < #[trigger] pts[j].0
}

/// The actual value of the first point in `input` whose raw value is `key`.
pub open spec fn first_value(input: Seq<(i64, i64)>, key: i64) -> Option<i64>
    decreases input.len(),
{
    if input.len() == 0 {
        None
    } else {
        match first_value(input.drop_last(), key) {
            Some(v) => Some(v),
            None => if input.last().0 == key {
                Some(input.last().1)
            } else {
                None
            },
        }
    }
}

/// Whether some point of `table` has raw value `key`.
pub open spec fn has_key(table: Seq<(i64, i64)>, key: i64) -> bool {
    exists|j: int| 0 <= j < table.len() && #[trigger] table[j].0 == key
}

/// `table` is the calibration table of the points `input`: ascending by raw
/// value, one point per raw value that occurs in `input`, holding the actual
/// value first given for it.
pub open spec fn is_table_of(table: Seq<(i64, i64)>, input: Seq<(i64, i64)>) -> bool {
    &&& strictly_ascending(table)
    &&& forall|j: int| 0 <= j < table.len() ==> first_value(input, #[trigger] table[j].0) == Some(table[j].1)
    &&& forall|key: i64| #[trigger] first_value(input, key) is Some ==> has_key(table, key)
}

/// Every point of the table in the range 0–14.
pub open spec fn all_in_range(pts: Seq<(i64, i64)>) -> bool {
    forall|j: int| 0 <= j < pts.len() ==> in_ph_range(#[trigger] pts[j].0) && in_ph_range(pts[j].1)
}

proof fn lemma_first_value_push(s: Seq<(i64, i64)>, p: (i64, i64), key: i64)
    ensures
        first_value(s.push(p), key) == (match first_value(s, key) {
            Some(v) => Some(v),
            None => if p.0 == key {
                Some(p.1)
            } else {
                None
            },
        }),
{
    assert(s.push(p).drop_last() =~= s);
}

/// Adds `p` to the table unless its raw value is already there.
fn insert_first(table: &mut Vec<(i64, i64)>, p: (i64, i64), Ghost(input): Ghost<Seq<(i64, i64)>>)
    requires
        is_table_of(old(table)@, input),
    ensures
        is_table_of(final(table)@, input.push(p)),
{
    let len = table.len();
    let mut pos: usize = 0;
    while pos < len && table[pos].0 < p.0
        invariant
            len == table@.len(),
            pos <= len,
            forall|j: int| 0 <= j < pos ==> #[trigger] table@[j].0 < p.0,
        decreases len - pos,
    {
        pos = pos + 1;
    }
    let ghost old_t = table@;
    if pos < len && table[pos].0 == p.0 {
        // Already present: the first point given for this raw value stays.
        assert forall|key: i64| #[trigger] first_value(input.push(p), key) is Some implies has_key(
            table@,
            key,
        ) by {
            lemma_first_value_push(input, p, key);
            if first_value(input, key) is None {
                assert(table@[pos as int].0 == key);
            }
        }
        assert forall|j: int| 0 <= j < table@.len() implies first_value(
            input.push(p),
            #[trigger] table@[j].0,
        ) == Some(table@[j].1) by {
            lemma_first_value_push(input, p, table@[j].0);
        }
    } else {
        assert(!has_key(old_t, p.0)) by {
            if has_key(old_t, p.0) {
                let j = choose|j: int| 0 <= j < old_t.len() && #[trigger] old_t[j].0 == p.0;
                if j < pos {
                } else {
                    assert(old_t[pos as int].0 <= old_t[j].0);
                }
            }
        }
        assert(first_value(input, p.0) is None);
        table.insert(pos, p);
        let ghost t = table@;
        assert(t =~= old_t.insert(pos as int, p));
        assert(strictly_ascending(t)) by {
            assert forall|i: int, j: int| 0 <= i < j < t.len() implies #[trigger] t[i].0
                < #[trigger] t[j].0 by {
                if j < pos {
                    assert(t[i] == old_t[i] && t[j] == old_t[j]);
                } else if j == pos {
                    assert(t[i] == old_t[i]);
                } else if i < pos {
                    assert(t[i] == old_t[i] && t[j] == old_t[j - 1]);
                    assert(old_t[pos as int].0 >= p.0);
                    if j - 1 > pos {
                        assert(old_t[pos as int].0 < old_t[j - 1].0);
                    }
                } else if i == pos {
                    assert(t[j] == old_t[j - 1]);
                    assert(old_t[pos as int].0 >= p.0);
                    if j - 1 > pos {
                        assert(old_t[pos as int].0 < old_t[j - 1].0);
                    }
                } else {
                    assert(t[i] == old_t[i - 1] && t[j] == old_t[j - 1]);
                }
            }
        }
        assert forall|j: int| 0 <= j < t.len() implies first_value(input.push(p), #[trigger] t[j].0)
            == Some(t[j].1) by {
            lemma_first_value_push(input, p, t[j].0);
            if j < pos {
                assert(t[j] == old_t[j]);
            } else if j > pos {
                assert(t[j] == old_t[j - 1]);
            }
        }
        assert forall|key: i64| #[trigger] first_value(input.push(p), key) is Some implies has_key(
            t,
            key,
        ) by {
            lemma_first_value_push(input, p, key);
            if key == p.0 {
                assert(t[pos as int].0 == key);
            } else {
                assert(has_key(old_t, key));
                let j = choose|j: int| 0 <= j < old_t.len() && #[trigger] old_t[j].0 == key;
                if j < pos {
                    assert(t[j] == old_t[j]);
                } else {
                    assert(t[j + 1] == old_t[j]);
                }
            }
        }
    }
}

/// The value at `x` of the line through `p0` and `p1`, rounded down to the
/// micro-pH (`p0.0 < p1.0`).
pub open spec fn lerp(p0: (i64, i64), p1: (i64, i64), x: int) -> int {
    p0.1 + ((x - p0.0) * (p1.1 - p0.1)) / (p1.0 - p0.0)
}

/// The index of the segment whose raw interval `[pts[i].0, pts[i + 1].0)` holds `x`.
pub open spec fn segment_of(pts: Seq<(i64, i64)>, x: int) -> int {
    choose|i: int| 0 <= i < pts.len() - 1 && #[trigger] pts[i].0 <= x < pts[i + 1].0
}

/// Piecewise-linear interpolation through `pts` (at least two points),
/// extrapolating with the first segment below the first point and with the
/// last segment above the last point.
pub open spec fn interpolate(pts: Seq<(i64, i64)>, x: int) -> int {
    let n = pts.len() as int;
    if x <= pts[0].0 {
        lerp(pts[0], pts[1], x)
    } else if x >= pts[n - 1].0 {
        lerp(pts[n - 2], pts[n - 1], x)
    } else {
        let i = segment_of(pts, x);
        lerp(pts[i], pts[i + 1], x)
    }
}

/// The calibrated value of the raw reading `x`.
pub open spec fn calibrated(pts: Seq<(i64, i64)>, x: int) -> int {
    if pts.len() == 0 {
        x
    } else if pts.len() == 1 {
        x + (pts[0].1 - pts[0].0)
    } else {
        interpolate(pts, x)
    }
}

/// `num / d` rounded down, for a positive divisor.
fn floor_div(num: i128, d: i128) -> (q: i128)
    requires
        d > 0,
        -0x1_0000_0000_0000_0000_0000_0000 <= num <= 0x1_0000_0000_0000_0000_0000_0000,
        d <= 0x1_0000_0000_0000_0000_0000_0000,
    ensures
        q == num / d,
        -0x1_0000_0000_0000_0000_0000_0000 <= q <= 0x1_0000_0000_0000_0000_0000_0000,
{
    proof {
        vstd::arithmetic::div_mod::lemma_fundamental_div_mod(num as int, d as int);
        let qq = num as int / d as int;
        let rr = num as int % d as int;
        assert(-0x1_0000_0000_0000_0000_0000_0000 <= qq <= 0x1_0000_0000_0000_0000_0000_0000)
            by (nonlinear_arith)
            requires
                num == d * qq + rr,
                0 <= rr < d,
                d >= 1,
                -0x1_0000_0000_0000_0000_0000_0000 <= num <= 0x1_0000_0000_0000_0000_0000_0000,
        ;
    }
    if num >= 0 {
        let q = (num as u128) / (d as u128);
        q as i128
    } else {
        let m: u128 = (-num) as u128;
        let du: u128 = d as u128;
        let c: u128 = (m + du - 1) / du;
        proof {
            let r = ((m + du - 1) % (du as int)) as int;
            vstd::arithmetic::div_mod::lemma_fundamental_div_mod((m + du - 1) as int, du as int);
            assert(m + du - 1 == du * c + r);
            assert(0 <= r < du);
            assert(num == (-(c as int)) * d + (du - 1 - r)) by (nonlinear_arith)
                requires
                    m + du - 1 == du * c + r,
                    num == -(m as int),
                    d == du,
            ;
            vstd::arithmetic::div_mod::lemma_fundamental_div_mod_converse(
                num as int,
                d as int,
                -(c as int),
                du - 1 - r,
            );
        }
        -(c as i128)
    }
}

/// The value at `x` of the line through `p0` and `p1`, rounded down.
fn lerp_at(p0: (i64, i64), p1: (i64, i64), x: i64) -> (y: i128)
    requires
        p0.0 < p1.0,
        in_ph_range(p0.0) && in_ph_range(p0.1) && in_ph_range(p1.0) && in_ph_range(p1.1),
    ensures
        y == lerp(p0, p1, x as int),
{
    let dx: i128 = p1.0 as i128 - p0.0 as i128;
    let ox: i128 = x as i128 - p0.0 as i128;
    let dy: i128 = p1.1 as i128 - p0.1 as i128;
    proof {
        assert(-0x1_0000_0000_0000_0000_0000_0000 <= ox * dy <= 0x1_0000_0000_0000_0000_0000_0000)
            by (nonlinear_arith)
            requires
                -0x1_0000_0000_0000_0000 <= ox <= 0x1_0000_0000_0000_0000,
                -0x1_0000_0000 <= dy <= 0x1_0000_0000,
        ;
    }
    let num: i128 = ox * dy;
    p0.1 as i128 + floor_div(num, dx)
}

/// The line through two points passes through both of them.
pub proof fn lemma_lerp_at_ends(p0: (i64, i64), p1: (i64, i64))
    requires
        p0.0 < p1.0,
    ensures
        lerp(p0, p1, p0.0 as int) == p0.1,
        lerp(p0, p1, p1.0 as int) == p1.1,
{
    let dx = p1.0 - p0.0;
    let dy = p1.1 - p0.1;
    assert((0 * dy) / dx == 0) by (nonlinear_arith)
        requires
            dx > 0,
    ;
    vstd::arithmetic::div_mod::lemma_div_multiples_vanish(dy, dx);
    assert(dx * dy == (p1.0 - p0.0) * (p1.1 - p0.1));
    assert((dx * dy) / dx == dy);
}

/// A calibration maps the raw value of each of its points to that point's
/// actual value.
pub proof fn lemma_calibration_reproduces_points(pts: Seq<(i64, i64)>, i: int)
    requires
        strictly_ascending(pts),
        0 <= i < pts.len(),
    ensures
        calibrated(pts, pts[i].0 as int) == pts[i].1,
{
    let n = pts.len() as int;
    if n >= 2 {
        let x = pts[i].0 as int;
        if i == 0 {
            lemma_lerp_at_ends(pts[0], pts[1]);
        } else if i == n - 1 {
            assert(pts[0].0 < pts[n - 1].0);
            lemma_lerp_at_ends(pts[n - 2], pts[n - 1]);
        } else {
            assert(pts[0].0 < x < pts[n - 1].0);
            assert(0 <= i < n - 1 && pts[i].0 <= x < pts[i + 1].0);
            let k = segment_of(pts, x);
            if k < i {
                assert(pts[k + 1].0 <= pts[i].0);
            } else if k > i {
                assert(pts[i].0 < pts[k].0);
            }
            assert(k == i);
            lemma_lerp_at_ends(pts[i], pts[i + 1]);
        }
    }
}

/// With two or more points the calibration is linear on every segment: for
/// a reading `x` between the raw values of neighbouring points `i` and
/// `i + 1`, the result is the actual value of point `i` plus the rise of the
/// segment in proportion to how far `x` lies along it, rounded down.
pub proof fn lemma_calibration_on_segment(pts: Seq<(i64, i64)>, i: int, x: int)
    requires
        strictly_ascending(pts),
        0 <= i < pts.len() - 1,
        pts[i].0 <= x <= pts[i + 1].0,
    ensures
        calibrated(pts, x) == pts[i].1 + ((x - pts[i].0) * (pts[i + 1].1 - pts[i].1)) / (pts[i
            + 1].0 - pts[i].0),
{
    let n = pts.len() as int;
    let p0 = pts[i];
    let p1 = pts[i + 1];
    assert(lerp(p0, p1, x) == p0.1 + ((x - p0.0) * (p1.1 - p0.1)) / (p1.0 - p0.0));
    if x == p1.0 as int {
        lemma_calibration_reproduces_points(pts, i + 1);
        lemma_lerp_at_ends(p0, p1);
    } else if x == p0.0 as int {
        lemma_calibration_reproduces_points(pts, i);
        lemma_lerp_at_ends(p0, p1);
    } else {
        assert(pts[0].0 <= p0.0 < x < p1.0 <= pts[n - 1].0);
        let k = segment_of(pts, x);
        assert(0 <= i < n - 1 && pts[i].0 <= x < pts[i + 1].0);
        if k < i {
            assert(pts[k + 1].0 <= pts[i].0);
        } else if k > i {
            assert(pts[i + 1].0 <= pts[k].0);
        }
        assert(k == i);
    }
}

/// Below the first point the calibration extends the first segment, and
/// above the last point it extends the last one.
pub proof fn lemma_calibration_extrapolates(pts: Seq<(i64, i64)>, x: int)
    requires
        strictly_ascending(pts),
        pts.len() >= 2,
    ensures
        x <= pts[0].0 ==> calibrated(pts, x) == pts[0].1 + ((x - pts[0].0) * (pts[1].1 - pts[0].1))
            / (pts[1].0 - pts[0].0),
        x >= pts[pts.len() - 1].0 ==> calibrated(pts, x) == pts[pts.len() - 2].1 + ((x - pts[pts.len()
            - 2].0) * (pts[pts.len() - 1].1 - pts[pts.len() - 2].1)) / (pts[pts.len() - 1].0 - pts[pts.len()
            - 2].0),
{
    let n = pts.len() as int;
    assert(pts[0].0 < pts[1].0);
    if x >= pts[n - 1].0 && x <= pts[0].0 {
        assert(pts[0].0 < pts[n - 1].0);
    }
}

/// With no point the calibration passes readings through, and with one
/// point it shifts every reading by that point's correction.
pub proof fn lemma_calibration_offset(pts: Seq<(i64, i64)>, x: int)
    requires
        pts.len() <= 1,
    ensures
        pts.len() == 0 ==> calibrated(pts, x) == x,
        pts.len() == 1 ==> calibrated(pts, x) - x == pts[0].1 - pts[0].0,
{
}

/// Between two neighbouring points the calibrated value lies between their
/// actual values.
pub proof fn lemma_calibration_between_neighbours(pts: Seq<(i64, i64)>, i: int, x: int)
    requires
        strictly_ascending(pts),
        0 <= i < pts.len() - 1,
        pts[i].0 <= x <= pts[i + 1].0,
    ensures
        pts[i].1 <= pts[i + 1].1 ==> pts[i].1 <= calibrated(pts, x) <= pts[i + 1].1,
        pts[i + 1].1 <= pts[i].1 ==> pts[i + 1].1 <= calibrated(pts, x) <= pts[i].1,
{
    let n = pts.len() as int;
    let p0 = pts[i];
    let p1 = pts[i + 1];
    lemma_lerp_between(p0, p1, x);
    if x == p1.0 as int {
        lemma_calibration_reproduces_points(pts, i + 1);
        lemma_lerp_at_ends(p0, p1);
    } else if x == p0.0 as int {
        lemma_calibration_reproduces_points(pts, i);
        lemma_lerp_at_ends(p0, p1);
    } else {
        assert(pts[0].0 <= p0.0 < x < p1.0 <= pts[n - 1].0);
        let k = segment_of(pts, x);
        assert(0 <= i < n - 1 && pts[i].0 <= x < pts[i + 1].0);
        if k < i {
            assert(pts[k + 1].0 <= pts[i].0);
        } else if k > i {
            assert(pts[i + 1].0 <= pts[k].0);
        }
        assert(k == i);
    }
}

proof fn lemma_lerp_between(p0: (i64, i64), p1: (i64, i64), x: int)
    requires
        p0.0 < p1.0,
        p0.0 <= x <= p1.0,
    ensures
        p0.1 <= p1.1 ==> p0.1 <= lerp(p0, p1, x) <= p1.1,
        p1.1 <= p0.1 ==> p1.1 <= lerp(p0, p1, x) <= p0.1,
{
    let dx = p1.0 - p0.0;
    let dy = p1.1 - p0.1;
    let ox = x - p0.0;
    let q = (ox * dy) / dx;
    let r = (ox * dy) % dx;
    vstd::arithmetic::div_mod::lemma_fundamental_div_mod(ox * dy, dx);
    assert(0 <= r < dx);
    if dy >= 0 {
        assert(0 <= q <= dy) by (nonlinear_arith)
            requires
                ox * dy == dx * q + r,
                0 <= r < dx,
                0 <= ox <= dx,
                dy >= 0,
        ;
    } else {
        assert(dy <= q <= 0) by (nonlinear_arith)
            requires
                ox * dy == dx * q + r,
                0 <= r < dx,
                0 <= ox <= dx,
                dy < 0,
        ;
    }
}

/// One row of a calibration file, as read by the collector.
pub enum CalibrationRow {
    /// A point: raw and actual pH, in micro-pH.
    Point { line: usize, raw: i64, actual: i64 },
    /// A row whose raw column is a number but whose actual column is not.
    BadActual { line: usize, text: String },
}

/// Why a calibration file was refused.
pub enum CalibrationError {
    /// The actual column of `line` is not a number.
    BadActual { line: usize, text: String },
    /// A value on `line` lies outside pH 0–14.
    OutOfRange { line: usize, raw: i64, actual: i64 },
}

impl CalibrationError {
    /// The report of a refused calibration file.
    pub open spec fn spec_message(&self) -> Seq<char> {
        match self {
            CalibrationError::BadActual { line, text } => "line "@ + ascii_chars(decimal(*line as nat))
                + ": cannot parse actual_ph '"@ + text@ + "'"@,
            CalibrationError::OutOfRange { line, raw, actual } => "line "@ + ascii_chars(
                decimal(*line as nat),
            ) + ": pH values must be 0–14 (got raw="@ + ascii_chars(millionths_text(*raw as int))
                + ", actual="@ + ascii_chars(millionths_text(*actual as int)) + ")"@,
        }
    }

    /// The report of a refused calibration file, with the pH values written
    /// as decimals.
    pub fn message(&self) -> (m: String)
        ensures
            m@ == self.spec_message(),
    {
        match self {
            CalibrationError::BadActual { line, text } => {
                let n = decimal_string(*line as u64);
                String::from_str("line ").concat(n.as_str()).concat(": cannot parse actual_ph '").concat(
                    text.as_str(),
                ).concat("'")
            },
            CalibrationError::OutOfRange { line, raw, actual } => {
                let n = decimal_string(*line as u64);
                let r = millionths_string(*raw);
                let a = millionths_string(*actual);
                String::from_str("line ").concat(n.as_str()).concat(
                    ": pH values must be 0–14 (got raw=",
                ).concat(r.as_str()).concat(", actual=").concat(a.as_str()).concat(")")
            },
        }
    }
}

/// A row that is a point with both values in range.
pub open spec fn row_ok(r: CalibrationRow) -> bool {
    r matches CalibrationRow::Point { raw, actual, .. } && in_ph_range(raw) && in_ph_range(actual)
}

/// The point a row stands for.
pub open spec fn row_point(r: CalibrationRow) -> (i64, i64) {
    match r {
        CalibrationRow::Point { raw, actual, .. } => (raw, actual),
        CalibrationRow::BadActual { .. } => (0, 0),
    }
}

/// The points of the rows, in file order.
pub open spec fn row_points(rows: Seq<CalibrationRow>) -> Seq<(i64, i64)> {
    Seq::new(rows.len(), |i: int| row_point(rows[i]))
}

/// The error a refused row is reported with.
pub open spec fn row_error(r: CalibrationRow) -> CalibrationError {
    match r {
        CalibrationRow::Point { line, raw, actual } => CalibrationError::OutOfRange { line, raw, actual },
        CalibrationRow::BadActual { line, text } => CalibrationError::BadActual { line, text },
    }
}

/// A pH calibration: the points, ascending by raw value, in micro-pH.
pub struct PhCalibration {
    points: Vec<(i64, i64)>,
}

impl PhCalibration {
    /// The calibration points, ascending by raw value.
    pub closed spec fn spec_points(self) -> Seq<(i64, i64)> {
        self.points@
    }

    /// Points ascending by raw value, all in the range 0–14.
    pub open spec fn wf(self) -> bool {
        &&& strictly_ascending(self.spec_points())
        &&& all_in_range(self.spec_points())
    }

    /// The calibration that changes nothing.
    pub fn identity() -> (c: Self)
        ensures
            c.wf(),
            c.spec_points() == Seq::<(i64, i64)>::empty(),
    {
        PhCalibration { points: Vec::new() }
    }

    /// Builds the calibration from the rows of a calibration file, in file
    /// order. The first row that is not a point with both values in 0–14 is
    /// reported; otherwise the points are kept ascending by raw value, one per
    /// raw value: the first one given for it.
    pub fn from_rows(rows: &[CalibrationRow]) -> (res: Result<Self, CalibrationError>)
        ensures
            res is Ok <==> forall|i: int| 0 <= i < rows@.len() ==> row_ok(#[trigger] rows@[i]),
            res matches Ok(c) ==> c.wf(),
            res matches Ok(c) ==> is_table_of(c.spec_points(), row_points(rows@)),
            res matches Err(e) ==> exists|k: int|
                0 <= k < rows@.len() && !row_ok(#[trigger] rows@[k]) && (forall|i: int|
                    0 <= i < k ==> row_ok(#[trigger] rows@[i])) && e == row_error(rows@[k]),
    {
        let ghost rs = rows@;
        let mut table: Vec<(i64, i64)> = Vec::new();
        let n = rows.len();
        let mut i: usize = 0;
        assert(row_points(rs).take(0) =~= Seq::<(i64, i64)>::empty());
        while i < n
            invariant
                n == rs.len(),
                i <= n,
                rows@ == rs,
                forall|k: int| 0 <= k < i ==> row_ok(#[trigger] rs[k]),
                is_table_of(table@, row_points(rs).take(i as int)),
                all_in_range(table@),
            decreases n - i,
        {
            match &rows[i] {
                CalibrationRow::Point { line, raw, actual } => {
                    let line = *line;
                    let raw = *raw;
                    let actual = *actual;
                    if !(0 <= raw && raw <= PH_MAX_MICRO && 0 <= actual && actual <= PH_MAX_MICRO) {
                        return Err(CalibrationError::OutOfRange { line, raw, actual });
                    }
                    let ghost before = row_points(rs).take(i as int);
                    insert_first(&mut table, (raw, actual), Ghost(before));
                    assert(row_points(rs).take(i + 1) =~= before.push((raw, actual)));
                    assert(all_in_range(table@)) by {
                        assert forall|j: int| 0 <= j < table@.len() implies in_ph_range(
                            #[trigger] table@[j].0,
                        ) && in_ph_range(table@[j].1) by {
                            let tj = table@[j];
                            assert(first_value(before.push((raw, actual)), tj.0) == Some(tj.1));
                            lemma_first_value_in_range(before.push((raw, actual)), tj.0, i as int + 1, rs);
                        }
                    }
                },
                CalibrationRow::BadActual { line, text } => {
                    return Err(CalibrationError::BadActual { line: *line, text: text.clone() });
                },
            }
            i = i + 1;
        }
        assert(row_points(rs).take(n as int) =~= row_points(rs));
        Ok(PhCalibration { points: table })
    }

    /// Applies the calibration to a raw reading, both in micro-pH.
    pub fn apply(&self, raw: i64) -> (y: i128)
        requires
            self.wf(),
        ensures
            y == calibrated(self.spec_points(), raw as int),
    {
        let pts = &self.points;
        let n = pts.len();
        if n == 0 {
            raw as i128
        } else if n == 1 {
            raw as i128 + (pts[0].1 as i128 - pts[0].0 as i128)
        } else {
            interpolate_at(pts, raw)
        }
    }

    /// The calibration points, ascending by raw value, in micro-pH.
    pub fn points(&self) -> (p: &[(i64, i64)])
        ensures
            p@ == self.spec_points(),
    {
        self.points.as_slice()
    }

    /// Whether any calibration point is loaded.
    pub fn is_active(&self) -> (a: bool)
        ensures
            a == (self.spec_points().len() > 0),
    {
        self.points.len() > 0
    }
}

#[verifier::spinoff_prover]
#[verifier::rlimit(40)]
fn interpolate_at(pts: &Vec<(i64, i64)>, x: i64) -> (y: i128)
    requires
        pts@.len() >= 2,
        strictly_ascending(pts@),
        all_in_range(pts@),
    ensures
        y == interpolate(pts@, x as int),
{
    let n = pts.len();
    assert(in_ph_range(pts@[0].0) && in_ph_range(pts@[1].0));
    if x <= pts[0].0 {
        return lerp_at(pts[0], pts[1], x);
    }
    if x >= pts[n - 1].0 {
        assert(in_ph_range(pts@[n - 2].0) && in_ph_range(pts@[n - 1].0));
        return lerp_at(pts[n - 2], pts[n - 1], x);
    }
    let mut i: usize = 0;
    while i < n - 1
        invariant
            n == pts@.len(),
            n >= 2,
            i <= n - 1,
            strictly_ascending(pts@),
            all_in_range(pts@),
            pts@[0].0 < x < pts@[n - 1].0,
            forall|j: int| 1 <= j <= i ==> #[trigger] pts@[j].0 < x,
        decreases n - 1 - i,
    {
        if x >= pts[i].0 && x <= pts[i + 1].0 {
            let ghost k = segment_of(pts@, x as int);
            assert(in_ph_range(pts@[i as int].0) && in_ph_range(pts@[i + 1].0));
            proof {
                assert(0 <= k < n - 1 && pts@[k].0 <= x < pts@[k + 1].0) by {
                    if x < pts@[i + 1].0 {
                        assert(0 <= i < n - 1 && pts@[i as int].0 <= x < pts@[i + 1].0);
                    } else {
                        assert(i + 1 < n - 1);
                        assert(pts@[i + 1].0 < pts@[i + 2].0);
                        assert(0 <= i + 1 < n - 1 && pts@[i + 1].0 <= x < pts@[i + 2].0);
                    }
                }
                if x < pts@[i + 1].0 {
                    if k < i {
                        assert(1 <= k + 1 <= i);
                        assert(pts@[k + 1].0 < x);
                    } else if k > i {
                        assert(pts@[i + 1].0 <= pts@[k].0);
                    }
                    assert(k == i);
                } else {
                    if k < i + 1 {
                        if k < i {
                            assert(1 <= k + 1 <= i);
                            assert(pts@[k + 1].0 < x);
                        }
                        assert(pts@[k + 1].0 > x);
                    } else if k > i + 1 {
                        assert(pts@[i + 1].0 < pts@[k].0);
                    }
                    assert(k == i + 1);
                    lemma_lerp_at_ends(pts@[i as int], pts@[i + 1]);
                    lemma_lerp_at_ends(pts@[i + 1], pts@[i + 2]);
                }
            }
            return lerp_at(pts[i], pts[i + 1], x);
        }
        assert(i == 0 || pts@[i as int].0 < x);
        assert(x > pts@[i + 1].0);
        i = i + 1;
    }
    proof {
        assert(pts@[n - 1].0 < x);
        assert(false);
    }
    x as i128
}

proof fn lemma_first_value_in_range(input: Seq<(i64, i64)>, key: i64, m: int, rs: Seq<CalibrationRow>)
    requires
        0 <= m <= rs.len(),
        input == row_points(rs).take(m),
        forall|k: int| 0 <= k < m ==> row_ok(#[trigger] rs[k]),
        first_value(input, key) is Some,
    ensures
        in_ph_range(key),
        in_ph_range(first_value(input, key)->0),
    decreases m,
{
    if m > 0 {
        let prev = row_points(rs).take(m - 1);
        assert(input.drop_last() =~= prev);
        assert(row_ok(rs[m - 1]));
        if first_value(prev, key) is None {
            assert(input.last() == row_point(rs[m - 1]));
        } else {
            lemma_first_value_in_range(prev, key, m - 1, rs);
        }
    }
}

} // verus!
