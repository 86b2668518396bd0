//! The meter: where a signed 64-bit integer stands within its range, on a
//! track of fixed width.
//!
//! The position is defined as binary64 arithmetic yields it, each
//! intermediate result rounded to 53 significant bits, so that the cell is
//! the one that a computation in that arithmetic would find.

use vstd::prelude::*;
use crate::text::magnitude;

verus! {

/// The last cell of the track; the cells are `0..=WIDTH`.
pub const WIDTH: usize = 48;

/// The cell that stands for zero.
pub const ZERO_CELL: usize = 24;

/// The weight of the lowest bit that a 53-bit significand keeps of `x`:
/// 1 below `2^53`, and doubling with each further bit of `x`.
pub open spec fn unit_in_last_place(x: nat) -> nat
    decreases x,
{
    if x < 0x20_0000_0000_0000 {
        1
    } else {
        2 * unit_in_last_place(x / 2)
    }
}

/// `x` rounded to the nearest multiple of `unit`, and of two equally near
/// ones to the even one.
pub open spec fn round_to_multiple(x: nat, unit: nat) -> nat {
    let low = x % unit;
    let below = (x - low) as nat;
    if 2 * low < unit || (2 * low == unit && (x / unit) % 2 == 0) {
        below
    } else {
        below + unit
    }
}

/// `x` rounded to 53 significant bits: to the nearest multiple of its unit in
/// the last place, ties to even.
pub open spec fn round_to_53_bits(x: nat) -> nat {
    round_to_multiple(x, unit_in_last_place(x))
}

/// The position of `n` on the track, in units of `2^-60` cells. With
/// `a` = `n` rounded, it is `((a / 2^63 + 1) / 2) * 48`, the sum and the
/// product rounded in turn (the divisions are exact), and never beyond the
/// last cell.
pub open spec fn scaled_position(n: i64) -> nat {
    let rounded = if n < 0 {
        -(round_to_53_bits((-n) as nat) as int)
    } else {
        round_to_53_bits(n as nat) as int
    };
    let sum = round_to_53_bits((rounded + 0x8000_0000_0000_0000) as nat);
    let product = round_to_53_bits(3 * sum);
    if product > 48 * 0x1000_0000_0000_0000 {
        48 * 0x1000_0000_0000_0000
    } else {
        product
    }
}

/// The cell of `n`: its position rounded to the nearest cell, a position
/// halfway between two cells to the upper one.
pub open spec fn meter_position(n: i64) -> nat {
    (scaled_position(n) + 0x800_0000_0000_0000) / 0x1000_0000_0000_0000
}

/// The unit in the last place is at least 1 and, times `2^52`, at most `x`
/// once `x` has more than 53 bits.
proof fn lemma_unit_bounds(x: nat)
    ensures
        unit_in_last_place(x) >= 1,
        x >= 0x20_0000_0000_0000 ==> unit_in_last_place(x) * 0x10_0000_0000_0000 <= x,
        x < 0x20_0000_0000_0000 ==> unit_in_last_place(x) == 1,
    decreases x,
{
    if x >= 0x20_0000_0000_0000 {
        lemma_unit_bounds(x / 2);
    }
}

/// Rounds `x` to 53 significant bits.
pub fn round_53(x: u128) -> (rounded: u128)
    requires
        x <= 0x1_0000_0000_0000_0000_0000_0000,
    ensures
        rounded == round_to_53_bits(x as nat),
        rounded <= 2 * x,
{
    let mut unit: u128 = 1;
    let mut top: u128 = x;
    while top >= 0x20_0000_0000_0000
        invariant
            x <= 0x1_0000_0000_0000_0000_0000_0000,
            unit >= 1,
            unit * top <= x,
            top == x / unit,
            unit == 1 || top >= 1,
            unit_in_last_place(x as nat) == unit * unit_in_last_place(top as nat),
        decreases top,
    {
        proof {
            let u = unit as int;
            let t = top as int;
            assert(2 * u * (t / 2) <= u * t) by (nonlinear_arith)
                requires
                    u >= 1,
                    t >= 0,
            ;
            vstd::arithmetic::div_mod::lemma_div_denominator(x as int, u, 2);
            assert(u * 2 == 2 * u);
            assert(u * (2 * unit_in_last_place((top / 2) as nat)) == 2 * u * unit_in_last_place(
                (top / 2) as nat,
            )) by (nonlinear_arith);
            assert(2 * u <= x) by (nonlinear_arith)
                requires
                    u * t <= x,
                    t >= 2,
                    u >= 1,
            ;
        }
        unit = unit * 2;
        top = top / 2;
    }
    proof {
        lemma_unit_bounds(top as nat);
        assert(unit * 1 == unit) by (nonlinear_arith);
        assert(unit <= x || unit == 1) by (nonlinear_arith)
            requires
                unit * top <= x,
                unit == 1 || top >= 1,
        ;
    }
    let low: u128 = x % unit;
    let below: u128 = x - low;
    if 2 * low < unit || (2 * low == unit && top % 2 == 0) {
        below
    } else {
        below + unit
    }
}

/// The cell of `n` on the track.
pub fn meter_index(n: i64) -> (cell: usize)
    ensures
        cell == meter_position(n),
        cell <= WIDTH,
{
    let size: u128 = round_53(magnitude(n) as u128);
    let half: u128 = 0x8000_0000_0000_0000;
    proof {
        if n < 0 {
            lemma_round_keeps_bound((-n) as nat);
        }
    }
    let raised: u128 = if n < 0 {
        half - size
    } else {
        half + size
    };
    let sum: u128 = round_53(raised);
    let product: u128 = round_53(3 * sum);
    let full: u128 = 48 * 0x1000_0000_0000_0000;
    let clamped: u128 = if product > full {
        full
    } else {
        product
    };
    ((clamped + 0x800_0000_0000_0000) / 0x1000_0000_0000_0000) as usize
}

/// Rounding does not carry a magnitude of at most `2^63` past `2^63`.
proof fn lemma_round_keeps_bound(x: nat)
    requires
        x <= 0x8000_0000_0000_0000,
    ensures
        round_to_53_bits(x) <= 0x8000_0000_0000_0000,
{
    reveal_with_fuel(unit_in_last_place, 13);
    let unit = unit_in_last_place(x);
    assert(unit == 1 || unit == 2 || unit == 4 || unit == 8 || unit == 16 || unit == 32 || unit
        == 64 || unit == 128 || unit == 256 || unit == 512 || unit == 1024 || unit == 2048);
    assert(x < 0x8000_0000_0000_0000 ==> unit <= 1024);
}

/// A number stays below `2^53` units in its last place.
proof fn lemma_unit_upper(x: nat)
    ensures
        x < unit_in_last_place(x) * 0x20_0000_0000_0000,
    decreases x,
{
    if x >= 0x20_0000_0000_0000 {
        lemma_unit_upper(x / 2);
    }
}

/// The unit in the last place grows with the number, by doubling.
proof fn lemma_unit_steps(x: nat, y: nat)
    requires
        x <= y,
    ensures
        unit_in_last_place(x) == unit_in_last_place(y) || 2 * unit_in_last_place(x)
            <= unit_in_last_place(y),
    decreases y,
{
    lemma_unit_bounds(x);
    lemma_unit_bounds(y);
    if x >= 0x20_0000_0000_0000 {
        lemma_unit_steps(x / 2, y / 2);
    } else if y >= 0x20_0000_0000_0000 {
        lemma_unit_bounds(y / 2);
    }
}

/// Rounding to a multiple of `unit` gives the multiple below or the one
/// above.
proof fn lemma_round_between(x: nat, unit: nat)
    requires
        unit >= 1,
    ensures
        x == unit * (x / unit) + x % unit,
        0 <= x % unit < unit,
        round_to_multiple(x, unit) == unit * (x / unit) || round_to_multiple(x, unit) == unit * (x
            / unit) + unit,
{
    vstd::arithmetic::div_mod::lemma_fundamental_div_mod(x as int, unit as int);
    vstd::arithmetic::div_mod::lemma_mod_bound(x as int, unit as int);
}

/// Rounding to multiples of one unit keeps the order.
proof fn lemma_round_to_multiple_monotone(x: nat, y: nat, unit: nat)
    requires
        x <= y,
        unit >= 1,
    ensures
        round_to_multiple(x, unit) <= round_to_multiple(y, unit),
{
    lemma_round_between(x, unit);
    lemma_round_between(y, unit);
    vstd::arithmetic::div_mod::lemma_div_is_ordered(x as int, y as int, unit as int);
    let qx = x / unit;
    let qy = y / unit;
    if qx < qy {
        assert(unit * qx + unit <= unit * qy) by (nonlinear_arith)
            requires
                qx + 1 <= qy,
                unit >= 1,
        ;
    }
}

/// Rounding to 53 significant bits keeps the order.
pub proof fn lemma_round_monotone(x: nat, y: nat)
    requires
        x <= y,
    ensures
        round_to_53_bits(x) <= round_to_53_bits(y),
{
    let ux = unit_in_last_place(x);
    let uy = unit_in_last_place(y);
    lemma_unit_bounds(x);
    lemma_unit_bounds(y);
    lemma_unit_steps(x, y);
    if ux == uy {
        lemma_round_to_multiple_monotone(x, y, ux);
    } else {
        lemma_unit_upper(x);
        lemma_round_between(x, ux);
        lemma_round_between(y, uy);
        let qx = x / ux;
        let qy = y / uy;
        let span: nat = 0x10_0000_0000_0000;
        assert(qx + 1 <= 2 * span) by (nonlinear_arith)
            requires
                x == ux * qx + x % ux,
                0 <= x % ux,
                x < ux * (2 * span),
                ux >= 1,
        ;
        assert(ux * qx + ux <= ux * (2 * span)) by (nonlinear_arith)
            requires
                qx + 1 <= 2 * span,
                ux >= 1,
        ;
        assert(ux * (2 * span) <= uy * span) by (nonlinear_arith)
            requires
                2 * ux <= uy,
        ;
        assert(qy >= span) by (nonlinear_arith)
            requires
                y == uy * qy + y % uy,
                y % uy < uy,
                uy * span <= y,
                uy >= 1,
        ;
        assert(uy * span <= uy * qy) by (nonlinear_arith)
            requires
                qy >= span,
                uy >= 1,
        ;
    }
}

/// The meter keeps the order of the integers: a larger one never stands on
/// an earlier cell.
pub proof fn lemma_meter_monotone(n: i64, m: i64)
    requires
        n <= m,
    ensures
        meter_position(n) <= meter_position(m),
{
    let size_n: nat = if n < 0 {
        (-n) as nat
    } else {
        n as nat
    };
    let size_m: nat = if m < 0 {
        (-m) as nat
    } else {
        m as nat
    };
    lemma_round_keeps_bound(size_n);
    lemma_round_keeps_bound(size_m);
    if m < 0 {
        lemma_round_monotone(size_m, size_n);
    } else if n >= 0 {
        lemma_round_monotone(size_n, size_m);
    }
    let rounded_n: int = if n < 0 {
        -(round_to_53_bits(size_n) as int)
    } else {
        round_to_53_bits(size_n) as int
    };
    let rounded_m: int = if m < 0 {
        -(round_to_53_bits(size_m) as int)
    } else {
        round_to_53_bits(size_m) as int
    };
    assert(rounded_n <= rounded_m);
    let raised_n = (rounded_n + 0x8000_0000_0000_0000) as nat;
    let raised_m = (rounded_m + 0x8000_0000_0000_0000) as nat;
    lemma_round_monotone(raised_n, raised_m);
    lemma_round_monotone(3 * round_to_53_bits(raised_n), 3 * round_to_53_bits(raised_m));
}

/// The ends and the middle of the range stand on the ends and on the zero
/// cell of the track.
pub proof fn lemma_meter_landmarks()
    ensures
        meter_position(0) == ZERO_CELL,
        meter_position(i64::MAX) == WIDTH,
        meter_position(i64::MIN) == 0,
{
    reveal_with_fuel(unit_in_last_place, 16);
    assert(unit_in_last_place(0) == 1);
    assert(unit_in_last_place(0x8000_0000_0000_0000) == 0x800);
    assert(unit_in_last_place(0x7fff_ffff_ffff_ffff) == 0x400);
    assert(unit_in_last_place(0x1_0000_0000_0000_0000) == 0x1000);
    assert(unit_in_last_place(0x1_8000_0000_0000_0000) == 0x1000);
    assert(unit_in_last_place(0x3_0000_0000_0000_0000) == 0x2000);
    assert(round_to_53_bits(0x7fff_ffff_ffff_ffff) == 0x8000_0000_0000_0000);
    assert(round_to_53_bits(0x8000_0000_0000_0000) == 0x8000_0000_0000_0000);
    assert(round_to_53_bits(0x1_0000_0000_0000_0000) == 0x1_0000_0000_0000_0000);
    assert(round_to_53_bits(0x1_8000_0000_0000_0000) == 0x1_8000_0000_0000_0000);
    assert(round_to_53_bits(0x3_0000_0000_0000_0000) == 0x3_0000_0000_0000_0000);
}

/// One cell of the drawn meter.
#[derive(Clone, Copy, Debug, PartialEq, Eq, Structural)]
pub enum MeterCell {
    /// The marker at either end of the track.
    Edge,
    /// The marker of the value.
    Pointer,
    /// The marker of zero, in the middle of the track.
    ZeroMark,
    /// A cell of the track that carries no marker.
    Track,
}

/// What cell `i` of the track shows when the value stands at `pointer`:
/// where the value stands on the cell of zero, its own marker.
pub open spec fn track_cell(i: int, pointer: int) -> MeterCell {
    if i == pointer {
        MeterCell::Pointer
    } else if i == ZERO_CELL {
        MeterCell::ZeroMark
    } else {
        MeterCell::Track
    }
}

/// The drawn meter: the cells `0..=WIDTH` between two edge markers.
pub open spec fn track_of(pointer: int) -> Seq<MeterCell> {
    seq![MeterCell::Edge] + Seq::new((WIDTH + 1) as nat, |i: int| track_cell(i, pointer))
        + seq![MeterCell::Edge]
}

/// Draws the meter with the value's marker at cell `pointer`.
pub fn meter_track(pointer: usize) -> (cells: Vec<MeterCell>)
    ensures
        cells@ == track_of(pointer as int),
{
    let mut cells: Vec<MeterCell> = Vec::new();
    cells.push(MeterCell::Edge);
    let mut i: usize = 0;
    while i <= WIDTH
        invariant
            i <= WIDTH + 1,
            cells@.len() == i + 1,
            cells@[0] == MeterCell::Edge,
            forall|k: int| 0 <= k < i ==> cells@[k + 1] == track_cell(k, pointer as int),
        decreases WIDTH + 1 - i,
    {
        if i == pointer {
            cells.push(MeterCell::Pointer);
        } else if i == ZERO_CELL {
            cells.push(MeterCell::ZeroMark);
        } else {
            cells.push(MeterCell::Track);
        }
        i = i + 1;
    }
    cells.push(MeterCell::Edge);
    assert(cells@ =~= track_of(pointer as int));
    cells
}

/// Draws the meter of `n`.
pub fn meter(n: i64) -> (cells: Vec<MeterCell>)
    ensures
        cells@ == track_of(meter_position(n) as int),
{
    meter_track(meter_index(n))
}

} // verus!
