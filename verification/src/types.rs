use vstd::prelude::*;

verus! {

/// Number of millidegrees in a full turn: the period of a `Degrees` angle.
pub const FULL_TURN_MDEG: i64 = 360_000;

/// Number of microradians in a full turn (2*pi scaled by 1_000_000, rounded
/// down): the period of a `Radians` angle.
pub const FULL_TURN_URAD: i64 = 6_283_185;

/// An axis-aligned rectangle described by its top-left corner and its extent.
/// `right` and `bottom` are derived; the closed box [left, right] x [top, bottom]
/// is what the renderers draw.
#[derive(Debug, Clone, Copy)]
pub struct Rect {
    left: u32,
    top: u32,
    width: u32,
    height: u32,
}

impl Rect {
    pub closed spec fn spec_left(self) -> u32 {
        self.left
    }

    pub closed spec fn spec_top(self) -> u32 {
        self.top
    }

    pub closed spec fn spec_width(self) -> u32 {
        self.width
    }

    pub closed spec fn spec_height(self) -> u32 {
        self.height
    }

    pub open spec fn spec_right(self) -> int {
        self.spec_left() + self.spec_width()
    }

    pub open spec fn spec_bottom(self) -> int {
        self.spec_top() + self.spec_height()
    }

    /// The derived edges fit in the coordinate type.
    pub open spec fn wf(self) -> bool {
        self.spec_right() <= u32::MAX && self.spec_bottom() <= u32::MAX
    }

    pub fn new(left: u32, top: u32, width: u32, height: u32) -> (r: Rect)
        requires
            left + width <= u32::MAX,
            top + height <= u32::MAX,
        ensures
            r.wf(),
            r.spec_left() == left,
            r.spec_top() == top,
            r.spec_width() == width,
            r.spec_height() == height,
    {
        Self { left, top, width, height }
    }

    pub fn left(&self) -> (r: u32)
        ensures
            r == self.spec_left(),
    {
        self.left
    }

    pub fn right(&self) -> (r: u32)
        requires
            self.wf(),
        ensures
            r == self.spec_right(),
    {
        self.left + self.width
    }

    pub fn top(&self) -> (r: u32)
        ensures
            r == self.spec_top(),
    {
        self.top
    }

    pub fn bottom(&self) -> (r: u32)
        requires
            self.wf(),
        ensures
            r == self.spec_bottom(),
    {
        self.top + self.height
    }

    pub fn width(&self) -> (r: u32)
        ensures
            r == self.spec_width(),
    {
        self.width
    }

    pub fn height(&self) -> (r: u32)
        ensures
            r == self.spec_height(),
    {
        self.height
    }
}

/// A circle described by its center and a non-negative integer radius.
/// A radius of zero makes every draw operation a no-op.
#[derive(Debug, Clone, Copy)]
pub struct Circle {
    center_x: u32,
    center_y: u32,
    radius: u32,
}

impl Circle {
    pub closed spec fn spec_center(self) -> (u32, u32) {
        (self.center_x, self.center_y)
    }

    pub closed spec fn spec_radius(self) -> u32 {
        self.radius
    }

    pub fn new(center: (u32, u32), radius: u32) -> (r: Self)
        ensures
            r.spec_center() == center,
            r.spec_radius() == radius,
    {
        Self { center_x: center.0, center_y: center.1, radius }
    }

    pub fn center(&self) -> (r: (u32, u32))
        ensures
            r == self.spec_center(),
    {
        (self.center_x, self.center_y)
    }

    pub fn radius(&self) -> (r: u32)
        ensures
            r == self.spec_radius(),
    {
        self.radius
    }
}

/// An RGBA color with 8-bit channels. The renderers treat the alpha channel
/// as the coverage weight handed to the canvas's blend operation.
#[derive(Debug, Clone, Copy, PartialEq, Eq, Structural)]
pub struct Color {
    pub r: u8,
    pub g: u8,
    pub b: u8,
    pub a: u8,
}

impl Color {
    /// The four channel values as a plain tuple, the form the canvas model uses.
    pub open spec fn channels(self) -> (u8, u8, u8, u8) {
        (self.r, self.g, self.b, self.a)
    }

    /// The same color under another coverage weight `a` (255 is full coverage).
    pub open spec fn spec_with_alpha(self, a: u8) -> Color {
        Color { r: self.r, g: self.g, b: self.b, a }
    }

    pub fn with_alpha(self, a: u8) -> (r: Color)
        ensures
            r == self.spec_with_alpha(a),
    {
        Color { r: self.r, g: self.g, b: self.b, a }
    }
}

/// An angular value in fixed point, tagged with its unit: `Degrees` holds
/// millidegrees, `Radians` holds microradians. The fixed-point scale makes
/// the wrap-around arithmetic of `normalized` exact.
#[derive(Debug, Clone, Copy, PartialEq, Eq, Structural)]
pub enum Angle {
    Degrees(i64),
    Radians(i64),
}

impl Angle {
    /// The stored fixed-point scalar, whatever the unit.
    pub open spec fn spec_raw(self) -> int {
        match self {
            Angle::Degrees(d) => d as int,
            Angle::Radians(r) => r as int,
        }
    }

    /// The period of the stored unit: a full turn in that unit's scale.
    pub open spec fn spec_period(self) -> int {
        match self {
            Angle::Degrees(_) => FULL_TURN_MDEG as int,
            Angle::Radians(_) => FULL_TURN_URAD as int,
        }
    }

    /// The scalar after normalization. A value already in the closed range
    /// [0, period] is kept as it is (so a full turn stays a full turn);
    /// anything else is reduced modulo the period into [0, period).
    pub open spec fn spec_wrapped(self) -> int {
        if 0 <= self.spec_raw() && self.spec_raw() <= self.spec_period() {
            self.spec_raw()
        } else {
            self.spec_raw() % self.spec_period()
        }
    }

    /// `normalized` as a value: the wrapped scalar under the same unit tag.
    pub open spec fn spec_normalized(self) -> Angle {
        match self {
            Angle::Degrees(_) => Angle::Degrees(self.spec_wrapped() as i64),
            Angle::Radians(_) => Angle::Radians(self.spec_wrapped() as i64),
        }
    }

    /// An angle the arc routines accept: already reduced into one turn.
    pub open spec fn is_normalized(self) -> bool {
        0 <= self.spec_raw() && self.spec_raw() <= self.spec_period()
    }

    /// The value in millidegrees, converting if the unit is radians.
    /// Conversion truncates toward zero, as the fixed-point scale demands.
    pub open spec fn spec_deg(self) -> int {
        match self {
            Angle::Degrees(d) => d as int,
            Angle::Radians(r) => if r >= 0 {
                (r as int * FULL_TURN_MDEG as int) / (FULL_TURN_URAD as int)
            } else {
                -((-(r as int) * FULL_TURN_MDEG as int) / (FULL_TURN_URAD as int))
            },
        }
    }

    /// The value in microradians, converting if the unit is degrees.
    pub open spec fn spec_rad(self) -> int {
        match self {
            Angle::Degrees(d) => if d >= 0 {
                (d as int * FULL_TURN_URAD as int) / (FULL_TURN_MDEG as int)
            } else {
                -((-(d as int) * FULL_TURN_URAD as int) / (FULL_TURN_MDEG as int))
            },
            Angle::Radians(r) => r as int,
        }
    }

    pub fn normalize(&mut self)
        requires
            old(self).spec_raw() > i64::MIN,
        ensures
            *final(self) == old(self).spec_normalized(),
    {
        *self = self.normalized()
    }

    pub fn normalized(&self) -> (r: Self)
        requires
            self.spec_raw() > i64::MIN,
        ensures
            r == self.spec_normalized(),
    {
        match self {
            Angle::Degrees(d) => {
                let d = *d;
                if 0 <= d && d <= FULL_TURN_MDEG {
                    Angle::Degrees(d)
                } else {
                    Angle::Degrees(wrap_to_period(d, FULL_TURN_MDEG))
                }
            },
            Angle::Radians(r) => {
                let r = *r;
                if 0 <= r && r <= FULL_TURN_URAD {
                    Angle::Radians(r)
                } else {
                    Angle::Radians(wrap_to_period(r, FULL_TURN_URAD))
                }
            },
        }
    }

    pub fn to_degrees(&self) -> (r: i64)
        requires
            -1_000_000_000_000 <= self.spec_raw() <= 1_000_000_000_000,
        ensures
            r == self.spec_deg(),
    {
        match self {
            Angle::Degrees(d) => *d,
            Angle::Radians(r) => scale_trunc(*r, FULL_TURN_MDEG, FULL_TURN_URAD),
        }
    }

    pub fn to_radians(&self) -> (r: i64)
        requires
            -1_000_000_000_000 <= self.spec_raw() <= 1_000_000_000_000,
        ensures
            r == self.spec_rad(),
    {
        match self {
            Angle::Degrees(d) => scale_trunc(*d, FULL_TURN_URAD, FULL_TURN_MDEG),
            Angle::Radians(r) => *r,
        }
    }
}

/// Reduce `v` modulo the positive period `p` into [0, p), matching the
/// mathematical (Euclidean) remainder also for negative `v`.
fn wrap_to_period(v: i64, p: i64) -> (r: i64)
    requires
        0 < p,
        i64::MIN < v,
    ensures
        r == (v as int) % (p as int),
{
    if v >= 0 {
        let r = (v as u64) % (p as u64);
        proof {
            vstd::arithmetic::div_mod::lemma_mod_division_less_than_divisor(v as int, p as int);
        }
        r as i64
    } else {
        let m = ((-v) as u64) % (p as u64);
        proof {
            let a = -(v as int);
            assert(m as int == a % (p as int));
            vstd::arithmetic::div_mod::lemma_mod_division_less_than_divisor(a, p as int);
            vstd::arithmetic::div_mod::lemma_fundamental_div_mod(a, p as int);
            let q = a / (p as int);
            assert(a == (p as int) * q + (a % (p as int)));
            assert(q * (p as int) == (p as int) * q) by (nonlinear_arith);
            assert(a == q * (p as int) + m);
            if m == 0 {
                assert(v as int == -q * (p as int) + 0) by (nonlinear_arith)
                    requires a == q * (p as int), v as int == -a;
                vstd::arithmetic::div_mod::lemma_fundamental_div_mod_converse_mod(
                    v as int, p as int, -q, 0);
            } else {
                assert(v as int == (-q - 1) * (p as int) + ((p as int) - m)) by (nonlinear_arith)
                    requires a == q * (p as int) + m, v as int == -a;
                vstd::arithmetic::div_mod::lemma_fundamental_div_mod_converse_mod(
                    v as int, p as int, -q - 1, (p as int) - m);
            }
        }
        if m == 0 {
            0
        } else {
            p - (m as i64)
        }
    }
}

/// Multiply `v` by `num / den`, truncating toward zero: the fixed-point unit
/// conversion shared by `to_degrees` and `to_radians`.
fn scale_trunc(v: i64, num: i64, den: i64) -> (r: i64)
    requires
        0 < num <= 0x80_0000,
        0 < den <= 0x80_0000,
        -1_000_000_000_000 <= v <= 1_000_000_000_000,
    ensures
        v >= 0 ==> r == (v as int * num as int) / (den as int),
        v < 0 ==> r == -((-(v as int) * num as int) / (den as int)),
{
    if v >= 0 {
        proof {
            assert(v as int * num as int <= 1_000_000_000_000 * 0x80_0000) by (nonlinear_arith)
                requires 0 <= v <= 1_000_000_000_000, 0 < num <= 0x80_0000;
        }
        let q = ((v as u64) * (num as u64)) / (den as u64);
        proof {
            vstd::arithmetic::div_mod::lemma_div_nonincreasing(v as int * num as int, den as int);
            vstd::arithmetic::div_mod::lemma_div_pos_is_pos(v as int * num as int, den as int);
        }
        q as i64
    } else {
        let a = -v;
        proof {
            assert(a as int * num as int <= 1_000_000_000_000 * 0x80_0000) by (nonlinear_arith)
                requires 0 <= a <= 1_000_000_000_000, 0 < num <= 0x80_0000;
        }
        let q = ((a as u64) * (num as u64)) / (den as u64);
        proof {
            vstd::arithmetic::div_mod::lemma_div_nonincreasing(a as int * num as int, den as int);
            vstd::arithmetic::div_mod::lemma_div_pos_is_pos(a as int * num as int, den as int);
        }
        -(q as i64)
    }
}

/// Normalization maps any angle (other than an exact full turn, which it
/// keeps) into the canonical half-open range [0, period), and the result is
/// congruent to the input modulo the period.
pub proof fn lemma_normalized_canonical(a: Angle)
    ensures
        a.spec_raw() != a.spec_period() ==> 0 <= a.spec_normalized().spec_raw()
            < a.spec_period(),
        (a.spec_normalized().spec_raw() - a.spec_raw()) % a.spec_period() == 0,
{
    let v = a.spec_raw();
    let p = a.spec_period();
    if 0 <= v && v <= p {
        vstd::arithmetic::div_mod::lemma_small_mod(0nat, p as nat);
    } else {
        vstd::arithmetic::div_mod::lemma_mod_division_less_than_divisor(v, p);
        vstd::arithmetic::div_mod::lemma_sub_mod_noop(v, v, p);
        vstd::arithmetic::div_mod::lemma_small_mod(0nat, p as nat);
        assert((v % p - v % p) % p == (v - v) % p);
        assert(a.spec_normalized().spec_raw() - a.spec_raw() == v % p - v);
        vstd::arithmetic::div_mod::lemma_sub_mod_noop(v % p, v, p);
        vstd::arithmetic::div_mod::lemma_mod_twice(v, p);
        assert(((v % p) % p - v % p) % p == (v % p - v) % p);
    }
}

/// A normalized angle lies in the closed range [0, period].
pub proof fn lemma_normalized_in_range(a: Angle)
    ensures
        a.spec_normalized().is_normalized(),
        0 <= a.spec_normalized().spec_raw() <= a.spec_period(),
        a.spec_normalized().spec_period() == a.spec_period(),
{
    let v = a.spec_raw();
    let p = a.spec_period();
    if !(0 <= v && v <= p) {
        vstd::arithmetic::div_mod::lemma_mod_division_less_than_divisor(v, p);
    }
}

/// Normalization is idempotent: normalizing a second time changes nothing.
pub proof fn lemma_normalized_idempotent(a: Angle)
    ensures
        a.spec_normalized().spec_normalized() == a.spec_normalized(),
{
    let v = a.spec_raw();
    let p = a.spec_period();
    if !(0 <= v && v <= p) {
        vstd::arithmetic::div_mod::lemma_mod_bound(v, p);
    }
}

} // verus!
