use vstd::prelude::*;

verus! {

/// A 2D vector with integer components.
#[derive(PartialEq, Eq, Structural, Debug, Clone, Copy)]
pub struct Vec2i {
    pub x: i32,
    pub y: i32,
}

/// The absolute value of an integer.
pub open spec fn abs_int(v: int) -> int {
    if v < 0 { -v } else { v }
}

/// Whether `v` fits in an `i32`.
pub open spec fn fits_i32(v: int) -> bool {
    i32::MIN <= v <= i32::MAX
}

/// Integer division by a positive divisor, rounding toward zero as Rust's `/` does.
pub open spec fn div_toward_zero(a: int, b: int) -> int {
    if a >= 0 { a / b } else { -((-a) / b) }
}

impl Vec2i {
    pub fn new(x: i32, y: i32) -> (r: Self)
        ensures
            r.x == x,
            r.y == y,
    {
        Self { x, y }
    }

    pub fn as_arr(&self) -> (r: [i32; 2])
        ensures
            r@ == seq![self.x, self.y],
    {
        [self.x, self.y]
    }

    /// Component-wise absolute value.
    pub fn abs(&self) -> (r: Self)
        requires
            self.x != i32::MIN,
            self.y != i32::MIN,
        ensures
            r.x == abs_int(self.x as int),
            r.y == abs_int(self.y as int),
    {
        Self {
            x: if self.x < 0 { -self.x } else { self.x },
            y: if self.y < 0 { -self.y } else { self.y },
        }
    }

    /// Adds `rhs` in place.
    pub fn add_assign(&mut self, rhs: &Vec2i)
        requires
            fits_i32(old(self).x + rhs.x),
            fits_i32(old(self).y + rhs.y),
        ensures
            final(self).x == old(self).x + rhs.x,
            final(self).y == old(self).y + rhs.y,
    {
        self.x = self.x + rhs.x;
        self.y = self.y + rhs.y;
    }

    /// Subtracts `rhs` in place.
    pub fn sub_assign(&mut self, rhs: &Vec2i)
        requires
            fits_i32(old(self).x - rhs.x),
            fits_i32(old(self).y - rhs.y),
        ensures
            final(self).x == old(self).x - rhs.x,
            final(self).y == old(self).y - rhs.y,
    {
        self.x = self.x - rhs.x;
        self.y = self.y - rhs.y;
    }

    /// Multiplies component by component, in place.
    pub fn mul_assign(&mut self, rhs: &Vec2i)
        requires
            fits_i32(old(self).x * rhs.x),
            fits_i32(old(self).y * rhs.y),
        ensures
            final(self).x == old(self).x * rhs.x,
            final(self).y == old(self).y * rhs.y,
    {
        self.x = self.x * rhs.x;
        self.y = self.y * rhs.y;
    }

    /// Divides component by component by positive divisors, rounding toward zero, in place.
    pub fn div_assign(&mut self, rhs: &Vec2i)
        requires
            rhs.x > 0,
            rhs.y > 0,
        ensures
            final(self).x == div_toward_zero(old(self).x as int, rhs.x as int),
            final(self).y == div_toward_zero(old(self).y as int, rhs.y as int),
    {
        self.x = self.x / rhs.x;
        self.y = self.y / rhs.y;
    }
}

impl From<[i32; 2]> for Vec2i {
    fn from(value: [i32; 2]) -> (r: Self) {
        Self { x: value[0], y: value[1] }
    }
}

impl vstd::std_specs::convert::FromSpecImpl<[i32; 2]> for Vec2i {
    open spec fn obeys_from_spec() -> bool {
        true
    }

    open spec fn from_spec(v: [i32; 2]) -> Vec2i {
        Vec2i { x: v@[0], y: v@[1] }
    }
}

impl From<Vec2i> for [i32; 2] {
    fn from(value: Vec2i) -> (r: Self) {
        [value.x, value.y]
    }
}

impl vstd::std_specs::convert::FromSpecImpl<Vec2i> for [i32; 2] {
    open spec fn obeys_from_spec() -> bool {
        true
    }

    open spec fn from_spec(v: Vec2i) -> [i32; 2] {
        [v.x, v.y]
    }
}

impl<'a> std::ops::Add<&'a Vec2i> for &'a Vec2i {
    type Output = Vec2i;

    fn add(self, rhs: &'a Vec2i) -> (r: Vec2i) {
        Vec2i { x: self.x + rhs.x, y: self.y + rhs.y }
    }
}

impl<'a> vstd::std_specs::ops::AddSpecImpl<&'a Vec2i> for &'a Vec2i {
    open spec fn obeys_add_spec() -> bool {
        true
    }

    open spec fn add_req(self, rhs: &'a Vec2i) -> bool {
        fits_i32(self.x + rhs.x) && fits_i32(self.y + rhs.y)
    }

    open spec fn add_spec(self, rhs: &'a Vec2i) -> Vec2i {
        Vec2i { x: (self.x + rhs.x) as i32, y: (self.y + rhs.y) as i32 }
    }
}

impl<'a> std::ops::Sub<&'a Vec2i> for &'a Vec2i {
    type Output = Vec2i;

    fn sub(self, rhs: &'a Vec2i) -> (r: Vec2i) {
        Vec2i { x: self.x - rhs.x, y: self.y - rhs.y }
    }
}

impl<'a> vstd::std_specs::ops::SubSpecImpl<&'a Vec2i> for &'a Vec2i {
    open spec fn obeys_sub_spec() -> bool {
        true
    }

    open spec fn sub_req(self, rhs: &'a Vec2i) -> bool {
        fits_i32(self.x - rhs.x) && fits_i32(self.y - rhs.y)
    }

    open spec fn sub_spec(self, rhs: &'a Vec2i) -> Vec2i {
        Vec2i { x: (self.x - rhs.x) as i32, y: (self.y - rhs.y) as i32 }
    }
}

/// Scaling by an integer factor.
impl<'a> std::ops::Mul<i32> for &'a Vec2i {
    type Output = Vec2i;

    fn mul(self, rhs: i32) -> (r: Vec2i) {
        Vec2i { x: self.x * rhs, y: self.y * rhs }
    }
}

impl<'a> vstd::std_specs::ops::MulSpecImpl<i32> for &'a Vec2i {
    open spec fn obeys_mul_spec() -> bool {
        true
    }

    open spec fn mul_req(self, rhs: i32) -> bool {
        fits_i32(self.x * rhs) && fits_i32(self.y * rhs)
    }

    open spec fn mul_spec(self, rhs: i32) -> Vec2i {
        Vec2i { x: (self.x * rhs) as i32, y: (self.y * rhs) as i32 }
    }
}

/// Division of each component by a positive integer, rounding toward zero.
impl<'a> std::ops::Div<i32> for &'a Vec2i {
    type Output = Vec2i;

    fn div(self, rhs: i32) -> (r: Vec2i) {
        Vec2i { x: self.x / rhs, y: self.y / rhs }
    }
}

impl<'a> vstd::std_specs::ops::DivSpecImpl<i32> for &'a Vec2i {
    open spec fn obeys_div_spec() -> bool {
        true
    }

    open spec fn div_req(self, rhs: i32) -> bool {
        rhs > 0
    }

    open spec fn div_spec(self, rhs: i32) -> Vec2i {
        Vec2i { x: div_toward_zero(self.x as int, rhs as int) as i32, y: div_toward_zero(self.y as int, rhs as int) as i32 }
    }
}

} // verus!
