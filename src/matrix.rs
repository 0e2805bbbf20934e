use vstd::prelude::*;

verus! {

/// Largest magnitude of a matrix entry for which the solver's products fit in an `i64`.
pub const ENTRY_MAX: i64 = 1073741824;

/// A 2×2 integer matrix, row by row: `[[a, b], [c, d]]`.
pub struct Matrix22 {
    pub data: [[i64; 2]; 2],
}

/// A 2×1 integer column vector.
pub struct Matrix21 {
    pub data: [i64; 2],
}

/// Whether `v` lies in `[-ENTRY_MAX, ENTRY_MAX]`.
pub open spec fn entry_ok(v: int) -> bool {
    -ENTRY_MAX <= v <= ENTRY_MAX
}

impl Matrix22 {
    /// Entry in row `i`, column `j`.
    pub open spec fn at(&self, i: int, j: int) -> int {
        self.data@[i]@[j] as int
    }

    /// The determinant `a * d - b * c`.
    pub open spec fn det_spec(&self) -> int {
        self.at(0, 0) * self.at(1, 1) - self.at(0, 1) * self.at(1, 0)
    }

    /// Every entry lies in `[-ENTRY_MAX, ENTRY_MAX]`.
    pub open spec fn entries_ok(&self) -> bool {
        entry_ok(self.at(0, 0)) && entry_ok(self.at(0, 1)) && entry_ok(self.at(1, 0))
            && entry_ok(self.at(1, 1))
    }

    pub fn new(a: i64, b: i64, c: i64, d: i64) -> (r: Self)
        ensures
            r.at(0, 0) == a,
            r.at(0, 1) == b,
            r.at(1, 0) == c,
            r.at(1, 1) == d,
    {
        Self { data: [[a, b], [c, d]] }
    }

    pub fn determinant(&self) -> (r: i64)
        requires
            self.entries_ok(),
        ensures
            r == self.det_spec(),
            -2 * ENTRY_MAX * ENTRY_MAX <= r <= 2 * ENTRY_MAX * ENTRY_MAX,
    {
        proof {
            lemma_entry_product(self.at(0, 0), self.at(1, 1));
            lemma_entry_product(self.at(0, 1), self.at(1, 0));
        }
        self.data[0][0] * self.data[1][1] - self.data[0][1] * self.data[1][0]
    }

    /// The inverse as an adjugate and a determinant: the inverse is the adjugate
    /// divided by the determinant, which is positive. `None` when the matrix is
    /// singular, so that no division by zero can arise.
    pub fn inverse(&self) -> (r: Option<(Matrix22, i64)>)
        requires
            self.entries_ok(),
        ensures
            r is None <==> self.det_spec() == 0,
            r matches Some((adj, det)) ==> {
                &&& det > 0
                &&& (self.det_spec() > 0 ==> {
                    &&& det == self.det_spec()
                    &&& adj.at(0, 0) == self.at(1, 1)
                    &&& adj.at(0, 1) == -self.at(0, 1)
                    &&& adj.at(1, 0) == -self.at(1, 0)
                    &&& adj.at(1, 1) == self.at(0, 0)
                })
                &&& (self.det_spec() < 0 ==> {
                    &&& det == -self.det_spec()
                    &&& adj.at(0, 0) == -self.at(1, 1)
                    &&& adj.at(0, 1) == self.at(0, 1)
                    &&& adj.at(1, 0) == self.at(1, 0)
                    &&& adj.at(1, 1) == -self.at(0, 0)
                })
                &&& adj.entries_ok()
            },
    {
        let det = self.determinant();
        if det == 0 {
            None
        } else if det > 0 {
            Some((
                Matrix22::new(self.data[1][1], -self.data[0][1], -self.data[1][0], self.data[0][0]),
                det,
            ))
        } else {
            Some((
                Matrix22::new(-self.data[1][1], self.data[0][1], self.data[1][0], -self.data[0][0]),
                -det,
            ))
        }
    }

    /// The product of this matrix with a column vector.
    pub fn mul(&self, rhs: &Matrix21) -> (r: Matrix21)
        requires
            self.entries_ok(),
            rhs.entries_ok(),
        ensures
            r.at(0) == self.at(0, 0) * rhs.at(0) + self.at(0, 1) * rhs.at(1),
            r.at(1) == self.at(1, 0) * rhs.at(0) + self.at(1, 1) * rhs.at(1),
    {
        proof {
            lemma_entry_product(self.at(0, 0), rhs.at(0));
            lemma_entry_product(self.at(0, 1), rhs.at(1));
            lemma_entry_product(self.at(1, 0), rhs.at(0));
            lemma_entry_product(self.at(1, 1), rhs.at(1));
        }
        Matrix21 {
            data: [
                self.data[0][0] * rhs.data[0] + self.data[0][1] * rhs.data[1],
                self.data[1][0] * rhs.data[0] + self.data[1][1] * rhs.data[1],
            ],
        }
    }
}

impl Matrix21 {
    /// Entry in row `i`.
    pub open spec fn at(&self, i: int) -> int {
        self.data@[i] as int
    }

    /// Both entries lie in `[-ENTRY_MAX, ENTRY_MAX]`.
    pub open spec fn entries_ok(&self) -> bool {
        entry_ok(self.at(0)) && entry_ok(self.at(1))
    }

    pub fn new(a: i64, b: i64) -> (r: Self)
        ensures
            r.at(0) == a,
            r.at(1) == b,
    {
        Self { data: [a, b] }
    }
}

/// A product of two entries lies within `ENTRY_MAX * ENTRY_MAX`.
proof fn lemma_entry_product(a: int, b: int)
    requires
        entry_ok(a),
        entry_ok(b),
    ensures
        -ENTRY_MAX * ENTRY_MAX <= a * b <= ENTRY_MAX * ENTRY_MAX,
{
    assert(-ENTRY_MAX * ENTRY_MAX <= a * b <= ENTRY_MAX * ENTRY_MAX) by (nonlinear_arith)
        requires
            -ENTRY_MAX <= a <= ENTRY_MAX,
            -ENTRY_MAX <= b <= ENTRY_MAX,
    ;
}

} // verus!
