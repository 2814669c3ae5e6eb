//! Small coordinate systems that the ray systems are built from: a basis
//! direction, a cyclic difference between basis directions, and a sign.
use vstd::prelude::*;

verus! {

/// One of the three coordinate directions.
#[derive(Debug, Clone, Copy, PartialEq, Eq, Structural)]
pub enum Basis {
    X,
    Y,
    Z,
}

/// The cyclic difference between two basis directions (a rotation of the
/// three axes by 0, 1 or 2 steps).
#[derive(Debug, Clone, Copy, PartialEq, Eq, Structural)]
pub enum BasisDiff {
    D0,
    D1,
    D2,
}

/// A sign, `+1` or `-1`.
#[derive(Debug, Clone, Copy, PartialEq, Eq, Structural)]
pub enum Sign {
    Pos,
    Neg,
}

impl Basis {
    /// The direction as a number modulo 3.
    pub open spec fn idx(self) -> int {
        match self {
            Basis::X => 0,
            Basis::Y => 1,
            Basis::Z => 2,
        }
    }

    /// The direction numbered `i` modulo 3.
    pub open spec fn from_idx(i: int) -> Basis {
        if i % 3 == 0 {
            Basis::X
        } else if i % 3 == 1 {
            Basis::Y
        } else {
            Basis::Z
        }
    }

    /// The direction `d` steps further on.
    pub open spec fn shifted(self, d: int) -> Basis {
        Basis::from_idx(self.idx() + d)
    }

    /// The direction `diff` steps further on, by table.
    pub open spec fn spec_plus(self, diff: BasisDiff) -> Basis {
        match (self, diff) {
            (_, BasisDiff::D0) => self,
            (Basis::X, BasisDiff::D1) => Basis::Y,
            (Basis::Y, BasisDiff::D1) => Basis::Z,
            (Basis::Z, BasisDiff::D1) => Basis::X,
            (Basis::X, BasisDiff::D2) => Basis::Z,
            (Basis::Y, BasisDiff::D2) => Basis::X,
            (Basis::Z, BasisDiff::D2) => Basis::Y,
        }
    }

    /// The number of steps from `basis` to `self`, by table.
    pub open spec fn spec_diff(self, basis: Basis) -> BasisDiff {
        if self == basis {
            BasisDiff::D0
        } else if basis.spec_plus(BasisDiff::D1) == self {
            BasisDiff::D1
        } else {
            BasisDiff::D2
        }
    }

    /// The direction numbered `i`, for `i < 3`.
    pub fn from_usize(i: usize) -> (r: Basis)
        requires
            i < 3,
        ensures
            r.idx() == i,
            r == Basis::from_idx(i as int),
    {
        if i == 0 {
            Basis::X
        } else if i == 1 {
            Basis::Y
        } else {
            Basis::Z
        }
    }

    /// The direction as a number below 3.
    pub fn to_usize(self) -> (r: usize)
        ensures
            r == self.idx(),
    {
        match self {
            Basis::X => 0,
            Basis::Y => 1,
            Basis::Z => 2,
        }
    }

    /// Moves the direction cyclically by `diff` steps.
    pub fn plus(self, diff: BasisDiff) -> (r: Basis)
        ensures
            r.idx() == (self.idx() + diff.idx()) % 3,
            r == self.shifted(diff.idx()),
            r == self.spec_plus(diff),
    {
        match (self, diff) {
            (_, BasisDiff::D0) => self,
            (Basis::X, BasisDiff::D1) => Basis::Y,
            (Basis::Y, BasisDiff::D1) => Basis::Z,
            (Basis::Z, BasisDiff::D1) => Basis::X,
            (Basis::X, BasisDiff::D2) => Basis::Z,
            (Basis::Y, BasisDiff::D2) => Basis::X,
            (Basis::Z, BasisDiff::D2) => Basis::Y,
        }
    }

    /// Moves the direction cyclically back by `diff` steps.
    pub fn minus(self, diff: BasisDiff) -> (r: Basis)
        ensures
            r.idx() == (self.idx() - diff.idx() + 3) % 3,
            r == self.shifted(-diff.idx()),
    {
        self.plus(diff.negate())
    }

    /// The number of steps from `basis` to `self`.
    pub fn diff(self, basis: Basis) -> (r: BasisDiff)
        ensures
            r.idx() == (self.idx() - basis.idx() + 3) % 3,
            r == self.spec_diff(basis),
    {
        match (self, basis) {
            (Basis::X, Basis::X) => BasisDiff::D0,
            (Basis::Y, Basis::Y) => BasisDiff::D0,
            (Basis::Z, Basis::Z) => BasisDiff::D0,
            (Basis::Y, Basis::X) => BasisDiff::D1,
            (Basis::Z, Basis::Y) => BasisDiff::D1,
            (Basis::X, Basis::Z) => BasisDiff::D1,
            (Basis::Z, Basis::X) => BasisDiff::D2,
            (Basis::X, Basis::Y) => BasisDiff::D2,
            (Basis::Y, Basis::Z) => BasisDiff::D2,
        }
    }
}

impl BasisDiff {
    /// The difference as a number modulo 3.
    pub open spec fn idx(self) -> int {
        match self {
            BasisDiff::D0 => 0,
            BasisDiff::D1 => 1,
            BasisDiff::D2 => 2,
        }
    }

    /// Sum of two differences.
    pub fn plus(self, diff: BasisDiff) -> (r: BasisDiff)
        ensures
            r.idx() == (self.idx() + diff.idx()) % 3,
    {
        match (self, diff) {
            (_, BasisDiff::D0) => self,
            (BasisDiff::D0, _) => diff,
            (BasisDiff::D1, BasisDiff::D1) => BasisDiff::D2,
            (BasisDiff::D1, BasisDiff::D2) => BasisDiff::D0,
            (BasisDiff::D2, BasisDiff::D1) => BasisDiff::D0,
            (BasisDiff::D2, BasisDiff::D2) => BasisDiff::D1,
        }
    }

    /// The opposite difference.
    pub fn negate(self) -> (r: BasisDiff)
        ensures
            r.idx() == (3 - self.idx()) % 3,
    {
        match self {
            BasisDiff::D0 => BasisDiff::D0,
            BasisDiff::D1 => BasisDiff::D2,
            BasisDiff::D2 => BasisDiff::D1,
        }
    }
}

impl Sign {
    /// The sign as the number `1` or `-1`.
    pub open spec fn val(self) -> int {
        match self {
            Sign::Pos => 1,
            Sign::Neg => -1,
        }
    }

    /// The sign as a bit: 0 for `Pos`, 1 for `Neg`.
    pub open spec fn bit(self) -> int {
        match self {
            Sign::Pos => 0,
            Sign::Neg => 1,
        }
    }

    /// The sign whose bit is `i`.
    pub open spec fn from_bit(i: int) -> Sign {
        if i == 0 {
            Sign::Pos
        } else {
            Sign::Neg
        }
    }

    /// Product of two signs.
    pub open spec fn mul(self, sign: Sign) -> Sign {
        if self == sign {
            Sign::Pos
        } else {
            Sign::Neg
        }
    }

    /// The opposite sign.
    pub open spec fn neg(self) -> Sign {
        match self {
            Sign::Pos => Sign::Neg,
            Sign::Neg => Sign::Pos,
        }
    }

    /// The sign whose bit is `i`, for `i < 2`.
    pub fn from_usize(i: usize) -> (r: Sign)
        requires
            i < 2,
        ensures
            r.bit() == i,
            r == Sign::from_bit(i as int),
    {
        if i == 0 {
            Sign::Pos
        } else {
            Sign::Neg
        }
    }

    /// The bit of the sign.
    pub fn to_usize(self) -> (r: usize)
        ensures
            r == self.bit(),
    {
        match self {
            Sign::Pos => 0,
            Sign::Neg => 1,
        }
    }

    /// Product of two signs.
    pub fn times(self, sign: Sign) -> (r: Sign)
        ensures
            r.val() == self.val() * sign.val(),
            r == self.mul(sign),
    {
        if self == sign {
            Sign::Pos
        } else {
            Sign::Neg
        }
    }

    /// The opposite sign.
    pub fn negate(self) -> (r: Sign)
        ensures
            r.val() == -self.val(),
            r == self.neg(),
    {
        match self {
            Sign::Pos => Sign::Neg,
            Sign::Neg => Sign::Pos,
        }
    }
}

} // verus!
