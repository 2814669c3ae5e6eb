//! The cube's ray system: six face directions on three axes, quarter turns.
use vstd::prelude::*;

use crate::basis::{Basis, BasisDiff, Sign};
use crate::ray::RaySystem;

verus! {

/// The direction `±basis`, with +X: R, +Y: B, +Z: U.
#[derive(Debug, Clone, Copy, PartialEq, Eq, Structural)]
pub struct CubeRay(pub Basis, pub Sign);

impl RaySystem for CubeRay {
    open spec fn ray_count() -> nat {
        6
    }

    open spec fn ray_index(self) -> nat {
        (self.0.idx() * 2 + self.1.bit()) as nat
    }

    open spec fn ray_at(i: nat) -> Self {
        CubeRay(Basis::from_idx((i / 2) as int), Sign::from_bit((i % 2) as int))
    }

    open spec fn opposite(self) -> Self {
        CubeRay(self.0, self.1.neg())
    }

    open spec fn is_head(self) -> bool {
        self.1 == Sign::Pos
    }

    open spec fn turned_one(self, axis: Self) -> Self {
        let d = (axis.0.idx() - self.0.idx() + 3) % 3;
        if d == 0 {
            self
        } else if d == 1 {
            CubeRay(self.0.shifted(2), self.1.neg())
        } else {
            CubeRay(self.0.shifted(1), self.1)
        }
    }

    open spec fn turned_n(self, axis: Self, n: nat) -> Self
        decreases n,
    {
        if n == 0 {
            self
        } else {
            self.turned_n(axis, (n - 1) as nat).turned_one(axis)
        }
    }

    open spec fn turn_order() -> nat {
        4
    }

    open spec fn heads() -> Seq<Self> {
        seq![CubeRay(Basis::X, Sign::Pos), CubeRay(Basis::Y, Sign::Pos), CubeRay(Basis::Z, Sign::Pos)]
    }

    open spec fn ray_name(self) -> Seq<char> {
        match self {
            CubeRay(Basis::X, Sign::Pos) => seq!['R'],
            CubeRay(Basis::Y, Sign::Pos) => seq!['B'],
            CubeRay(Basis::Z, Sign::Pos) => seq!['U'],
            CubeRay(Basis::X, Sign::Neg) => seq!['L'],
            CubeRay(Basis::Y, Sign::Neg) => seq!['F'],
            CubeRay(Basis::Z, Sign::Neg) => seq!['D'],
        }
    }

    proof fn lemma_enumeration(r: Self, i: nat) {
        assert(Self::ray_count() == 6);
        let k = r.ray_index();
        assert(k == r.0.idx() * 2 + r.1.bit());
        assert(Self::ray_at(k) == CubeRay(Basis::from_idx((k / 2) as int), Sign::from_bit((k % 2) as int)));
        assert(Self::ray_at(i) == CubeRay(Basis::from_idx((i / 2) as int), Sign::from_bit((i % 2) as int)));
        assert(r == CubeRay(Basis::X, Sign::Pos) || r == CubeRay(Basis::Y, Sign::Pos) || r == CubeRay(Basis::Z, Sign::Pos)
            || r == CubeRay(Basis::X, Sign::Neg) || r == CubeRay(Basis::Y, Sign::Neg) || r == CubeRay(Basis::Z, Sign::Neg));
        if i < 6 {
            assert(i == 0 || i == 1 || i == 2 || i == 3 || i == 4 || i == 5);
        }
    }

    proof fn lemma_axis(r: Self) {
    }

    proof fn lemma_turned_n(r: Self, axis: Self, n: nat) {
        assert(r.turned_n(axis, 0) == r);
    }

    proof fn lemma_turn(r: Self, axis: Self) {
    }

    proof fn lemma_turn_injective(r1: Self, r2: Self, axis: Self) {
    }

    proof fn lemma_turn_order(r: Self, axis: Self) {
        let t1 = r.turned_one(axis);
        let t2 = t1.turned_one(axis);
        let t3 = t2.turned_one(axis);
        assert(r.turned_n(axis, 0) == r);
        assert(r.turned_n(axis, 1) == t1);
        assert(r.turned_n(axis, 2) == t2);
        assert(r.turned_n(axis, 3) == t3);
        assert(r.turned_n(axis, 4) == t3.turned_one(axis));
    }

    proof fn lemma_heads(r: Self) {
        let h = Self::heads();
        assert(h[0] == CubeRay(Basis::X, Sign::Pos));
        assert(h[1] == CubeRay(Basis::Y, Sign::Pos));
        assert(h[2] == CubeRay(Basis::Z, Sign::Pos));
        if r.is_head() {
            if r.0 == Basis::X {
                assert(h[0] == r);
            } else if r.0 == Basis::Y {
                assert(h[1] == r);
            } else {
                assert(h[2] == r);
            }
        }
    }

    proof fn lemma_names(r1: Self, r2: Self) {
        if r1.ray_name() == r2.ray_name() {
            assert(r1.ray_name()[0] == r2.ray_name()[0]);
        }
    }

    fn length() -> (r: usize) {
        assert(Self::ray_count() == 6);
        6
    }

    fn index(&self) -> (r: usize) {
        self.0.to_usize() * 2 + self.1.to_usize()
    }

    fn from_index(i: usize) -> (r: Self) {
        assert(Self::ray_count() == 6);
        assert(Self::ray_at(i as nat) == CubeRay(Basis::from_idx((i / 2) as int), Sign::from_bit((i % 2) as int)));
        CubeRay(Basis::from_usize(i / 2), Sign::from_usize(i % 2))
    }

    fn get_axis(&self) -> (r: Vec<Self>) {
        vec![CubeRay(self.0, Sign::Pos), CubeRay(self.0, Sign::Neg)]
    }

    fn turn_one(&self, axis: Self) -> (r: Self) {
        match axis.0.diff(self.0) {
            BasisDiff::D0 => *self,
            BasisDiff::D1 => CubeRay(self.0.plus(BasisDiff::D2), self.1.negate()),
            BasisDiff::D2 => CubeRay(self.0.plus(BasisDiff::D1), self.1),
        }
    }

    fn order(&self) -> (r: i8) {
        4
    }

    fn axis_heads() -> (r: Vec<Self>) {
        vec![CubeRay(Basis::X, Sign::Pos), CubeRay(Basis::Y, Sign::Pos), CubeRay(Basis::Z, Sign::Pos)]
    }

    fn name(&self) -> (r: String) {
        let s = match self {
            CubeRay(Basis::X, Sign::Pos) => "R",
            CubeRay(Basis::Y, Sign::Pos) => "B",
            CubeRay(Basis::Z, Sign::Pos) => "U",
            CubeRay(Basis::X, Sign::Neg) => "L",
            CubeRay(Basis::Y, Sign::Neg) => "F",
            CubeRay(Basis::Z, Sign::Neg) => "D",
        };
        proof {
            reveal_strlit("R");
            reveal_strlit("B");
            reveal_strlit("U");
            reveal_strlit("L");
            reveal_strlit("F");
            reveal_strlit("D");
        }
        s.to_owned()
    }
}

} // verus!
