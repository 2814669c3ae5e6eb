//! The octahedron's ray system: eight face directions on four axes, turns
//! of order three.
use vstd::prelude::*;

use crate::basis::Sign;
use crate::ray::RaySystem;

verus! {

/// The direction `(±1, ±1, ±1)`.
#[derive(Debug, Clone, Copy, PartialEq, Eq, Structural)]
pub struct OctaRay(pub Sign, pub Sign, pub Sign);

impl OctaRay {
    /// The product of the three signs.
    pub open spec fn spec_tet_sign(self) -> Sign {
        self.0.mul(self.1).mul(self.2)
    }

    /// The opposite direction.
    fn opposite(&self) -> (r: Self)
        ensures
            r == RaySystem::opposite(*self),
    {
        OctaRay(self.0.negate(), self.1.negate(), self.2.negate())
    }

    /// The product of the three signs: which of the two tetrahedra the
    /// direction points to a vertex of.
    pub fn tet_sign(&self) -> (r: Sign)
        ensures
            r == self.spec_tet_sign(),
    {
        self.0.times(self.1).times(self.2)
    }
}

impl RaySystem for OctaRay {
    open spec fn ray_count() -> nat {
        8
    }

    open spec fn ray_index(self) -> nat {
        (self.0.bit() * 4 + self.1.bit() * 2 + self.2.bit()) as nat
    }

    open spec fn ray_at(i: nat) -> Self {
        OctaRay(Sign::from_bit((i / 4) as int), Sign::from_bit(((i / 2) % 2) as int), Sign::from_bit((i % 2) as int))
    }

    open spec fn opposite(self) -> Self {
        OctaRay(self.0.neg(), self.1.neg(), self.2.neg())
    }

    open spec fn is_head(self) -> bool {
        self.spec_tet_sign() == Sign::Pos
    }

    open spec fn turned_one(self, axis: Self) -> Self {
        let h = if axis.is_head() { axis } else { RaySystem::opposite(axis) };
        OctaRay(h.1.mul(self.2), h.2.mul(self.0), h.0.mul(self.1))
    }

    open spec fn turned_n(self, axis: Self, n: nat) -> Self
        decreases n,
    {
        if n == 0 {
            self
        } else {
            self.turned_n(axis, (n - 1) as nat).turned_one(axis)
        }
    }

    open spec fn turn_order() -> nat {
        3
    }

    open spec fn heads() -> Seq<Self> {
        seq![
            OctaRay(Sign::Pos, Sign::Pos, Sign::Pos),
            OctaRay(Sign::Pos, Sign::Neg, Sign::Neg),
            OctaRay(Sign::Neg, Sign::Pos, Sign::Neg),
            OctaRay(Sign::Neg, Sign::Neg, Sign::Pos),
        ]
    }

    open spec fn ray_name(self) -> Seq<char> {
        match self {
            OctaRay(Sign::Pos, Sign::Neg, Sign::Pos) => seq!['U'],
            OctaRay(Sign::Pos, Sign::Neg, Sign::Neg) => seq!['R'],
            OctaRay(Sign::Neg, Sign::Neg, Sign::Pos) => seq!['L'],
            OctaRay(Sign::Neg, Sign::Neg, Sign::Neg) => seq!['F'],
            OctaRay(Sign::Pos, Sign::Pos, Sign::Pos) => seq!['B', 'U'],
            OctaRay(Sign::Pos, Sign::Pos, Sign::Neg) => seq!['B', 'R'],
            OctaRay(Sign::Neg, Sign::Pos, Sign::Pos) => seq!['B', 'L'],
            OctaRay(Sign::Neg, Sign::Pos, Sign::Neg) => seq!['D'],
        }
    }

    proof fn lemma_enumeration(r: Self, i: nat) {
        assert(Self::ray_count() == 8);
        let k = r.ray_index();
        assert(k == r.0.bit() * 4 + r.1.bit() * 2 + r.2.bit());
        assert(Self::ray_at(k) == OctaRay(
            Sign::from_bit((k / 4) as int),
            Sign::from_bit(((k / 2) % 2) as int),
            Sign::from_bit((k % 2) as int),
        ));
        assert(Self::ray_at(i) == OctaRay(
            Sign::from_bit((i / 4) as int),
            Sign::from_bit(((i / 2) % 2) as int),
            Sign::from_bit((i % 2) as int),
        ));
        if i < 8 {
            assert(i == 0 || i == 1 || i == 2 || i == 3 || i == 4 || i == 5 || i == 6 || i == 7);
        }
    }

    proof fn lemma_axis(r: Self) {
    }

    proof fn lemma_turned_n(r: Self, axis: Self, n: nat) {
        assert(r.turned_n(axis, 0) == r);
    }

    proof fn lemma_turn(r: Self, axis: Self) {
    }

    proof fn lemma_turn_injective(r1: Self, r2: Self, axis: Self) {
    }

    proof fn lemma_turn_order(r: Self, axis: Self) {
        assert(Self::turn_order() == 3);
        let t1 = r.turned_one(axis);
        let t2 = t1.turned_one(axis);
        assert(r.turned_n(axis, 0) == r);
        assert(r.turned_n(axis, 1) == t1);
        assert(r.turned_n(axis, 2) == t2);
        assert(r.turned_n(axis, 3) == t2.turned_one(axis));
    }

    proof fn lemma_heads(r: Self) {
        let h = Self::heads();
        assert(h[0] == OctaRay(Sign::Pos, Sign::Pos, Sign::Pos));
        assert(h[1] == OctaRay(Sign::Pos, Sign::Neg, Sign::Neg));
        assert(h[2] == OctaRay(Sign::Neg, Sign::Pos, Sign::Neg));
        assert(h[3] == OctaRay(Sign::Neg, Sign::Neg, Sign::Pos));
        if r.is_head() {
            if r == h[0] {
            } else if r == h[1] {
            } else if r == h[2] {
            } else {
                assert(h[3] == r);
            }
        }
    }

    proof fn lemma_names(r1: Self, r2: Self) {
        if r1.ray_name() == r2.ray_name() {
            assert(r1.ray_name().len() == r2.ray_name().len());
            assert(r1.ray_name()[0] == r2.ray_name()[0]);
            if r1.ray_name().len() == 2 {
                assert(r1.ray_name()[1] == r2.ray_name()[1]);
            }
        }
    }

    fn length() -> (r: usize) {
        assert(Self::ray_count() == 8);
        8
    }

    fn index(&self) -> (r: usize) {
        self.0.to_usize() * 4 + self.1.to_usize() * 2 + self.2.to_usize()
    }

    fn from_index(i: usize) -> (r: Self) {
        assert(Self::ray_count() == 8);
        assert(Self::ray_at(i as nat) == OctaRay(
            Sign::from_bit((i / 4) as int),
            Sign::from_bit(((i / 2) % 2) as int),
            Sign::from_bit((i % 2) as int),
        ));
        OctaRay(Sign::from_usize(i / 4), Sign::from_usize((i / 2) % 2), Sign::from_usize(i % 2))
    }

    fn get_axis(&self) -> (r: Vec<Self>) {
        if self.tet_sign() == Sign::Pos {
            vec![*self, self.opposite()]
        } else {
            vec![self.opposite(), *self]
        }
    }

    fn turn_one(&self, axis: Self) -> (r: Self) {
        // the head of the axis
        let axis = axis.get_axis()[0];
        OctaRay(axis.1.times(self.2), axis.2.times(self.0), axis.0.times(self.1))
    }

    fn order(&self) -> (r: i8) {
        3
    }

    fn axis_heads() -> (r: Vec<Self>) {
        vec![
            OctaRay(Sign::Pos, Sign::Pos, Sign::Pos),
            OctaRay(Sign::Pos, Sign::Neg, Sign::Neg),
            OctaRay(Sign::Neg, Sign::Pos, Sign::Neg),
            OctaRay(Sign::Neg, Sign::Neg, Sign::Pos),
        ]
    }

    fn name(&self) -> (r: String) {
        let s = match self {
            OctaRay(Sign::Pos, Sign::Neg, Sign::Pos) => "U",
            OctaRay(Sign::Pos, Sign::Neg, Sign::Neg) => "R",
            OctaRay(Sign::Neg, Sign::Neg, Sign::Pos) => "L",
            OctaRay(Sign::Neg, Sign::Neg, Sign::Neg) => "F",
            OctaRay(Sign::Pos, Sign::Pos, Sign::Pos) => "BU",
            OctaRay(Sign::Pos, Sign::Pos, Sign::Neg) => "BR",
            OctaRay(Sign::Neg, Sign::Pos, Sign::Pos) => "BL",
            OctaRay(Sign::Neg, Sign::Pos, Sign::Neg) => "D",
        };
        proof {
            reveal_strlit("U");
            reveal_strlit("R");
            reveal_strlit("L");
            reveal_strlit("F");
            reveal_strlit("BU");
            reveal_strlit("BR");
            reveal_strlit("BL");
            reveal_strlit("D");
        }
        s.to_owned()
    }
}

} // verus!
