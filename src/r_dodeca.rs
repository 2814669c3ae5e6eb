//! The rhombic dodecahedron's ray system: twelve face directions on six
//! axes, half turns.
use vstd::prelude::*;

use crate::basis::{Basis, BasisDiff, Sign};
use crate::cube::CubeRay;
use crate::ray::RaySystem;

verus! {

/// `RDodecaRay(a, ±₁, ±₂)` is the direction `±₁a⁺ + ±₂a⁺⁺`, where `a⁺` and
/// `a⁺⁺` are the basis directions one and two steps after `a`.
#[derive(Debug, Clone, Copy, PartialEq, Eq, Structural)]
pub struct RDodecaRay(pub Basis, pub Sign, pub Sign);

/// The facts about one turn about `RDodecaRay(Basis::X, Sign::Pos, Sign::Pos)`, case by
/// case over the twelve rays `r`.
proof fn lemma_turn_cases_x_pos_pos(r: RDodecaRay, axis: RDodecaRay)
    requires
        axis == RDodecaRay(Basis::X, Sign::Pos, Sign::Pos),
    ensures
        r.turned_one(RaySystem::opposite(axis)) == r.turned_one(axis),
        RaySystem::opposite(r).turned_one(axis) == RaySystem::opposite(r.turned_one(axis)),
        axis.turned_one(axis) == axis,
        r.turned_one(axis).turned_one(axis) == r,
{
    match r.0 {
        Basis::X => match r.1 {
            Sign::Pos => match r.2 {
                Sign::Pos => {},
                Sign::Neg => {},
            },
            Sign::Neg => match r.2 {
                Sign::Pos => {},
                Sign::Neg => {},
            },
        },
        Basis::Y => match r.1 {
            Sign::Pos => match r.2 {
                Sign::Pos => {},
                Sign::Neg => {},
            },
            Sign::Neg => match r.2 {
                Sign::Pos => {},
                Sign::Neg => {},
            },
        },
        Basis::Z => match r.1 {
            Sign::Pos => match r.2 {
                Sign::Pos => {},
                Sign::Neg => {},
            },
            Sign::Neg => match r.2 {
                Sign::Pos => {},
                Sign::Neg => {},
            },
        },
    }
}

/// The facts about one turn about `RDodecaRay(Basis::X, Sign::Pos, Sign::Neg)`, case by
/// case over the twelve rays `r`.
proof fn lemma_turn_cases_x_pos_neg(r: RDodecaRay, axis: RDodecaRay)
    requires
        axis == RDodecaRay(Basis::X, Sign::Pos, Sign::Neg),
    ensures
        r.turned_one(RaySystem::opposite(axis)) == r.turned_one(axis),
        RaySystem::opposite(r).turned_one(axis) == RaySystem::opposite(r.turned_one(axis)),
        axis.turned_one(axis) == axis,
        r.turned_one(axis).turned_one(axis) == r,
{
    match r.0 {
        Basis::X => match r.1 {
            Sign::Pos => match r.2 {
                Sign::Pos => {},
                Sign::Neg => {},
            },
            Sign::Neg => match r.2 {
                Sign::Pos => {},
                Sign::Neg => {},
            },
        },
        Basis::Y => match r.1 {
            Sign::Pos => match r.2 {
                Sign::Pos => {},
                Sign::Neg => {},
            },
            Sign::Neg => match r.2 {
                Sign::Pos => {},
                Sign::Neg => {},
            },
        },
        Basis::Z => match r.1 {
            Sign::Pos => match r.2 {
                Sign::Pos => {},
                Sign::Neg => {},
            },
            Sign::Neg => match r.2 {
                Sign::Pos => {},
                Sign::Neg => {},
            },
        },
    }
}

/// The facts about one turn about `RDodecaRay(Basis::X, Sign::Neg, Sign::Pos)`, case by
/// case over the twelve rays `r`.
proof fn lemma_turn_cases_x_neg_pos(r: RDodecaRay, axis: RDodecaRay)
    requires
        axis == RDodecaRay(Basis::X, Sign::Neg, Sign::Pos),
    ensures
        r.turned_one(RaySystem::opposite(axis)) == r.turned_one(axis),
        RaySystem::opposite(r).turned_one(axis) == RaySystem::opposite(r.turned_one(axis)),
        axis.turned_one(axis) == axis,
        r.turned_one(axis).turned_one(axis) == r,
{
    match r.0 {
        Basis::X => match r.1 {
            Sign::Pos => match r.2 {
                Sign::Pos => {},
                Sign::Neg => {},
            },
            Sign::Neg => match r.2 {
                Sign::Pos => {},
                Sign::Neg => {},
            },
        },
        Basis::Y => match r.1 {
            Sign::Pos => match r.2 {
                Sign::Pos => {},
                Sign::Neg => {},
            },
            Sign::Neg => match r.2 {
                Sign::Pos => {},
                Sign::Neg => {},
            },
        },
        Basis::Z => match r.1 {
            Sign::Pos => match r.2 {
                Sign::Pos => {},
                Sign::Neg => {},
            },
            Sign::Neg => match r.2 {
                Sign::Pos => {},
                Sign::Neg => {},
            },
        },
    }
}

/// The facts about one turn about `RDodecaRay(Basis::X, Sign::Neg, Sign::Neg)`, case by
/// case over the twelve rays `r`.
proof fn lemma_turn_cases_x_neg_neg(r: RDodecaRay, axis: RDodecaRay)
    requires
        axis == RDodecaRay(Basis::X, Sign::Neg, Sign::Neg),
    ensures
        r.turned_one(RaySystem::opposite(axis)) == r.turned_one(axis),
        RaySystem::opposite(r).turned_one(axis) == RaySystem::opposite(r.turned_one(axis)),
        axis.turned_one(axis) == axis,
        r.turned_one(axis).turned_one(axis) == r,
{
    match r.0 {
        Basis::X => match r.1 {
            Sign::Pos => match r.2 {
                Sign::Pos => {},
                Sign::Neg => {},
            },
            Sign::Neg => match r.2 {
                Sign::Pos => {},
                Sign::Neg => {},
            },
        },
        Basis::Y => match r.1 {
            Sign::Pos => match r.2 {
                Sign::Pos => {},
                Sign::Neg => {},
            },
            Sign::Neg => match r.2 {
                Sign::Pos => {},
                Sign::Neg => {},
            },
        },
        Basis::Z => match r.1 {
            Sign::Pos => match r.2 {
                Sign::Pos => {},
                Sign::Neg => {},
            },
            Sign::Neg => match r.2 {
                Sign::Pos => {},
                Sign::Neg => {},
            },
        },
    }
}

/// The facts about one turn about `RDodecaRay(Basis::Y, Sign::Pos, Sign::Pos)`, case by
/// case over the twelve rays `r`.
proof fn lemma_turn_cases_y_pos_pos(r: RDodecaRay, axis: RDodecaRay)
    requires
        axis == RDodecaRay(Basis::Y, Sign::Pos, Sign::Pos),
    ensures
        r.turned_one(RaySystem::opposite(axis)) == r.turned_one(axis),
        RaySystem::opposite(r).turned_one(axis) == RaySystem::opposite(r.turned_one(axis)),
        axis.turned_one(axis) == axis,
        r.turned_one(axis).turned_one(axis) == r,
{
    match r.0 {
        Basis::X => match r.1 {
            Sign::Pos => match r.2 {
                Sign::Pos => {},
                Sign::Neg => {},
            },
            Sign::Neg => match r.2 {
                Sign::Pos => {},
                Sign::Neg => {},
            },
        },
        Basis::Y => match r.1 {
            Sign::Pos => match r.2 {
                Sign::Pos => {},
                Sign::Neg => {},
            },
            Sign::Neg => match r.2 {
                Sign::Pos => {},
                Sign::Neg => {},
            },
        },
        Basis::Z => match r.1 {
            Sign::Pos => match r.2 {
                Sign::Pos => {},
                Sign::Neg => {},
            },
            Sign::Neg => match r.2 {
                Sign::Pos => {},
                Sign::Neg => {},
            },
        },
    }
}

/// The facts about one turn about `RDodecaRay(Basis::Y, Sign::Pos, Sign::Neg)`, case by
/// case over the twelve rays `r`.
proof fn lemma_turn_cases_y_pos_neg(r: RDodecaRay, axis: RDodecaRay)
    requires
        axis == RDodecaRay(Basis::Y, Sign::Pos, Sign::Neg),
    ensures
        r.turned_one(RaySystem::opposite(axis)) == r.turned_one(axis),
        RaySystem::opposite(r).turned_one(axis) == RaySystem::opposite(r.turned_one(axis)),
        axis.turned_one(axis) == axis,
        r.turned_one(axis).turned_one(axis) == r,
{
    match r.0 {
        Basis::X => match r.1 {
            Sign::Pos => match r.2 {
                Sign::Pos => {},
                Sign::Neg => {},
            },
            Sign::Neg => match r.2 {
                Sign::Pos => {},
                Sign::Neg => {},
            },
        },
        Basis::Y => match r.1 {
            Sign::Pos => match r.2 {
                Sign::Pos => {},
                Sign::Neg => {},
            },
            Sign::Neg => match r.2 {
                Sign::Pos => {},
                Sign::Neg => {},
            },
        },
        Basis::Z => match r.1 {
            Sign::Pos => match r.2 {
                Sign::Pos => {},
                Sign::Neg => {},
            },
            Sign::Neg => match r.2 {
                Sign::Pos => {},
                Sign::Neg => {},
            },
        },
    }
}

/// The facts about one turn about `RDodecaRay(Basis::Y, Sign::Neg, Sign::Pos)`, case by
/// case over the twelve rays `r`.
proof fn lemma_turn_cases_y_neg_pos(r: RDodecaRay, axis: RDodecaRay)
    requires
        axis == RDodecaRay(Basis::Y, Sign::Neg, Sign::Pos),
    ensures
        r.turned_one(RaySystem::opposite(axis)) == r.turned_one(axis),
        RaySystem::opposite(r).turned_one(axis) == RaySystem::opposite(r.turned_one(axis)),
        axis.turned_one(axis) == axis,
        r.turned_one(axis).turned_one(axis) == r,
{
    match r.0 {
        Basis::X => match r.1 {
            Sign::Pos => match r.2 {
                Sign::Pos => {},
                Sign::Neg => {},
            },
            Sign::Neg => match r.2 {
                Sign::Pos => {},
                Sign::Neg => {},
            },
        },
        Basis::Y => match r.1 {
            Sign::Pos => match r.2 {
                Sign::Pos => {},
                Sign::Neg => {},
            },
            Sign::Neg => match r.2 {
                Sign::Pos => {},
                Sign::Neg => {},
            },
        },
        Basis::Z => match r.1 {
            Sign::Pos => match r.2 {
                Sign::Pos => {},
                Sign::Neg => {},
            },
            Sign::Neg => match r.2 {
                Sign::Pos => {},
                Sign::Neg => {},
            },
        },
    }
}

/// The facts about one turn about `RDodecaRay(Basis::Y, Sign::Neg, Sign::Neg)`, case by
/// case over the twelve rays `r`.
proof fn lemma_turn_cases_y_neg_neg(r: RDodecaRay, axis: RDodecaRay)
    requires
        axis == RDodecaRay(Basis::Y, Sign::Neg, Sign::Neg),
    ensures
        r.turned_one(RaySystem::opposite(axis)) == r.turned_one(axis),
        RaySystem::opposite(r).turned_one(axis) == RaySystem::opposite(r.turned_one(axis)),
        axis.turned_one(axis) == axis,
        r.turned_one(axis).turned_one(axis) == r,
{
    match r.0 {
        Basis::X => match r.1 {
            Sign::Pos => match r.2 {
                Sign::Pos => {},
                Sign::Neg => {},
            },
            Sign::Neg => match r.2 {
                Sign::Pos => {},
                Sign::Neg => {},
            },
        },
        Basis::Y => match r.1 {
            Sign::Pos => match r.2 {
                Sign::Pos => {},
                Sign::Neg => {},
            },
            Sign::Neg => match r.2 {
                Sign::Pos => {},
                Sign::Neg => {},
            },
        },
        Basis::Z => match r.1 {
            Sign::Pos => match r.2 {
                Sign::Pos => {},
                Sign::Neg => {},
            },
            Sign::Neg => match r.2 {
                Sign::Pos => {},
                Sign::Neg => {},
            },
        },
    }
}

/// The facts about one turn about `RDodecaRay(Basis::Z, Sign::Pos, Sign::Pos)`, case by
/// case over the twelve rays `r`.
proof fn lemma_turn_cases_z_pos_pos(r: RDodecaRay, axis: RDodecaRay)
    requires
        axis == RDodecaRay(Basis::Z, Sign::Pos, Sign::Pos),
    ensures
        r.turned_one(RaySystem::opposite(axis)) == r.turned_one(axis),
        RaySystem::opposite(r).turned_one(axis) == RaySystem::opposite(r.turned_one(axis)),
        axis.turned_one(axis) == axis,
        r.turned_one(axis).turned_one(axis) == r,
{
    match r.0 {
        Basis::X => match r.1 {
            Sign::Pos => match r.2 {
                Sign::Pos => {},
                Sign::Neg => {},
            },
            Sign::Neg => match r.2 {
                Sign::Pos => {},
                Sign::Neg => {},
            },
        },
        Basis::Y => match r.1 {
            Sign::Pos => match r.2 {
                Sign::Pos => {},
                Sign::Neg => {},
            },
            Sign::Neg => match r.2 {
                Sign::Pos => {},
                Sign::Neg => {},
            },
        },
        Basis::Z => match r.1 {
            Sign::Pos => match r.2 {
                Sign::Pos => {},
                Sign::Neg => {},
            },
            Sign::Neg => match r.2 {
                Sign::Pos => {},
                Sign::Neg => {},
            },
        },
    }
}

/// The facts about one turn about `RDodecaRay(Basis::Z, Sign::Pos, Sign::Neg)`, case by
/// case over the twelve rays `r`.
proof fn lemma_turn_cases_z_pos_neg(r: RDodecaRay, axis: RDodecaRay)
    requires
        axis == RDodecaRay(Basis::Z, Sign::Pos, Sign::Neg),
    ensures
        r.turned_one(RaySystem::opposite(axis)) == r.turned_one(axis),
        RaySystem::opposite(r).turned_one(axis) == RaySystem::opposite(r.turned_one(axis)),
        axis.turned_one(axis) == axis,
        r.turned_one(axis).turned_one(axis) == r,
{
    match r.0 {
        Basis::X => match r.1 {
            Sign::Pos => match r.2 {
                Sign::Pos => {},
                Sign::Neg => {},
            },
            Sign::Neg => match r.2 {
                Sign::Pos => {},
                Sign::Neg => {},
            },
        },
        Basis::Y => match r.1 {
            Sign::Pos => match r.2 {
                Sign::Pos => {},
                Sign::Neg => {},
            },
            Sign::Neg => match r.2 {
                Sign::Pos => {},
                Sign::Neg => {},
            },
        },
        Basis::Z => match r.1 {
            Sign::Pos => match r.2 {
                Sign::Pos => {},
                Sign::Neg => {},
            },
            Sign::Neg => match r.2 {
                Sign::Pos => {},
                Sign::Neg => {},
            },
        },
    }
}

/// The facts about one turn about `RDodecaRay(Basis::Z, Sign::Neg, Sign::Pos)`, case by
/// case over the twelve rays `r`.
proof fn lemma_turn_cases_z_neg_pos(r: RDodecaRay, axis: RDodecaRay)
    requires
        axis == RDodecaRay(Basis::Z, Sign::Neg, Sign::Pos),
    ensures
        r.turned_one(RaySystem::opposite(axis)) == r.turned_one(axis),
        RaySystem::opposite(r).turned_one(axis) == RaySystem::opposite(r.turned_one(axis)),
        axis.turned_one(axis) == axis,
        r.turned_one(axis).turned_one(axis) == r,
{
    match r.0 {
        Basis::X => match r.1 {
            Sign::Pos => match r.2 {
                Sign::Pos => {},
                Sign::Neg => {},
            },
            Sign::Neg => match r.2 {
                Sign::Pos => {},
                Sign::Neg => {},
            },
        },
        Basis::Y => match r.1 {
            Sign::Pos => match r.2 {
                Sign::Pos => {},
                Sign::Neg => {},
            },
            Sign::Neg => match r.2 {
                Sign::Pos => {},
                Sign::Neg => {},
            },
        },
        Basis::Z => match r.1 {
            Sign::Pos => match r.2 {
                Sign::Pos => {},
                Sign::Neg => {},
            },
            Sign::Neg => match r.2 {
                Sign::Pos => {},
                Sign::Neg => {},
            },
        },
    }
}

/// The facts about one turn about `RDodecaRay(Basis::Z, Sign::Neg, Sign::Neg)`, case by
/// case over the twelve rays `r`.
proof fn lemma_turn_cases_z_neg_neg(r: RDodecaRay, axis: RDodecaRay)
    requires
        axis == RDodecaRay(Basis::Z, Sign::Neg, Sign::Neg),
    ensures
        r.turned_one(RaySystem::opposite(axis)) == r.turned_one(axis),
        RaySystem::opposite(r).turned_one(axis) == RaySystem::opposite(r.turned_one(axis)),
        axis.turned_one(axis) == axis,
        r.turned_one(axis).turned_one(axis) == r,
{
    match r.0 {
        Basis::X => match r.1 {
            Sign::Pos => match r.2 {
                Sign::Pos => {},
                Sign::Neg => {},
            },
            Sign::Neg => match r.2 {
                Sign::Pos => {},
                Sign::Neg => {},
            },
        },
        Basis::Y => match r.1 {
            Sign::Pos => match r.2 {
                Sign::Pos => {},
                Sign::Neg => {},
            },
            Sign::Neg => match r.2 {
                Sign::Pos => {},
                Sign::Neg => {},
            },
        },
        Basis::Z => match r.1 {
            Sign::Pos => match r.2 {
                Sign::Pos => {},
                Sign::Neg => {},
            },
            Sign::Neg => match r.2 {
                Sign::Pos => {},
                Sign::Neg => {},
            },
        },
    }
}

/// The facts about one turn, case by case over the twelve axis rays.
proof fn lemma_turn_cases(r: RDodecaRay, axis: RDodecaRay)
    ensures
        r.turned_one(RaySystem::opposite(axis)) == r.turned_one(axis),
        RaySystem::opposite(r).turned_one(axis) == RaySystem::opposite(r.turned_one(axis)),
        axis.turned_one(axis) == axis,
        r.turned_one(axis).turned_one(axis) == r,
{
    match axis.0 {
        Basis::X => match axis.1 {
            Sign::Pos => match axis.2 {
                Sign::Pos => lemma_turn_cases_x_pos_pos(r, axis),
                Sign::Neg => lemma_turn_cases_x_pos_neg(r, axis),
            },
            Sign::Neg => match axis.2 {
                Sign::Pos => lemma_turn_cases_x_neg_pos(r, axis),
                Sign::Neg => lemma_turn_cases_x_neg_neg(r, axis),
            },
        },
        Basis::Y => match axis.1 {
            Sign::Pos => match axis.2 {
                Sign::Pos => lemma_turn_cases_y_pos_pos(r, axis),
                Sign::Neg => lemma_turn_cases_y_pos_neg(r, axis),
            },
            Sign::Neg => match axis.2 {
                Sign::Pos => lemma_turn_cases_y_neg_pos(r, axis),
                Sign::Neg => lemma_turn_cases_y_neg_neg(r, axis),
            },
        },
        Basis::Z => match axis.1 {
            Sign::Pos => match axis.2 {
                Sign::Pos => lemma_turn_cases_z_pos_pos(r, axis),
                Sign::Neg => lemma_turn_cases_z_pos_neg(r, axis),
            },
            Sign::Neg => match axis.2 {
                Sign::Pos => lemma_turn_cases_z_neg_pos(r, axis),
                Sign::Neg => lemma_turn_cases_z_neg_neg(r, axis),
            },
        },
    }
}

impl RaySystem for RDodecaRay {
    open spec fn ray_count() -> nat {
        12
    }

    open spec fn ray_index(self) -> nat {
        (self.0.idx() * 4 + self.1.bit() * 2 + self.2.bit()) as nat
    }

    open spec fn ray_at(i: nat) -> Self {
        RDodecaRay(Basis::from_idx((i / 4) as int), Sign::from_bit(((i / 2) % 2) as int), Sign::from_bit((i % 2) as int))
    }

    open spec fn opposite(self) -> Self {
        RDodecaRay(self.0, self.1.neg(), self.2.neg())
    }

    open spec fn is_head(self) -> bool {
        self.1 == Sign::Pos
    }

    open spec fn turned_one(self, axis: Self) -> Self {
        let p = axis.1.mul(axis.2);
        match self.0.spec_diff(axis.0) {
            BasisDiff::D0 => RDodecaRay(self.0, p.mul(self.2), p.mul(self.1)),
            BasisDiff::D1 => RDodecaRay(self.0.spec_plus(BasisDiff::D1), self.2.neg(), p.mul(self.1)),
            BasisDiff::D2 => RDodecaRay(self.0.spec_plus(BasisDiff::D2), p.mul(self.2), self.1.neg()),
        }
    }

    open spec fn turned_n(self, axis: Self, n: nat) -> Self
        decreases n,
    {
        if n == 0 {
            self
        } else {
            self.turned_n(axis, (n - 1) as nat).turned_one(axis)
        }
    }

    open spec fn turn_order() -> nat {
        2
    }

    open spec fn heads() -> Seq<Self> {
        seq![
            RDodecaRay(Basis::X, Sign::Pos, Sign::Pos),
            RDodecaRay(Basis::X, Sign::Pos, Sign::Neg),
            RDodecaRay(Basis::Y, Sign::Pos, Sign::Pos),
            RDodecaRay(Basis::Y, Sign::Pos, Sign::Neg),
            RDodecaRay(Basis::Z, Sign::Pos, Sign::Pos),
            RDodecaRay(Basis::Z, Sign::Pos, Sign::Neg),
        ]
    }

    /// The names of the two cube faces that the direction lies between.
    open spec fn ray_name(self) -> Seq<char> {
        CubeRay(self.0.spec_plus(BasisDiff::D1), self.1).ray_name() + CubeRay(
            self.0.spec_plus(BasisDiff::D2),
            self.2,
        ).ray_name()
    }

    proof fn lemma_enumeration(r: Self, i: nat) {
        assert(Self::ray_count() == 12);
        let k = r.ray_index();
        assert(k == r.0.idx() * 4 + r.1.bit() * 2 + r.2.bit());
        assert(Self::ray_at(k) == RDodecaRay(
            Basis::from_idx((k / 4) as int),
            Sign::from_bit(((k / 2) % 2) as int),
            Sign::from_bit((k % 2) as int),
        ));
        assert(Self::ray_at(i) == RDodecaRay(
            Basis::from_idx((i / 4) as int),
            Sign::from_bit(((i / 2) % 2) as int),
            Sign::from_bit((i % 2) as int),
        ));
        if i < 12 {
            assert(i == 0 || i == 1 || i == 2 || i == 3 || i == 4 || i == 5 || i == 6 || i == 7 || i == 8
                || i == 9 || i == 10 || i == 11);
        }
    }

    proof fn lemma_axis(r: Self) {
    }

    proof fn lemma_turned_n(r: Self, axis: Self, n: nat) {
        assert(r.turned_n(axis, 0) == r);
    }

    proof fn lemma_turn(r: Self, axis: Self) {
        lemma_turn_cases(r, axis);
    }

    proof fn lemma_turn_injective(r1: Self, r2: Self, axis: Self) {
        lemma_turn_cases(r1, axis);
        lemma_turn_cases(r2, axis);
    }

    proof fn lemma_turn_order(r: Self, axis: Self) {
        lemma_turn_cases(r, axis);
        assert(Self::turn_order() == 2);
        let t1 = r.turned_one(axis);
        assert(r.turned_n(axis, 0) == r);
        assert(r.turned_n(axis, 1) == t1);
        assert(r.turned_n(axis, 2) == t1.turned_one(axis));
    }

    proof fn lemma_heads(r: Self) {
        let h = Self::heads();
        assert(h[0] == RDodecaRay(Basis::X, Sign::Pos, Sign::Pos));
        assert(h[1] == RDodecaRay(Basis::X, Sign::Pos, Sign::Neg));
        assert(h[2] == RDodecaRay(Basis::Y, Sign::Pos, Sign::Pos));
        assert(h[3] == RDodecaRay(Basis::Y, Sign::Pos, Sign::Neg));
        assert(h[4] == RDodecaRay(Basis::Z, Sign::Pos, Sign::Pos));
        assert(h[5] == RDodecaRay(Basis::Z, Sign::Pos, Sign::Neg));
        if r.is_head() {
            if r == h[0] {
            } else if r == h[1] {
            } else if r == h[2] {
            } else if r == h[3] {
            } else if r == h[4] {
            } else {
                assert(h[5] == r);
            }
        }
    }

    proof fn lemma_names(r1: Self, r2: Self) {
        if r1.ray_name() == r2.ray_name() {
            assert(r1.ray_name()[0] == r2.ray_name()[0]);
            assert(r1.ray_name()[1] == r2.ray_name()[1]);
        }
    }

    fn length() -> (r: usize) {
        assert(Self::ray_count() == 12);
        12
    }

    fn index(&self) -> (r: usize) {
        self.0.to_usize() * 4 + self.1.to_usize() * 2 + self.2.to_usize()
    }

    fn from_index(i: usize) -> (r: Self) {
        assert(Self::ray_count() == 12);
        assert(Self::ray_at(i as nat) == RDodecaRay(
            Basis::from_idx((i / 4) as int),
            Sign::from_bit(((i / 2) % 2) as int),
            Sign::from_bit((i % 2) as int),
        ));
        RDodecaRay(Basis::from_usize(i / 4), Sign::from_usize((i / 2) % 2), Sign::from_usize(i % 2))
    }

    fn get_axis(&self) -> (r: Vec<Self>) {
        let head = Self(self.0, Sign::Pos, self.1.times(self.2));
        let tail = Self(self.0, Sign::Neg, self.1.negate().times(self.2));
        assert(tail == RaySystem::opposite(head));
        assert(self.is_head() == (self.1 == Sign::Pos));
        if self.1 == Sign::Pos {
            assert(head == *self);
        } else {
            assert(head == RaySystem::opposite(*self));
        }
        vec![head, tail]
    }

    fn turn_one(&self, axis: Self) -> (r: Self) {
        let p = axis.1.times(axis.2);
        let axis = axis.get_axis()[0];
        match self.0.diff(axis.0) {
            BasisDiff::D0 => Self(self.0, p.times(self.2), p.times(self.1)),
            BasisDiff::D1 => Self(self.0.plus(BasisDiff::D1), self.2.negate(), p.times(self.1)),
            BasisDiff::D2 => Self(self.0.plus(BasisDiff::D2), p.times(self.2), self.1.negate()),
        }
    }

    fn order(&self) -> (r: i8) {
        2
    }

    fn axis_heads() -> (r: Vec<Self>) {
        vec![
            Self(Basis::X, Sign::Pos, Sign::Pos),
            Self(Basis::X, Sign::Pos, Sign::Neg),
            Self(Basis::Y, Sign::Pos, Sign::Pos),
            Self(Basis::Y, Sign::Pos, Sign::Neg),
            Self(Basis::Z, Sign::Pos, Sign::Pos),
            Self(Basis::Z, Sign::Pos, Sign::Neg),
        ]
    }

    fn name(&self) -> (r: String) {
        let s = match self {
            RDodecaRay(Basis::X, Sign::Pos, Sign::Pos) => "BU",
            RDodecaRay(Basis::X, Sign::Pos, Sign::Neg) => "BD",
            RDodecaRay(Basis::X, Sign::Neg, Sign::Pos) => "FU",
            RDodecaRay(Basis::X, Sign::Neg, Sign::Neg) => "FD",
            RDodecaRay(Basis::Y, Sign::Pos, Sign::Pos) => "UR",
            RDodecaRay(Basis::Y, Sign::Pos, Sign::Neg) => "UL",
            RDodecaRay(Basis::Y, Sign::Neg, Sign::Pos) => "DR",
            RDodecaRay(Basis::Y, Sign::Neg, Sign::Neg) => "DL",
            RDodecaRay(Basis::Z, Sign::Pos, Sign::Pos) => "RB",
            RDodecaRay(Basis::Z, Sign::Pos, Sign::Neg) => "RF",
            RDodecaRay(Basis::Z, Sign::Neg, Sign::Pos) => "LB",
            RDodecaRay(Basis::Z, Sign::Neg, Sign::Neg) => "LF",
        };
        proof {
            reveal_strlit("BU");
            reveal_strlit("BD");
            reveal_strlit("FU");
            reveal_strlit("FD");
            reveal_strlit("UR");
            reveal_strlit("UL");
            reveal_strlit("DR");
            reveal_strlit("DL");
            reveal_strlit("RB");
            reveal_strlit("RF");
            reveal_strlit("LB");
            reveal_strlit("LF");
            assert(s@ =~= self.ray_name());
        }
        s.to_owned()
    }
}

/// The direction between two cube faces whose axes follow each other
/// (`c2`'s basis is one step after `c1`'s): its name joins the two face
/// names.
pub fn add_cube_rays(c1: CubeRay, c2: CubeRay) -> (r: RDodecaRay)
    requires
        c2.0 == c1.0.spec_plus(BasisDiff::D1),
    ensures
        r == RDodecaRay(c1.0.spec_plus(BasisDiff::D2), c1.1, c2.1),
        r.ray_name() == c1.ray_name() + c2.ray_name(),
{
    let basis = match (c1.0, c2.0) {
        (Basis::X, Basis::Y) => Basis::Z,
        (Basis::Y, Basis::Z) => Basis::X,
        _ => Basis::Y,
    };
    RDodecaRay(basis, c1.1, c2.1)
}

} // verus!
