//! The dodecahedron's ray system: twelve face directions on six axes,
//! turns of order five.
use vstd::prelude::*;

use crate::basis::{Basis, BasisDiff, Sign};
use crate::ray::RaySystem;

verus! {

/// `DodecaRay(a, ±₁, ±₂)` is the direction `φ ±₁a⁺ + ±₂a⁺⁺`, where `a⁺` and
/// `a⁺⁺` are the basis directions one and two steps after `a`.
#[derive(Debug, Clone, Copy, PartialEq, Eq, Structural)]
pub struct DodecaRay(pub Basis, pub Sign, pub Sign);

/// The sign that the reflection of `axis` flips on the `basis` coordinate.
pub open spec fn flip_sign(axis: DodecaRay, basis: Basis) -> Sign {
    match basis.spec_diff(axis.0) {
        BasisDiff::D0 => axis.1.mul(axis.2),
        BasisDiff::D1 => axis.1,
        BasisDiff::D2 => axis.2,
    }
}

/// `r` with its `basis` coordinate multiplied by `sign`.
pub open spec fn flip_basis(r: DodecaRay, basis: Basis, sign: Sign) -> DodecaRay {
    match basis.spec_diff(r.0) {
        BasisDiff::D0 => r,
        BasisDiff::D1 => DodecaRay(r.0, sign.mul(r.1), r.2),
        BasisDiff::D2 => DodecaRay(r.0, r.1, sign.mul(r.2)),
    }
}

/// `r` with each coordinate multiplied by the sign that `axis` has there,
/// which takes `axis`'s head to a direction with positive signs.
pub open spec fn flip_all(r: DodecaRay, axis: DodecaRay) -> DodecaRay {
    flip_basis(
        flip_basis(flip_basis(r, Basis::X, flip_sign(axis, Basis::X)), Basis::Y, flip_sign(axis, Basis::Y)),
        Basis::Z,
        flip_sign(axis, Basis::Z),
    )
}

/// The rotation about the positive axis head, on flipped coordinates:
/// a change of basis and two sign factors.
pub open spec fn rotation_step(rel: DodecaRay, head: DodecaRay) -> (BasisDiff, Sign, Sign) {
    match (rel.0.spec_diff(head.0), rel.1.mul(rel.2)) {
        (BasisDiff::D0, Sign::Pos) => (BasisDiff::D0, Sign::Pos, Sign::Pos),
        (BasisDiff::D0, Sign::Neg) => (BasisDiff::D2, Sign::Neg, Sign::Neg),
        (BasisDiff::D1, Sign::Pos) => (BasisDiff::D1, Sign::Pos, Sign::Pos),
        (BasisDiff::D1, Sign::Neg) => (BasisDiff::D0, Sign::Pos, Sign::Neg),
        (BasisDiff::D2, Sign::Pos) => (BasisDiff::D1, Sign::Pos, Sign::Neg),
        (BasisDiff::D2, Sign::Neg) => (BasisDiff::D2, Sign::Neg, Sign::Neg),
    }
}

impl DodecaRay {
    /// The sign that the reflection of `self` flips on the `basis` coordinate.
    fn get_flip(&self, basis: Basis) -> (r: Sign)
        ensures
            r == flip_sign(*self, basis),
    {
        match basis.diff(self.0) {
            BasisDiff::D0 => self.1.times(self.2),
            BasisDiff::D1 => self.1,
            BasisDiff::D2 => self.2,
        }
    }

    /// `self` with its `basis` coordinate multiplied by `sign`.
    fn flip_by_basis(&self, basis: Basis, sign: Sign) -> (r: Self)
        ensures
            r == flip_basis(*self, basis, sign),
    {
        match basis.diff(self.0) {
            BasisDiff::D0 => *self,
            BasisDiff::D1 => Self(self.0, sign.times(self.1), self.2),
            BasisDiff::D2 => Self(self.0, self.1, sign.times(self.2)),
        }
    }

    /// `self` with each coordinate multiplied by the sign of `axis` there.
    fn flip_by(&self, axis: Self) -> (r: Self)
        ensures
            r == flip_all(*self, axis),
    {
        let flip_x = axis.get_flip(Basis::X);
        let flip_y = axis.get_flip(Basis::Y);
        let flip_z = axis.get_flip(Basis::Z);
        self.flip_by_basis(Basis::X, flip_x).flip_by_basis(Basis::Y, flip_y).flip_by_basis(Basis::Z, flip_z)
    }

    /// The same signs on the basis direction moved so that `basis` would
    /// become X.
    fn cycle_to_x(&self, basis: Basis) -> (r: Self)
        ensures
            r == DodecaRay(self.0.shifted((3 - basis.idx()) % 3), self.1, self.2),
    {
        Self(self.0.plus(Basis::X.diff(basis)), self.1, self.2)
    }

    /// The inverse of `cycle_to_x`.
    fn cycle_from_x(&self, basis: Basis) -> (r: Self)
        ensures
            r == DodecaRay(self.0.shifted(-((3 - basis.idx()) % 3)), self.1, self.2),
    {
        Self(self.0.minus(Basis::X.diff(basis)), self.1, self.2)
    }

    /// The opposite direction.
    fn opposite(&self) -> (r: Self)
        ensures
            r == RaySystem::opposite(*self),
    {
        Self(self.0, self.1.negate(), self.2.negate())
    }
}

/// The facts about one turn about `DodecaRay(Basis::X, Sign::Pos, Sign::Pos)`, case by case
/// over the twelve rays `r`.
proof fn lemma_turn_cases_x_pos_pos(r: DodecaRay, axis: DodecaRay)
    requires
        axis == DodecaRay(Basis::X, Sign::Pos, Sign::Pos),
    ensures
        r.turned_one(RaySystem::opposite(axis)) == r.turned_one(axis),
        RaySystem::opposite(r).turned_one(axis) == RaySystem::opposite(r.turned_one(axis)),
        axis.turned_one(axis) == axis,
        r.turned_one(axis).turned_one(axis).turned_one(axis).turned_one(axis).turned_one(axis) == r,
{
    match r.0 {
        Basis::X => match r.1 {
            Sign::Pos => match r.2 {
                Sign::Pos => {},
                Sign::Neg => {},
            },
            Sign::Neg => match r.2 {
                Sign::Pos => {},
                Sign::Neg => {},
            },
        },
        Basis::Y => match r.1 {
            Sign::Pos => match r.2 {
                Sign::Pos => {},
                Sign::Neg => {},
            },
            Sign::Neg => match r.2 {
                Sign::Pos => {},
                Sign::Neg => {},
            },
        },
        Basis::Z => match r.1 {
            Sign::Pos => match r.2 {
                Sign::Pos => {},
                Sign::Neg => {},
            },
            Sign::Neg => match r.2 {
                Sign::Pos => {},
                Sign::Neg => {},
            },
        },
    }
}

/// The facts about one turn about `DodecaRay(Basis::X, Sign::Pos, Sign::Neg)`, case by case
/// over the twelve rays `r`.
proof fn lemma_turn_cases_x_pos_neg(r: DodecaRay, axis: DodecaRay)
    requires
        axis == DodecaRay(Basis::X, Sign::Pos, Sign::Neg),
    ensures
        r.turned_one(RaySystem::opposite(axis)) == r.turned_one(axis),
        RaySystem::opposite(r).turned_one(axis) == RaySystem::opposite(r.turned_one(axis)),
        axis.turned_one(axis) == axis,
        r.turned_one(axis).turned_one(axis).turned_one(axis).turned_one(axis).turned_one(axis) == r,
{
    match r.0 {
        Basis::X => match r.1 {
            Sign::Pos => match r.2 {
                Sign::Pos => {},
                Sign::Neg => {},
            },
            Sign::Neg => match r.2 {
                Sign::Pos => {},
                Sign::Neg => {},
            },
        },
        Basis::Y => match r.1 {
            Sign::Pos => match r.2 {
                Sign::Pos => {},
                Sign::Neg => {},
            },
            Sign::Neg => match r.2 {
                Sign::Pos => {},
                Sign::Neg => {},
            },
        },
        Basis::Z => match r.1 {
            Sign::Pos => match r.2 {
                Sign::Pos => {},
                Sign::Neg => {},
            },
            Sign::Neg => match r.2 {
                Sign::Pos => {},
                Sign::Neg => {},
            },
        },
    }
}

/// The facts about one turn about `DodecaRay(Basis::X, Sign::Neg, Sign::Pos)`, case by case
/// over the twelve rays `r`.
proof fn lemma_turn_cases_x_neg_pos(r: DodecaRay, axis: DodecaRay)
    requires
        axis == DodecaRay(Basis::X, Sign::Neg, Sign::Pos),
    ensures
        r.turned_one(RaySystem::opposite(axis)) == r.turned_one(axis),
        RaySystem::opposite(r).turned_one(axis) == RaySystem::opposite(r.turned_one(axis)),
        axis.turned_one(axis) == axis,
        r.turned_one(axis).turned_one(axis).turned_one(axis).turned_one(axis).turned_one(axis) == r,
{
    match r.0 {
        Basis::X => match r.1 {
            Sign::Pos => match r.2 {
                Sign::Pos => {},
                Sign::Neg => {},
            },
            Sign::Neg => match r.2 {
                Sign::Pos => {},
                Sign::Neg => {},
            },
        },
        Basis::Y => match r.1 {
            Sign::Pos => match r.2 {
                Sign::Pos => {},
                Sign::Neg => {},
            },
            Sign::Neg => match r.2 {
                Sign::Pos => {},
                Sign::Neg => {},
            },
        },
        Basis::Z => match r.1 {
            Sign::Pos => match r.2 {
                Sign::Pos => {},
                Sign::Neg => {},
            },
            Sign::Neg => match r.2 {
                Sign::Pos => {},
                Sign::Neg => {},
            },
        },
    }
}

/// The facts about one turn about `DodecaRay(Basis::X, Sign::Neg, Sign::Neg)`, case by case
/// over the twelve rays `r`.
proof fn lemma_turn_cases_x_neg_neg(r: DodecaRay, axis: DodecaRay)
    requires
        axis == DodecaRay(Basis::X, Sign::Neg, Sign::Neg),
    ensures
        r.turned_one(RaySystem::opposite(axis)) == r.turned_one(axis),
        RaySystem::opposite(r).turned_one(axis) == RaySystem::opposite(r.turned_one(axis)),
        axis.turned_one(axis) == axis,
        r.turned_one(axis).turned_one(axis).turned_one(axis).turned_one(axis).turned_one(axis) == r,
{
    match r.0 {
        Basis::X => match r.1 {
            Sign::Pos => match r.2 {
                Sign::Pos => {},
                Sign::Neg => {},
            },
            Sign::Neg => match r.2 {
                Sign::Pos => {},
                Sign::Neg => {},
            },
        },
        Basis::Y => match r.1 {
            Sign::Pos => match r.2 {
                Sign::Pos => {},
                Sign::Neg => {},
            },
            Sign::Neg => match r.2 {
                Sign::Pos => {},
                Sign::Neg => {},
            },
        },
        Basis::Z => match r.1 {
            Sign::Pos => match r.2 {
                Sign::Pos => {},
                Sign::Neg => {},
            },
            Sign::Neg => match r.2 {
                Sign::Pos => {},
                Sign::Neg => {},
            },
        },
    }
}

/// The facts about one turn about `DodecaRay(Basis::Y, Sign::Pos, Sign::Pos)`, case by case
/// over the twelve rays `r`.
proof fn lemma_turn_cases_y_pos_pos(r: DodecaRay, axis: DodecaRay)
    requires
        axis == DodecaRay(Basis::Y, Sign::Pos, Sign::Pos),
    ensures
        r.turned_one(RaySystem::opposite(axis)) == r.turned_one(axis),
        RaySystem::opposite(r).turned_one(axis) == RaySystem::opposite(r.turned_one(axis)),
        axis.turned_one(axis) == axis,
        r.turned_one(axis).turned_one(axis).turned_one(axis).turned_one(axis).turned_one(axis) == r,
{
    match r.0 {
        Basis::X => match r.1 {
            Sign::Pos => match r.2 {
                Sign::Pos => {},
                Sign::Neg => {},
            },
            Sign::Neg => match r.2 {
                Sign::Pos => {},
                Sign::Neg => {},
            },
        },
        Basis::Y => match r.1 {
            Sign::Pos => match r.2 {
                Sign::Pos => {},
                Sign::Neg => {},
            },
            Sign::Neg => match r.2 {
                Sign::Pos => {},
                Sign::Neg => {},
            },
        },
        Basis::Z => match r.1 {
            Sign::Pos => match r.2 {
                Sign::Pos => {},
                Sign::Neg => {},
            },
            Sign::Neg => match r.2 {
                Sign::Pos => {},
                Sign::Neg => {},
            },
        },
    }
}

/// The facts about one turn about `DodecaRay(Basis::Y, Sign::Pos, Sign::Neg)`, case by case
/// over the twelve rays `r`.
proof fn lemma_turn_cases_y_pos_neg(r: DodecaRay, axis: DodecaRay)
    requires
        axis == DodecaRay(Basis::Y, Sign::Pos, Sign::Neg),
    ensures
        r.turned_one(RaySystem::opposite(axis)) == r.turned_one(axis),
        RaySystem::opposite(r).turned_one(axis) == RaySystem::opposite(r.turned_one(axis)),
        axis.turned_one(axis) == axis,
        r.turned_one(axis).turned_one(axis).turned_one(axis).turned_one(axis).turned_one(axis) == r,
{
    match r.0 {
        Basis::X => match r.1 {
            Sign::Pos => match r.2 {
                Sign::Pos => {},
                Sign::Neg => {},
            },
            Sign::Neg => match r.2 {
                Sign::Pos => {},
                Sign::Neg => {},
            },
        },
        Basis::Y => match r.1 {
            Sign::Pos => match r.2 {
                Sign::Pos => {},
                Sign::Neg => {},
            },
            Sign::Neg => match r.2 {
                Sign::Pos => {},
                Sign::Neg => {},
            },
        },
        Basis::Z => match r.1 {
            Sign::Pos => match r.2 {
                Sign::Pos => {},
                Sign::Neg => {},
            },
            Sign::Neg => match r.2 {
                Sign::Pos => {},
                Sign::Neg => {},
            },
        },
    }
}

/// The facts about one turn about `DodecaRay(Basis::Y, Sign::Neg, Sign::Pos)`, case by case
/// over the twelve rays `r`.
proof fn lemma_turn_cases_y_neg_pos(r: DodecaRay, axis: DodecaRay)
    requires
        axis == DodecaRay(Basis::Y, Sign::Neg, Sign::Pos),
    ensures
        r.turned_one(RaySystem::opposite(axis)) == r.turned_one(axis),
        RaySystem::opposite(r).turned_one(axis) == RaySystem::opposite(r.turned_one(axis)),
        axis.turned_one(axis) == axis,
        r.turned_one(axis).turned_one(axis).turned_one(axis).turned_one(axis).turned_one(axis) == r,
{
    match r.0 {
        Basis::X => match r.1 {
            Sign::Pos => match r.2 {
                Sign::Pos => {},
                Sign::Neg => {},
            },
            Sign::Neg => match r.2 {
                Sign::Pos => {},
                Sign::Neg => {},
            },
        },
        Basis::Y => match r.1 {
            Sign::Pos => match r.2 {
                Sign::Pos => {},
                Sign::Neg => {},
            },
            Sign::Neg => match r.2 {
                Sign::Pos => {},
                Sign::Neg => {},
            },
        },
        Basis::Z => match r.1 {
            Sign::Pos => match r.2 {
                Sign::Pos => {},
                Sign::Neg => {},
            },
            Sign::Neg => match r.2 {
                Sign::Pos => {},
                Sign::Neg => {},
            },
        },
    }
}

/// The facts about one turn about `DodecaRay(Basis::Y, Sign::Neg, Sign::Neg)`, case by case
/// over the twelve rays `r`.
proof fn lemma_turn_cases_y_neg_neg(r: DodecaRay, axis: DodecaRay)
    requires
        axis == DodecaRay(Basis::Y, Sign::Neg, Sign::Neg),
    ensures
        r.turned_one(RaySystem::opposite(axis)) == r.turned_one(axis),
        RaySystem::opposite(r).turned_one(axis) == RaySystem::opposite(r.turned_one(axis)),
        axis.turned_one(axis) == axis,
        r.turned_one(axis).turned_one(axis).turned_one(axis).turned_one(axis).turned_one(axis) == r,
{
    match r.0 {
        Basis::X => match r.1 {
            Sign::Pos => match r.2 {
                Sign::Pos => {},
                Sign::Neg => {},
            },
            Sign::Neg => match r.2 {
                Sign::Pos => {},
                Sign::Neg => {},
            },
        },
        Basis::Y => match r.1 {
            Sign::Pos => match r.2 {
                Sign::Pos => {},
                Sign::Neg => {},
            },
            Sign::Neg => match r.2 {
                Sign::Pos => {},
                Sign::Neg => {},
            },
        },
        Basis::Z => match r.1 {
            Sign::Pos => match r.2 {
                Sign::Pos => {},
                Sign::Neg => {},
            },
            Sign::Neg => match r.2 {
                Sign::Pos => {},
                Sign::Neg => {},
            },
        },
    }
}

/// The facts about one turn about `DodecaRay(Basis::Z, Sign::Pos, Sign::Pos)`, case by case
/// over the twelve rays `r`.
proof fn lemma_turn_cases_z_pos_pos(r: DodecaRay, axis: DodecaRay)
    requires
        axis == DodecaRay(Basis::Z, Sign::Pos, Sign::Pos),
    ensures
        r.turned_one(RaySystem::opposite(axis)) == r.turned_one(axis),
        RaySystem::opposite(r).turned_one(axis) == RaySystem::opposite(r.turned_one(axis)),
        axis.turned_one(axis) == axis,
        r.turned_one(axis).turned_one(axis).turned_one(axis).turned_one(axis).turned_one(axis) == r,
{
    match r.0 {
        Basis::X => match r.1 {
            Sign::Pos => match r.2 {
                Sign::Pos => {},
                Sign::Neg => {},
            },
            Sign::Neg => match r.2 {
                Sign::Pos => {},
                Sign::Neg => {},
            },
        },
        Basis::Y => match r.1 {
            Sign::Pos => match r.2 {
                Sign::Pos => {},
                Sign::Neg => {},
            },
            Sign::Neg => match r.2 {
                Sign::Pos => {},
                Sign::Neg => {},
            },
        },
        Basis::Z => match r.1 {
            Sign::Pos => match r.2 {
                Sign::Pos => {},
                Sign::Neg => {},
            },
            Sign::Neg => match r.2 {
                Sign::Pos => {},
                Sign::Neg => {},
            },
        },
    }
}

/// The facts about one turn about `DodecaRay(Basis::Z, Sign::Pos, Sign::Neg)`, case by case
/// over the twelve rays `r`.
proof fn lemma_turn_cases_z_pos_neg(r: DodecaRay, axis: DodecaRay)
    requires
        axis == DodecaRay(Basis::Z, Sign::Pos, Sign::Neg),
    ensures
        r.turned_one(RaySystem::opposite(axis)) == r.turned_one(axis),
        RaySystem::opposite(r).turned_one(axis) == RaySystem::opposite(r.turned_one(axis)),
        axis.turned_one(axis) == axis,
        r.turned_one(axis).turned_one(axis).turned_one(axis).turned_one(axis).turned_one(axis) == r,
{
    match r.0 {
        Basis::X => match r.1 {
            Sign::Pos => match r.2 {
                Sign::Pos => {},
                Sign::Neg => {},
            },
            Sign::Neg => match r.2 {
                Sign::Pos => {},
                Sign::Neg => {},
            },
        },
        Basis::Y => match r.1 {
            Sign::Pos => match r.2 {
                Sign::Pos => {},
                Sign::Neg => {},
            },
            Sign::Neg => match r.2 {
                Sign::Pos => {},
                Sign::Neg => {},
            },
        },
        Basis::Z => match r.1 {
            Sign::Pos => match r.2 {
                Sign::Pos => {},
                Sign::Neg => {},
            },
            Sign::Neg => match r.2 {
                Sign::Pos => {},
                Sign::Neg => {},
            },
        },
    }
}

/// The facts about one turn about `DodecaRay(Basis::Z, Sign::Neg, Sign::Pos)`, case by case
/// over the twelve rays `r`.
proof fn lemma_turn_cases_z_neg_pos(r: DodecaRay, axis: DodecaRay)
    requires
        axis == DodecaRay(Basis::Z, Sign::Neg, Sign::Pos),
    ensures
        r.turned_one(RaySystem::opposite(axis)) == r.turned_one(axis),
        RaySystem::opposite(r).turned_one(axis) == RaySystem::opposite(r.turned_one(axis)),
        axis.turned_one(axis) == axis,
        r.turned_one(axis).turned_one(axis).turned_one(axis).turned_one(axis).turned_one(axis) == r,
{
    match r.0 {
        Basis::X => match r.1 {
            Sign::Pos => match r.2 {
                Sign::Pos => {},
                Sign::Neg => {},
            },
            Sign::Neg => match r.2 {
                Sign::Pos => {},
                Sign::Neg => {},
            },
        },
        Basis::Y => match r.1 {
            Sign::Pos => match r.2 {
                Sign::Pos => {},
                Sign::Neg => {},
            },
            Sign::Neg => match r.2 {
                Sign::Pos => {},
                Sign::Neg => {},
            },
        },
        Basis::Z => match r.1 {
            Sign::Pos => match r.2 {
                Sign::Pos => {},
                Sign::Neg => {},
            },
            Sign::Neg => match r.2 {
                Sign::Pos => {},
                Sign::Neg => {},
            },
        },
    }
}

/// The facts about one turn about `DodecaRay(Basis::Z, Sign::Neg, Sign::Neg)`, case by case
/// over the twelve rays `r`.
proof fn lemma_turn_cases_z_neg_neg(r: DodecaRay, axis: DodecaRay)
    requires
        axis == DodecaRay(Basis::Z, Sign::Neg, Sign::Neg),
    ensures
        r.turned_one(RaySystem::opposite(axis)) == r.turned_one(axis),
        RaySystem::opposite(r).turned_one(axis) == RaySystem::opposite(r.turned_one(axis)),
        axis.turned_one(axis) == axis,
        r.turned_one(axis).turned_one(axis).turned_one(axis).turned_one(axis).turned_one(axis) == r,
{
    match r.0 {
        Basis::X => match r.1 {
            Sign::Pos => match r.2 {
                Sign::Pos => {},
                Sign::Neg => {},
            },
            Sign::Neg => match r.2 {
                Sign::Pos => {},
                Sign::Neg => {},
            },
        },
        Basis::Y => match r.1 {
            Sign::Pos => match r.2 {
                Sign::Pos => {},
                Sign::Neg => {},
            },
            Sign::Neg => match r.2 {
                Sign::Pos => {},
                Sign::Neg => {},
            },
        },
        Basis::Z => match r.1 {
            Sign::Pos => match r.2 {
                Sign::Pos => {},
                Sign::Neg => {},
            },
            Sign::Neg => match r.2 {
                Sign::Pos => {},
                Sign::Neg => {},
            },
        },
    }
}

/// The facts about one turn, case by case over the twelve axis rays.
proof fn lemma_turn_cases(r: DodecaRay, axis: DodecaRay)
    ensures
        r.turned_one(RaySystem::opposite(axis)) == r.turned_one(axis),
        RaySystem::opposite(r).turned_one(axis) == RaySystem::opposite(r.turned_one(axis)),
        axis.turned_one(axis) == axis,
        r.turned_one(axis).turned_one(axis).turned_one(axis).turned_one(axis).turned_one(axis) == r,
{
    match axis.0 {
        Basis::X => match axis.1 {
            Sign::Pos => match axis.2 {
                Sign::Pos => lemma_turn_cases_x_pos_pos(r, axis),
                Sign::Neg => lemma_turn_cases_x_pos_neg(r, axis),
            },
            Sign::Neg => match axis.2 {
                Sign::Pos => lemma_turn_cases_x_neg_pos(r, axis),
                Sign::Neg => lemma_turn_cases_x_neg_neg(r, axis),
            },
        },
        Basis::Y => match axis.1 {
            Sign::Pos => match axis.2 {
                Sign::Pos => lemma_turn_cases_y_pos_pos(r, axis),
                Sign::Neg => lemma_turn_cases_y_pos_neg(r, axis),
            },
            Sign::Neg => match axis.2 {
                Sign::Pos => lemma_turn_cases_y_neg_pos(r, axis),
                Sign::Neg => lemma_turn_cases_y_neg_neg(r, axis),
            },
        },
        Basis::Z => match axis.1 {
            Sign::Pos => match axis.2 {
                Sign::Pos => lemma_turn_cases_z_pos_pos(r, axis),
                Sign::Neg => lemma_turn_cases_z_pos_neg(r, axis),
            },
            Sign::Neg => match axis.2 {
                Sign::Pos => lemma_turn_cases_z_neg_pos(r, axis),
                Sign::Neg => lemma_turn_cases_z_neg_neg(r, axis),
            },
        },
    }
}

impl RaySystem for DodecaRay {
    open spec fn ray_count() -> nat {
        12
    }

    open spec fn ray_index(self) -> nat {
        (self.0.idx() * 4 + self.1.bit() * 2 + self.2.bit()) as nat
    }

    open spec fn ray_at(i: nat) -> Self {
        DodecaRay(Basis::from_idx((i / 4) as int), Sign::from_bit(((i / 2) % 2) as int), Sign::from_bit((i % 2) as int))
    }

    open spec fn opposite(self) -> Self {
        DodecaRay(self.0, self.1.neg(), self.2.neg())
    }

    open spec fn is_head(self) -> bool {
        self.1 == Sign::Pos
    }

    open spec fn turned_one(self, axis: Self) -> Self {
        let head = DodecaRay(axis.0, Sign::Pos, axis.1.mul(axis.2));
        let rel = flip_all(self, head);
        let t = rotation_step(rel, head);
        flip_all(DodecaRay(rel.0.spec_plus(t.0), rel.1.mul(t.1), rel.2.mul(t.2)), head)
    }

    open spec fn turned_n(self, axis: Self, n: nat) -> Self
        decreases n,
    {
        if n == 0 {
            self
        } else {
            self.turned_n(axis, (n - 1) as nat).turned_one(axis)
        }
    }

    open spec fn turn_order() -> nat {
        5
    }

    open spec fn heads() -> Seq<Self> {
        seq![
            DodecaRay(Basis::X, Sign::Pos, Sign::Pos),
            DodecaRay(Basis::X, Sign::Pos, Sign::Neg),
            DodecaRay(Basis::Y, Sign::Pos, Sign::Pos),
            DodecaRay(Basis::Y, Sign::Pos, Sign::Neg),
            DodecaRay(Basis::Z, Sign::Pos, Sign::Pos),
            DodecaRay(Basis::Z, Sign::Pos, Sign::Neg),
        ]
    }

    open spec fn ray_name(self) -> Seq<char> {
        match self {
            DodecaRay(Basis::X, Sign::Pos, Sign::Pos) => seq!['P', 'B'],
            DodecaRay(Basis::X, Sign::Pos, Sign::Neg) => seq!['P', 'D'],
            DodecaRay(Basis::X, Sign::Neg, Sign::Pos) => seq!['U'],
            DodecaRay(Basis::X, Sign::Neg, Sign::Neg) => seq!['F'],
            DodecaRay(Basis::Y, Sign::Pos, Sign::Pos) => seq!['B', 'L'],
            DodecaRay(Basis::Y, Sign::Pos, Sign::Neg) => seq!['B', 'R'],
            DodecaRay(Basis::Y, Sign::Neg, Sign::Pos) => seq!['D', 'L'],
            DodecaRay(Basis::Y, Sign::Neg, Sign::Neg) => seq!['D', 'R'],
            DodecaRay(Basis::Z, Sign::Pos, Sign::Pos) => seq!['P', 'R'],
            DodecaRay(Basis::Z, Sign::Pos, Sign::Neg) => seq!['R'],
            DodecaRay(Basis::Z, Sign::Neg, Sign::Pos) => seq!['P', 'L'],
            DodecaRay(Basis::Z, Sign::Neg, Sign::Neg) => seq!['L'],
        }
    }

    proof fn lemma_enumeration(r: Self, i: nat) {
        assert(Self::ray_count() == 12);
        let k = r.ray_index();
        assert(k == r.0.idx() * 4 + r.1.bit() * 2 + r.2.bit());
        assert(Self::ray_at(k) == DodecaRay(
            Basis::from_idx((k / 4) as int),
            Sign::from_bit(((k / 2) % 2) as int),
            Sign::from_bit((k % 2) as int),
        ));
        assert(Self::ray_at(i) == DodecaRay(
            Basis::from_idx((i / 4) as int),
            Sign::from_bit(((i / 2) % 2) as int),
            Sign::from_bit((i % 2) as int),
        ));
        if i < 12 {
            assert(i == 0 || i == 1 || i == 2 || i == 3 || i == 4 || i == 5 || i == 6 || i == 7 || i == 8
                || i == 9 || i == 10 || i == 11);
        }
    }

    proof fn lemma_axis(r: Self) {
    }

    proof fn lemma_turned_n(r: Self, axis: Self, n: nat) {
        assert(r.turned_n(axis, 0) == r);
    }

    proof fn lemma_turn(r: Self, axis: Self) {
        lemma_turn_cases(r, axis);
    }

    proof fn lemma_turn_injective(r1: Self, r2: Self, axis: Self) {
        lemma_turn_cases(r1, axis);
        lemma_turn_cases(r2, axis);
    }

    proof fn lemma_turn_order(r: Self, axis: Self) {
        lemma_turn_cases(r, axis);
        assert(Self::turn_order() == 5);
        let t1 = r.turned_one(axis);
        let t2 = t1.turned_one(axis);
        let t3 = t2.turned_one(axis);
        let t4 = t3.turned_one(axis);
        assert(r.turned_n(axis, 0) == r);
        assert(r.turned_n(axis, 1) == t1);
        assert(r.turned_n(axis, 2) == t2);
        assert(r.turned_n(axis, 3) == t3);
        assert(r.turned_n(axis, 4) == t4);
        assert(r.turned_n(axis, 5) == t4.turned_one(axis));
    }

    proof fn lemma_heads(r: Self) {
        let h = Self::heads();
        assert(h[0] == DodecaRay(Basis::X, Sign::Pos, Sign::Pos));
        assert(h[1] == DodecaRay(Basis::X, Sign::Pos, Sign::Neg));
        assert(h[2] == DodecaRay(Basis::Y, Sign::Pos, Sign::Pos));
        assert(h[3] == DodecaRay(Basis::Y, Sign::Pos, Sign::Neg));
        assert(h[4] == DodecaRay(Basis::Z, Sign::Pos, Sign::Pos));
        assert(h[5] == DodecaRay(Basis::Z, Sign::Pos, Sign::Neg));
        if r.is_head() {
            if r == h[0] {
            } else if r == h[1] {
            } else if r == h[2] {
            } else if r == h[3] {
            } else if r == h[4] {
            } else {
                assert(h[5] == r);
            }
        }
    }

    proof fn lemma_names(r1: Self, r2: Self) {
        if r1.ray_name() == r2.ray_name() {
            assert(r1.ray_name().len() == r2.ray_name().len());
            assert(r1.ray_name()[0] == r2.ray_name()[0]);
            if r1.ray_name().len() == 2 {
                assert(r1.ray_name()[1] == r2.ray_name()[1]);
            }
        }
    }

    fn length() -> (r: usize) {
        assert(Self::ray_count() == 12);
        12
    }

    fn index(&self) -> (r: usize) {
        self.0.to_usize() * 4 + self.1.to_usize() * 2 + self.2.to_usize()
    }

    fn from_index(i: usize) -> (r: Self) {
        assert(Self::ray_count() == 12);
        assert(Self::ray_at(i as nat) == DodecaRay(
            Basis::from_idx((i / 4) as int),
            Sign::from_bit(((i / 2) % 2) as int),
            Sign::from_bit((i % 2) as int),
        ));
        DodecaRay(Basis::from_usize(i / 4), Sign::from_usize((i / 2) % 2), Sign::from_usize(i % 2))
    }

    fn get_axis(&self) -> (r: Vec<Self>) {
        let head = DodecaRay(self.0, Sign::Pos, self.1.times(self.2));
        let tail = DodecaRay(self.0, Sign::Neg, self.1.negate().times(self.2));
        assert(tail == RaySystem::opposite(head));
        assert(self.is_head() == (self.1 == Sign::Pos));
        if self.1 == Sign::Pos {
            assert(head == *self);
        } else {
            assert(head == RaySystem::opposite(*self));
        }
        vec![head, tail]
    }

    fn turn_one(&self, axis: Self) -> (r: Self) {
        let ghost old_axis = axis;
        assert(old_axis.is_head() == (old_axis.1 == Sign::Pos));
        // an axis head
        let axis = axis.get_axis()[0];
        assert(axis == DodecaRay(old_axis.0, Sign::Pos, old_axis.1.mul(old_axis.2)));
        // coordinates relative to a frame where the head has positive signs
        let rel_ray = self.flip_by(axis);
        let transform = match (rel_ray.0.diff(axis.0), rel_ray.1.times(rel_ray.2)) {
            (BasisDiff::D0, Sign::Pos) => (BasisDiff::D0, Sign::Pos, Sign::Pos),
            (BasisDiff::D0, Sign::Neg) => (BasisDiff::D2, Sign::Neg, Sign::Neg),
            (BasisDiff::D1, Sign::Pos) => (BasisDiff::D1, Sign::Pos, Sign::Pos),
            (BasisDiff::D1, Sign::Neg) => (BasisDiff::D0, Sign::Pos, Sign::Neg),
            (BasisDiff::D2, Sign::Pos) => (BasisDiff::D1, Sign::Pos, Sign::Neg),
            (BasisDiff::D2, Sign::Neg) => (BasisDiff::D2, Sign::Neg, Sign::Neg),
        };
        assert(rotation_step(rel_ray, axis) == transform);
        DodecaRay(rel_ray.0.plus(transform.0), rel_ray.1.times(transform.1), rel_ray.2.times(transform.2)).flip_by(
            axis,
        )
    }

    fn order(&self) -> (r: i8) {
        5
    }

    fn axis_heads() -> (r: Vec<Self>) {
        vec![
            DodecaRay(Basis::X, Sign::Pos, Sign::Pos),
            DodecaRay(Basis::X, Sign::Pos, Sign::Neg),
            DodecaRay(Basis::Y, Sign::Pos, Sign::Pos),
            DodecaRay(Basis::Y, Sign::Pos, Sign::Neg),
            DodecaRay(Basis::Z, Sign::Pos, Sign::Pos),
            DodecaRay(Basis::Z, Sign::Pos, Sign::Neg),
        ]
    }

    fn name(&self) -> (r: String) {
        let s = match self {
            DodecaRay(Basis::X, Sign::Pos, Sign::Pos) => "PB",
            DodecaRay(Basis::X, Sign::Pos, Sign::Neg) => "PD",
            DodecaRay(Basis::X, Sign::Neg, Sign::Pos) => "U",
            DodecaRay(Basis::X, Sign::Neg, Sign::Neg) => "F",
            DodecaRay(Basis::Y, Sign::Pos, Sign::Pos) => "BL",
            DodecaRay(Basis::Y, Sign::Pos, Sign::Neg) => "BR",
            DodecaRay(Basis::Y, Sign::Neg, Sign::Pos) => "DL",
            DodecaRay(Basis::Y, Sign::Neg, Sign::Neg) => "DR",
            DodecaRay(Basis::Z, Sign::Pos, Sign::Pos) => "PR",
            DodecaRay(Basis::Z, Sign::Pos, Sign::Neg) => "R",
            DodecaRay(Basis::Z, Sign::Neg, Sign::Pos) => "PL",
            DodecaRay(Basis::Z, Sign::Neg, Sign::Neg) => "L",
        };
        proof {
            reveal_strlit("PB");
            reveal_strlit("PD");
            reveal_strlit("U");
            reveal_strlit("F");
            reveal_strlit("BL");
            reveal_strlit("BR");
            reveal_strlit("DL");
            reveal_strlit("DR");
            reveal_strlit("PR");
            reveal_strlit("R");
            reveal_strlit("PL");
            reveal_strlit("L");
        }
        s.to_owned()
    }
}

} // verus!
