use laminated::basis::{Basis, BasisDiff, Sign};
use laminated::cube::CubeRay;
use laminated::dodeca::DodecaRay;
use laminated::octa::OctaRay;
use laminated::r_dodeca::{add_cube_rays, RDodecaRay};
use laminated::ray::{validate_ray_system, RaySystem};

fn all_rays<R: RaySystem>() -> Vec<R> {
    (0..R::length()).map(|i| R::from_index(i)).collect()
}

fn names_round_trip<R: RaySystem + PartialEq + std::fmt::Debug>() {
    for ray in all_rays::<R>() {
        assert_eq!(R::from_name(&ray.name()), Some(ray));
    }
}

fn axes_consistent<R: RaySystem + PartialEq + std::fmt::Debug>() {
    for ray in all_rays::<R>() {
        let axis = ray.get_axis();
        assert!(axis.contains(&ray));
        for other in &axis {
            assert_eq!(other.get_axis(), axis);
        }
    }
}

fn turns_injective<R: RaySystem + PartialEq + std::fmt::Debug>() {
    let rays = all_rays::<R>();
    for head in R::axis_heads() {
        for (i, a) in rays.iter().enumerate() {
            for b in rays.iter().skip(i + 1) {
                assert_ne!(a.turn_one(head), b.turn_one(head));
            }
        }
    }
}

fn full_turns<R: RaySystem + PartialEq + std::fmt::Debug>(expected: i8) {
    for head in R::axis_heads() {
        assert_eq!(head.order(), expected);
        for ray in all_rays::<R>() {
            let mut turned = ray;
            for _ in 0..expected {
                turned = turned.turn_one(head);
            }
            assert_eq!(turned, ray);
            assert_eq!(ray.turn((head, expected)), ray);
            assert_eq!(ray.turn((head, 1)), ray.turn_one(head));
            assert_eq!(ray.turn((head, -1)), ray.turn((head, expected - 1)));
        }
    }
}

#[test]
fn validate_ray_system_cube() {
    assert!(validate_ray_system::<CubeRay>())
}

#[test]
fn validate_ray_system_dodeca() {
    assert!(validate_ray_system::<DodecaRay>())
}

#[test]
fn validate_ray_system_octa() {
    assert!(validate_ray_system::<OctaRay>())
}

#[test]
fn validate_ray_system_r_dodeca() {
    assert!(validate_ray_system::<RDodecaRay>())
}

#[test]
fn axes_are_consistent_in_every_system() {
    axes_consistent::<CubeRay>();
    axes_consistent::<OctaRay>();
    axes_consistent::<DodecaRay>();
    axes_consistent::<RDodecaRay>();
}

#[test]
fn one_step_turns_are_injective() {
    turns_injective::<CubeRay>();
    turns_injective::<OctaRay>();
    turns_injective::<DodecaRay>();
    turns_injective::<RDodecaRay>();
}

#[test]
fn full_turns_return_every_ray() {
    full_turns::<CubeRay>(4);
    full_turns::<OctaRay>(3);
    full_turns::<DodecaRay>(5);
    full_turns::<RDodecaRay>(2);
}

#[test]
fn names_round_trip_in_every_system() {
    names_round_trip::<CubeRay>();
    names_round_trip::<OctaRay>();
    names_round_trip::<DodecaRay>();
    names_round_trip::<RDodecaRay>();
}

#[test]
fn unknown_names_are_rejected() {
    assert_eq!(CubeRay::from_name("X"), None);
    assert_eq!(OctaRay::from_name(""), None);
    assert_eq!(DodecaRay::from_name("RR"), None);
    assert_eq!(RDodecaRay::from_name("U"), None);
}

#[test]
fn names_of_known_rays() {
    assert_eq!(CubeRay(Basis::X, Sign::Pos).name(), "R");
    assert_eq!(CubeRay(Basis::Y, Sign::Neg).name(), "F");
    assert_eq!(CubeRay(Basis::Z, Sign::Pos).name(), "U");
    assert_eq!(OctaRay(Sign::Pos, Sign::Pos, Sign::Pos).name(), "BU");
    assert_eq!(OctaRay(Sign::Neg, Sign::Pos, Sign::Neg).name(), "D");
    assert_eq!(DodecaRay(Basis::X, Sign::Pos, Sign::Pos).name(), "PB");
    assert_eq!(DodecaRay(Basis::Z, Sign::Neg, Sign::Neg).name(), "L");
    assert_eq!(RDodecaRay(Basis::X, Sign::Pos, Sign::Pos).name(), "BU");
    assert_eq!(RDodecaRay(Basis::Z, Sign::Neg, Sign::Pos).name(), "LB");
    assert_eq!(RDodecaRay(Basis::Y, Sign::Pos, Sign::Neg).name(), "UL");
}

#[test]
fn cube_quarter_turn_about_u() {
    let u = CubeRay(Basis::Z, Sign::Pos);
    let r = CubeRay(Basis::X, Sign::Pos);
    let b = CubeRay(Basis::Y, Sign::Pos);
    let l = CubeRay(Basis::X, Sign::Neg);
    // about U, the ray that now occupies R's direction is B's
    assert_eq!(r.turn_one(u), b);
    assert_eq!(b.turn_one(u), l);
    assert_eq!(u.turn_one(u), u);
    assert_eq!(r.turn((u, 2)), l);
    assert_eq!(r.turn_one(CubeRay(Basis::Z, Sign::Neg)), r.turn_one(u));
}

#[test]
fn axis_heads_and_axes() {
    assert_eq!(CubeRay::axis_heads().len(), 3);
    assert_eq!(OctaRay::axis_heads().len(), 4);
    assert_eq!(DodecaRay::axis_heads().len(), 6);
    assert_eq!(RDodecaRay::axis_heads().len(), 6);
    let d = OctaRay(Sign::Neg, Sign::Pos, Sign::Neg);
    assert_eq!(d.tet_sign(), Sign::Pos);
    assert_eq!(d.get_axis(), vec![d, OctaRay(Sign::Pos, Sign::Neg, Sign::Pos)]);
    let u = OctaRay(Sign::Pos, Sign::Neg, Sign::Pos);
    assert_eq!(u.tet_sign(), Sign::Neg);
    assert_eq!(u.get_axis(), vec![d, u]);
}

#[test]
fn enumeration_indices() {
    for i in 0..12 {
        assert_eq!(DodecaRay::from_index(i).index(), i);
        assert_eq!(RDodecaRay::from_index(i).index(), i);
    }
    assert_eq!(CubeRay::length(), 6);
    assert_eq!(OctaRay::length(), 8);
    assert_eq!(CubeRay(Basis::Y, Sign::Neg).index(), 3);
}

#[test]
fn random_rays_are_rays() {
    for _ in 0..50 {
        let ray = DodecaRay::choose_random();
        assert!(ray.index() < 12);
        assert_eq!(DodecaRay::from_index(ray.index()), ray);
    }
}

#[test]
fn basis_arithmetic() {
    assert_eq!(Basis::X.plus(BasisDiff::D1), Basis::Y);
    assert_eq!(Basis::Z.plus(BasisDiff::D1), Basis::X);
    assert_eq!(Basis::Y.plus(BasisDiff::D2), Basis::X);
    assert_eq!(Basis::X.minus(BasisDiff::D1), Basis::Z);
    assert_eq!(Basis::Y.diff(Basis::X), BasisDiff::D1);
    assert_eq!(Basis::X.diff(Basis::Y), BasisDiff::D2);
    assert_eq!(Basis::Z.diff(Basis::Z), BasisDiff::D0);
    assert_eq!(BasisDiff::D2.plus(BasisDiff::D2), BasisDiff::D1);
    assert_eq!(BasisDiff::D1.negate(), BasisDiff::D2);
    assert_eq!(Sign::Neg.times(Sign::Neg), Sign::Pos);
    assert_eq!(Sign::Pos.times(Sign::Neg), Sign::Neg);
    assert_eq!(Sign::Pos.negate(), Sign::Neg);
}

#[test]
fn rhombic_rays_from_cube_faces() {
    let r = CubeRay(Basis::X, Sign::Pos);
    let f = CubeRay(Basis::Y, Sign::Neg);
    let u = CubeRay(Basis::Z, Sign::Pos);
    let rf = add_cube_rays(r, f);
    assert_eq!(rf, RDodecaRay(Basis::Z, Sign::Pos, Sign::Neg));
    assert_eq!(rf.name(), "RF");
    assert_eq!(add_cube_rays(f, u).name(), "FU");
    assert_eq!(add_cube_rays(u, r).name(), "UR");
}
