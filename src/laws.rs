//! Facts about the concrete ray systems taken together.
use vstd::prelude::*;

use crate::cube::CubeRay;
use crate::dodeca::DodecaRay;
use crate::octa::OctaRay;
use crate::r_dodeca::RDodecaRay;
use crate::ray::{lemma_full_turn, RaySystem};

verus! {

/// The turn orders: quarter turns on the cube, thirds on the octahedron,
/// fifths on the dodecahedron and half turns on the rhombic dodecahedron;
/// each full turn brings every ray back.
pub proof fn lemma_turn_orders(c: CubeRay, ca: CubeRay, o: OctaRay, oa: OctaRay, d: DodecaRay, da: DodecaRay, r: RDodecaRay, ra: RDodecaRay)
    ensures
        CubeRay::turn_order() == 4,
        OctaRay::turn_order() == 3,
        DodecaRay::turn_order() == 5,
        RDodecaRay::turn_order() == 2,
        c.turned_n(ca, 4) == c,
        o.turned_n(oa, 3) == o,
        d.turned_n(da, 5) == d,
        r.turned_n(ra, 2) == r,
{
    assert(CubeRay::turn_order() == 4);
    assert(OctaRay::turn_order() == 3);
    assert(DodecaRay::turn_order() == 5);
    assert(RDodecaRay::turn_order() == 2);
    lemma_full_turn(c, ca);
    lemma_full_turn(o, oa);
    lemma_full_turn(d, da);
    lemma_full_turn(r, ra);
}

} // verus!
