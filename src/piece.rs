//! A single piece of a laminated puzzle: its fixed layers and its current
//! orientation, both kept as dense maps indexed by the ray enumeration.
use vstd::prelude::*;

use crate::ray::{
    axis_of, head_of, lemma_axis_of, lemma_turn_by_inverse, lemma_turn_fixes_axis, turn_by, RaySystem,
};

verus! {

/// A single piece of an abstract laminated puzzle.
pub struct Piece<Ray> {
    /// For each ray (by its index), the layer on that ray in the solved
    /// position. It does not change.
    pub layers: Vec<i8>,
    /// For each direction (by its ray index), the ray that currently
    /// occupies it. It changes when the piece moves.
    pub orientation: Vec<Ray>,
}

/// What a piece holds, as mathematical sequences indexed by ray index.
pub struct PieceState<Ray> {
    pub layers: Seq<i8>,
    pub orientation: Seq<Ray>,
}

impl<Ray> View for Piece<Ray> {
    type V = PieceState<Ray>;

    open spec fn view(&self) -> PieceState<Ray> {
        PieceState { layers: self.layers@, orientation: self.orientation@ }
    }
}

/// The dense maps cover every ray.
pub open spec fn piece_wf<R: RaySystem>(p: PieceState<R>) -> bool {
    &&& p.layers.len() == R::ray_count()
    &&& p.orientation.len() == R::ray_count()
}

/// The solved layer of `p` on ray `r`.
pub open spec fn layer_at<R: RaySystem>(p: PieceState<R>, r: R) -> i8 {
    p.layers[r.ray_index() as int]
}

/// The ray that currently occupies direction `r` of `p`.
pub open spec fn ori_at<R: RaySystem>(p: PieceState<R>, r: R) -> R {
    p.orientation[r.ray_index() as int]
}

/// The layers of `p` along the rays of `ray`'s axis as the piece now lies.
pub open spec fn grip_of<R: RaySystem>(p: PieceState<R>, ray: R) -> Seq<i8> {
    seq![layer_at(p, ori_at(p, axis_of(ray)[0])), layer_at(p, ori_at(p, axis_of(ray)[1]))]
}

/// The layers of `p` along the rays of `ray`'s axis in its solved position.
pub open spec fn solved_grip_of<R: RaySystem>(p: PieceState<R>, ray: R) -> Seq<i8> {
    seq![layer_at(p, axis_of(ray)[0]), layer_at(p, axis_of(ray)[1])]
}

/// For each ray (by index), the layer seen in that direction as the piece
/// now lies.
pub open spec fn oriented<R: RaySystem>(p: PieceState<R>) -> Seq<i8> {
    Seq::new(R::ray_count(), |i: int| layer_at(p, ori_at(p, R::ray_at(i as nat))))
}

/// Every direction is occupied by itself.
pub open spec fn identity_orientation<R: RaySystem>(o: Seq<R>) -> bool {
    &&& o.len() == R::ray_count()
    &&& forall|i: int| 0 <= i < o.len() ==> #[trigger] o[i] == R::ray_at(i as nat)
}

/// The orientation after turning `o` about `ray`'s axis by `order` steps.
pub open spec fn turned_orientation<R: RaySystem>(o: Seq<R>, ray: R, order: int) -> Seq<R> {
    Seq::new(o.len(), |i: int| o[turn_by(R::ray_at(i as nat), ray, order).ray_index() as int])
}

/// The orientation of `p` after a twist of `ray`'s axis by `order` steps
/// on `grip`: turned if the piece lies in that grip, else unchanged.
pub open spec fn twisted_orientation<R: RaySystem>(p: PieceState<R>, ray: R, order: int, grip: Seq<i8>) -> Seq<R> {
    if grip_of(p, ray) == grip {
        turned_orientation(p.orientation, ray, order)
    } else {
        p.orientation
    }
}

/// Facts about the enumeration, for every ray.
pub proof fn lemma_enumeration_all<R: RaySystem>()
    ensures
        forall|r: R| #[trigger] r.ray_index() < R::ray_count() && R::ray_at(r.ray_index()) == r,
        forall|i: nat| i < R::ray_count() ==> (#[trigger] R::ray_at(i)).ray_index() == i,
{
    assert forall|r: R| #[trigger] r.ray_index() < R::ray_count() && R::ray_at(r.ray_index()) == r by {
        R::lemma_enumeration(r, 0);
    }
    assert forall|i: nat| i < R::ray_count() implies (#[trigger] R::ray_at(i)).ray_index() == i by {
        R::lemma_enumeration(R::ray_at(i), i);
    }
}

/// `p` with its orientation replaced by `orientation`.
pub open spec fn with_orientation<R>(p: PieceState<R>, orientation: Seq<R>) -> PieceState<R> {
    PieceState { layers: p.layers, orientation }
}

/// A twist of `ray`'s axis leaves every piece in the grip it had on that
/// axis.
pub proof fn lemma_twist_keeps_grip<R: RaySystem>(p: PieceState<R>, ray: R, k: int, grip: Seq<i8>)
    requires
        piece_wf(p),
    ensures
        grip_of(with_orientation(p, twisted_orientation(p, ray, k, grip)), ray) == grip_of(p, ray),
{
    let q = with_orientation(p, twisted_orientation(p, ray, k, grip));
    lemma_enumeration_all::<R>();
    lemma_axis_of(ray);
    if grip_of(p, ray) == grip {
        let m = (k % (R::turn_order() as int)) as nat;
        lemma_turn_fixes_axis(ray, m);
        let a0 = axis_of(ray)[0];
        let a1 = axis_of(ray)[1];
        assert(R::ray_at(a0.ray_index()) == a0);
        assert(R::ray_at(a1.ray_index()) == a1);
        assert(turn_by(a0, ray, k) == a0);
        assert(turn_by(a1, ray, k) == a1);
        assert(ori_at(q, a0) == ori_at(p, a0));
        assert(ori_at(q, a1) == ori_at(p, a1));
    }
}

/// Twist round trip: twisting a piece about `ray`'s axis by `k` steps on
/// `grip` and then by `-k` steps on the same grip restores its orientation
/// exactly.
pub proof fn lemma_twist_round_trip<R: RaySystem>(p: PieceState<R>, ray: R, k: int, grip: Seq<i8>)
    requires
        piece_wf(p),
    ensures
        twisted_orientation(with_orientation(p, twisted_orientation(p, ray, k, grip)), ray, -k, grip)
            == p.orientation,
{
    let q = with_orientation(p, twisted_orientation(p, ray, k, grip));
    lemma_twist_keeps_grip(p, ray, k, grip);
    lemma_enumeration_all::<R>();
    if grip_of(p, ray) == grip {
        let back = twisted_orientation(q, ray, -k, grip);
        assert forall|i: int| 0 <= i < p.orientation.len() implies #[trigger] back[i] == p.orientation[i] by {
            let x = R::ray_at(i as nat);
            let y = turn_by(x, ray, -k);
            lemma_turn_by_inverse(x, ray, -k);
            assert(R::ray_at(y.ray_index()) == y);
            assert(--k == k);
        }
        assert(back =~= p.orientation);
    }
}

impl<Ray: RaySystem> Piece<Ray> {
    /// A solved piece whose layers on the axis of the `j`-th axis head are
    /// `axis_layers[j]`, in the order of that axis.
    pub fn make_solved(axis_layers: Vec<Vec<i8>>) -> (r: Self)
        requires
            axis_layers@.len() == Ray::heads().len(),
            forall|j: int| 0 <= j < axis_layers@.len() ==> (#[trigger] axis_layers@[j])@.len() == 2,
        ensures
            piece_wf(r@),
            identity_orientation(r.orientation@),
            forall|j: int|
                0 <= j < axis_layers@.len() ==> solved_grip_of(r@, #[trigger] Ray::heads()[j]) == axis_layers@[j]@,
    {
        let n = Ray::length();
        let mut layers: Vec<i8> = Vec::new();
        let mut i: usize = 0;
        while i < n
            invariant
                n == Ray::ray_count(),
                i <= n,
                layers@.len() == i,
            decreases n - i,
        {
            layers.push(0);
            i = i + 1;
        }
        let heads = Ray::axis_heads();
        proof {
            lemma_enumeration_all::<Ray>();
            Ray::lemma_heads(heads@[0]);
        }
        let mut j: usize = 0;
        while j < heads.len()
            invariant
                heads@ == Ray::heads(),
                heads@.len() == axis_layers@.len(),
                forall|j: int| 0 <= j < axis_layers@.len() ==> (#[trigger] axis_layers@[j])@.len() == 2,
                j <= heads@.len(),
                layers@.len() == Ray::ray_count(),
                Ray::heads().no_duplicates(),
                forall|k: int| 0 <= k < Ray::heads().len() ==> (#[trigger] Ray::heads()[k]).is_head(),
                forall|r: Ray| #[trigger] r.ray_index() < Ray::ray_count() && Ray::ray_at(r.ray_index()) == r,
                forall|k: int|
                    0 <= k < j ==> seq![
                        layers@[axis_of(#[trigger] Ray::heads()[k])[0].ray_index() as int],
                        layers@[axis_of(Ray::heads()[k])[1].ray_index() as int],
                    ] == axis_layers@[k]@,
            decreases heads@.len() - j,
        {
            let head = heads[j];
            let axis = head.get_axis();
            let axl = &axis_layers[j];
            proof {
                Ray::lemma_axis(head);
                assert(head.is_head());
                assert forall|k: int| 0 <= k < j implies head_of(#[trigger] Ray::heads()[k]) != head
                    && head_of(Ray::heads()[k]).opposite() != head by {
                    Ray::lemma_axis(Ray::heads()[k]);
                    assert(Ray::heads()[k] != Ray::heads()[j as int]);
                }
            }
            layers.set(axis[0].index(), axl[0]);
            layers.set(axis[1].index(), axl[1]);
            proof {
                assert forall|k: int|
                    0 <= k < j + 1 implies seq![
                        layers@[axis_of(#[trigger] Ray::heads()[k])[0].ray_index() as int],
                        layers@[axis_of(Ray::heads()[k])[1].ray_index() as int],
                    ] == axis_layers@[k]@ by {
                    let hk = Ray::heads()[k];
                    Ray::lemma_axis(hk);
                    if k < j {
                        assert(axis_of(hk)[0] != axis[0]);
                        assert(axis_of(hk)[0] != axis[1]);
                        assert(axis_of(hk)[1] != axis[0]);
                        assert(axis_of(hk)[1] != axis[1]);
                        assert(axis_of(hk)[0].ray_index() != axis[0].ray_index());
                        assert(axis_of(hk)[0].ray_index() != axis[1].ray_index());
                        assert(axis_of(hk)[1].ray_index() != axis[0].ray_index());
                        assert(axis_of(hk)[1].ray_index() != axis[1].ray_index());
                    } else {
                        assert(axis[0].ray_index() != axis[1].ray_index());
                        assert(axl@ =~= seq![axl@[0], axl@[1]]);
                    }
                }
            }
            j = j + 1;
        }
        let r = Self::make_solved_from_layers(layers);
        r
    }

    /// A solved piece with the given layers.
    pub fn make_solved_from_layers(layers: Vec<i8>) -> (r: Self)
        requires
            layers@.len() == Ray::ray_count(),
        ensures
            piece_wf(r@),
            r.layers == layers,
            identity_orientation(r.orientation@),
    {
        let n = Ray::length();
        let mut orientation: Vec<Ray> = Vec::new();
        let mut i: usize = 0;
        while i < n
            invariant
                n == Ray::ray_count(),
                i <= n,
                orientation@.len() == i,
                forall|k: int| 0 <= k < i ==> #[trigger] orientation@[k] == Ray::ray_at(k as nat),
            decreases n - i,
        {
            orientation.push(Ray::from_index(i));
            i = i + 1;
        }
        Self { layers, orientation }
    }

    /// Whether every direction of the piece is occupied by itself. (The
    /// puzzle as a whole counts as solved when all its pieces share one
    /// orientation.)
    pub fn is_solved(&self) -> (r: bool)
        requires
            piece_wf(self@),
        ensures
            r == identity_orientation(self.orientation@),
    {
        let n = Ray::length();
        let mut i: usize = 0;
        while i < n
            invariant
                n == Ray::ray_count(),
                piece_wf(self@),
                i <= n,
                forall|k: int| 0 <= k < i ==> #[trigger] self.orientation@[k] == Ray::ray_at(k as nat),
            decreases n - i,
        {
            let cur = self.orientation[i];
            proof {
                lemma_enumeration_all::<Ray>();
                Ray::lemma_enumeration(cur, i as nat);
            }
            if cur.index() != i {
                return false;
            }
            i = i + 1;
        }
        true
    }

    /// The layers of the piece along the rays of `ray`'s axis, as it now
    /// lies.
    pub fn grip_on_axis(&self, ray: Ray) -> (r: Vec<i8>)
        requires
            piece_wf(self@),
        ensures
            r@ == grip_of(self@, ray),
    {
        proof {
            lemma_enumeration_all::<Ray>();
            lemma_axis_of(ray);
        }
        let axis = ray.get_axis();
        let a = self.orientation[axis[0].index()];
        let b = self.orientation[axis[1].index()];
        vec![self.layers[a.index()], self.layers[b.index()]]
    }

    /// The layers of the piece along the rays of `ray`'s axis, in its
    /// solved position.
    pub fn grip_on_axis_solved(&self, ray: Ray) -> (r: Vec<i8>)
        requires
            piece_wf(self@),
        ensures
            r@ == solved_grip_of(self@, ray),
    {
        proof {
            lemma_enumeration_all::<Ray>();
            lemma_axis_of(ray);
        }
        let axis = ray.get_axis();
        vec![self.layers[axis[0].index()], self.layers[axis[1].index()]]
    }

    /// Twists the piece about `ray`'s axis by `order` steps if it lies in
    /// `grip`; returns whether it did.
    pub fn twist(&mut self, ray_order: (Ray, i8), grip: &[i8]) -> (r: bool)
        requires
            piece_wf(old(self)@),
        ensures
            piece_wf(final(self)@),
            final(self).layers == old(self).layers,
            r == (grip_of(old(self)@, ray_order.0) == grip@),
            final(self).orientation@ == twisted_orientation(old(self)@, ray_order.0, ray_order.1 as int, grip@),
    {
        let (ray, order) = ray_order;
        let current = self.grip_on_axis(ray);
        if same_layers(current.as_slice(), grip) {
            let n = Ray::length();
            let mut new_orientation: Vec<Ray> = Vec::new();
            let mut i: usize = 0;
            proof {
                lemma_enumeration_all::<Ray>();
            }
            while i < n
                invariant
                    n == Ray::ray_count(),
                    piece_wf(self@),
                    i <= n,
                    new_orientation@.len() == i,
                    forall|r: Ray| #[trigger] r.ray_index() < Ray::ray_count() && Ray::ray_at(r.ray_index()) == r,
                    forall|k: int|
                        0 <= k < i ==> #[trigger] new_orientation@[k] == self.orientation@[turn_by(
                            Ray::ray_at(k as nat),
                            ray,
                            order as int,
                        ).ray_index() as int],
                decreases n - i,
            {
                let t = Ray::from_index(i).turn((ray, order));
                new_orientation.push(self.orientation[t.index()]);
                i = i + 1;
            }
            self.orientation = new_orientation;
            proof {
                assert(self.orientation@ =~= turned_orientation(old(self).orientation@, ray, order as int));
            }
            true
        } else {
            false
        }
    }

    /// For each ray (by index), the layer seen in that direction as the
    /// piece now lies.
    pub fn oriented_layers(&self) -> (r: Vec<i8>)
        requires
            piece_wf(self@),
        ensures
            r@ == oriented(self@),
    {
        let n = Ray::length();
        let mut out: Vec<i8> = Vec::new();
        let mut i: usize = 0;
        proof {
            lemma_enumeration_all::<Ray>();
        }
        while i < n
            invariant
                n == Ray::ray_count(),
                piece_wf(self@),
                i <= n,
                out@.len() == i,
                forall|r: Ray| #[trigger] r.ray_index() < Ray::ray_count() && Ray::ray_at(r.ray_index()) == r,
                forall|k: int|
                    0 <= k < i ==> #[trigger] out@[k] == layer_at(self@, ori_at(self@, Ray::ray_at(k as nat))),
            decreases n - i,
        {
            let cur = self.orientation[Ray::from_index(i).index()];
            out.push(self.layers[cur.index()]);
            i = i + 1;
        }
        proof {
            assert(out@ =~= oriented(self@));
        }
        out
    }
}

/// A copy of a list of layers.
pub fn copy_layers(a: &[i8]) -> (r: Vec<i8>)
    ensures
        r@ == a@,
{
    let mut out: Vec<i8> = Vec::new();
    let mut i: usize = 0;
    while i < a.len()
        invariant
            i <= a@.len(),
            out@ == a@.subrange(0, i as int),
        decreases a@.len() - i,
    {
        out.push(a[i]);
        i = i + 1;
        proof {
            assert(out@ =~= a@.subrange(0, i as int));
        }
    }
    proof {
        assert(out@ =~= a@);
    }
    out
}

/// Whether two lists of layers are equal.
pub fn same_layers(a: &[i8], b: &[i8]) -> (r: bool)
    ensures
        r == (a@ == b@),
{
    if a.len() != b.len() {
        return false;
    }
    let mut i: usize = 0;
    while i < a.len()
        invariant
            a@.len() == b@.len(),
            i <= a@.len(),
            forall|k: int| 0 <= k < i ==> a@[k] == b@[k],
        decreases a@.len() - i,
    {
        if a[i] != b[i] {
            return false;
        }
        i = i + 1;
    }
    proof {
        assert(a@ =~= b@);
    }
    true
}

} // verus!
