//! The ray-system abstraction: a finite set of directions, grouped into
//! axes of two opposite rays, with one-step turns about each axis.
use vstd::arithmetic::div_mod::{lemma_mod_add_multiples_vanish, lemma_mod_sub_multiples_vanish, lemma_small_mod};
use vstd::prelude::*;

use crate::random::random_index;

verus! {

/// Turning `r` about the axis of `axis` by `order` steps, where a negative
/// `order` turns the other way: the step count is `order` modulo the turn order.
pub open spec fn turn_by<R: RaySystem>(r: R, axis: R, order: int) -> R {
    r.turned_n(axis, (order % (R::turn_order() as int)) as nat)
}

/// The head of the axis that `r` lies on.
pub open spec fn head_of<R: RaySystem>(r: R) -> R {
    if r.is_head() {
        r
    } else {
        r.opposite()
    }
}

/// The rays of `r`'s axis, head first.
pub open spec fn axis_of<R: RaySystem>(r: R) -> Seq<R> {
    seq![head_of(r), head_of(r).opposite()]
}

/// `axis_of` is what `get_axis` returns: the head, then its opposite.
pub proof fn lemma_axis_of<R: RaySystem>(r: R)
    ensures
        axis_of(r) == (if r.is_head() {
            seq![r, r.opposite()]
        } else {
            seq![r.opposite(), r]
        }),
        head_of(r).is_head(),
        head_of(r) == head_of(r.opposite()),
        axis_of(r) == axis_of(r.opposite()),
        axis_of(r)[0] == r || axis_of(r)[1] == r,
        axis_of(r)[0] != axis_of(r)[1],
{
    R::lemma_axis(r);
    R::lemma_axis(r.opposite());
    assert(axis_of(r) =~= (if r.is_head() {
        seq![r, r.opposite()]
    } else {
        seq![r.opposite(), r]
    }));
}

/// Turning by `m` steps and then by `k` steps is turning by `m + k` steps.
pub proof fn lemma_turned_n_add<R: RaySystem>(r: R, axis: R, m: nat, k: nat)
    ensures
        r.turned_n(axis, m).turned_n(axis, k) == r.turned_n(axis, m + k),
    decreases k,
{
    R::lemma_turned_n(r.turned_n(axis, m), axis, 0);
    if k > 0 {
        lemma_turned_n_add(r, axis, m, (k - 1) as nat);
        R::lemma_turned_n(r.turned_n(axis, m), axis, (k - 1) as nat);
        R::lemma_turned_n(r, axis, (m + k - 1) as nat);
    }
}

/// Turning by `m` steps is turning by `m` modulo the turn order.
pub proof fn lemma_turned_n_mod<R: RaySystem>(r: R, axis: R, m: nat)
    ensures
        r.turned_n(axis, m) == r.turned_n(axis, m % R::turn_order()),
    decreases m,
{
    let n = R::turn_order();
    R::lemma_turn_order(r, axis);
    if m >= n {
        lemma_turned_n_add(r, axis, n, (m - n) as nat);
        lemma_turned_n_mod(r, axis, (m - n) as nat);
        vstd::arithmetic::div_mod::lemma_mod_sub_multiples_vanish(m as int, n as int);
    } else {
        vstd::arithmetic::div_mod::lemma_small_mod(m, n);
    }
}

/// A turn by `-k` steps undoes a turn by `k` steps.
pub proof fn lemma_turn_by_inverse<R: RaySystem>(r: R, axis: R, k: int)
    ensures
        turn_by(turn_by(r, axis, k), axis, -k) == r,
{
    let n = R::turn_order() as int;
    R::lemma_turn_order(r, axis);
    R::lemma_turned_n(r, axis, 0);
    let s1 = k % n;
    let s2 = (-k) % n;
    lemma_turned_n_add(r, axis, s1 as nat, s2 as nat);
    assert((s1 + s2) % n == 0) by {
        vstd::arithmetic::div_mod::lemma_add_mod_noop(k, -k, n);
        vstd::arithmetic::div_mod::lemma_mod_self_0(n);
        assert(k + (-k) == 0);
        vstd::arithmetic::div_mod::lemma_small_mod(0, n as nat);
    }
    lemma_turned_n_mod(r, axis, (s1 + s2) as nat);
}

/// Turns fix the rays of the axis they turn about.
pub proof fn lemma_turn_fixes_axis<R: RaySystem>(axis: R, m: nat)
    ensures
        axis.turned_n(axis, m) == axis,
        axis.opposite().turned_n(axis, m) == axis.opposite(),
    decreases m,
{
    R::lemma_turned_n(axis, axis, 0);
    R::lemma_turned_n(axis.opposite(), axis, 0);
    if m > 0 {
        lemma_turn_fixes_axis(axis, (m - 1) as nat);
        R::lemma_turned_n(axis, axis, (m - 1) as nat);
        R::lemma_turned_n(axis.opposite(), axis, (m - 1) as nat);
        R::lemma_turn(axis, axis);
    }
}

/// Turns map opposite rays to opposite rays.
pub proof fn lemma_turn_opposite<R: RaySystem>(r: R, axis: R, m: nat)
    ensures
        r.opposite().turned_n(axis, m) == r.turned_n(axis, m).opposite(),
    decreases m,
{
    R::lemma_turned_n(r, axis, 0);
    R::lemma_turned_n(r.opposite(), axis, 0);
    if m > 0 {
        lemma_turn_opposite(r, axis, (m - 1) as nat);
        R::lemma_turned_n(r, axis, (m - 1) as nat);
        R::lemma_turned_n(r.opposite(), axis, (m - 1) as nat);
        R::lemma_turn(r.turned_n(axis, (m - 1) as nat), axis);
    }
}

/// Axis consistency: every ray lies on its own axis, and the rays of an
/// axis all report the same axis, in the same order.
pub proof fn lemma_axis_consistency<R: RaySystem>(r: R, other: R)
    ensures
        axis_of(r).contains(r),
        axis_of(r).contains(other) ==> axis_of(other) == axis_of(r),
{
    lemma_axis_of(r);
    lemma_axis_of(other);
    R::lemma_axis(r);
    if axis_of(r)[0] == r {
        assert(axis_of(r)[0] == r);
    } else {
        assert(axis_of(r)[1] == r);
    }
}

/// Turn order: turning `turn_order()` single steps about any axis brings
/// every ray back.
pub proof fn lemma_full_turn<R: RaySystem>(r: R, axis: R)
    ensures
        r.turned_n(axis, R::turn_order()) == r,
{
    R::lemma_turn_order(r, axis);
}

/// Turn injectivity: a one-step turn about a fixed axis never sends two
/// distinct rays to the same ray.
pub proof fn lemma_turn_one_injective<R: RaySystem>(r1: R, r2: R, axis: R)
    ensures
        r1 != r2 ==> r1.turned_one(axis) != r2.turned_one(axis),
{
    R::lemma_turn_injective(r1, r2, axis);
}

/// Name round trip: a lookup by the name of `r` that meets the contract of
/// `RaySystem::from_name` finds `r`.
pub proof fn lemma_name_round_trip<R: RaySystem>(r: R, found: Option<R>)
    requires
        found matches Some(ray) ==> ray.ray_name() == r.ray_name(),
        found is None <==> (forall|ray: R| ray.ray_name() != r.ray_name()),
    ensures
        found == Some(r),
{
    assert(!(forall|ray: R| ray.ray_name() != r.ray_name())) by {
        assert(r.ray_name() == r.ray_name());
    }
    if let Some(ray) = found {
        R::lemma_names(ray, r);
    }
}

/// A set of rays that align with the turns of a puzzle.
///
/// Every ray has an opposite ray; the two make up an axis, and exactly one
/// of them is the axis head. A one-step turn about an axis permutes the rays,
/// fixes the rays of that axis, maps opposite rays to opposite rays, and
/// returns every ray to its place after `turn_order()` steps. The order of
/// the enumeration fixes the layout of saved logs.
pub trait RaySystem: Sized + Copy {
    /// The number of rays.
    spec fn ray_count() -> nat;

    /// The position of the ray in the canonical enumeration.
    spec fn ray_index(self) -> nat;

    /// The ray at position `i` of the canonical enumeration.
    spec fn ray_at(i: nat) -> Self;

    /// The other ray on the same axis.
    spec fn opposite(self) -> Self;

    /// Whether the ray is the head of its axis.
    spec fn is_head(self) -> bool;

    /// The ray that occupies `self`'s direction after one clockwise step
    /// about the axis of `axis`.
    spec fn turned_one(self, axis: Self) -> Self;

    /// The cyclic order of the turns.
    spec fn turn_order() -> nat;

    /// The axis heads, one per axis.
    spec fn heads() -> Seq<Self>;

    /// The short name of the ray.
    spec fn ray_name(self) -> Seq<char>;

    /// The ray that occupies `self`'s direction after `n` single steps
    /// about the axis of `axis`.
    spec fn turned_n(self, axis: Self, n: nat) -> Self;

    /// The canonical enumeration is a bijection with `0..ray_count()`.
    proof fn lemma_enumeration(r: Self, i: nat)
        ensures
            r.ray_index() < Self::ray_count(),
            Self::ray_at(r.ray_index()) == r,
            i < Self::ray_count() ==> Self::ray_at(i).ray_index() == i,
    ;

    /// Opposite rays make up an axis with exactly one head.
    proof fn lemma_axis(r: Self)
        ensures
            r.opposite().opposite() == r,
            r.opposite() != r,
            r.opposite().is_head() != r.is_head(),
    ;

    /// Turns are defined per axis, fix the axis they turn about, and map
    /// opposite rays to opposite rays.
    proof fn lemma_turn(r: Self, axis: Self)
        ensures
            r.turned_one(axis.opposite()) == r.turned_one(axis),
            r.opposite().turned_one(axis) == r.turned_one(axis).opposite(),
            axis.turned_one(axis) == axis,
    ;

    /// `turned_n` is `turned_one` repeated `n` times.
    proof fn lemma_turned_n(r: Self, axis: Self, n: nat)
        ensures
            r.turned_n(axis, 0) == r,
            r.turned_n(axis, n + 1) == r.turned_n(axis, n).turned_one(axis),
    ;

    /// A one-step turn never sends two rays to the same ray.
    proof fn lemma_turn_injective(r1: Self, r2: Self, axis: Self)
        ensures
            r1.turned_one(axis) == r2.turned_one(axis) ==> r1 == r2,
    ;

    /// `turn_order()` steps bring every ray back.
    proof fn lemma_turn_order(r: Self, axis: Self)
        ensures
            2 <= Self::turn_order() <= 5,
            r.turned_n(axis, Self::turn_order()) == r,
    ;

    /// The axis heads are exactly the heads, each listed once.
    proof fn lemma_heads(r: Self)
        ensures
            Self::heads().no_duplicates(),
            forall|i: int| 0 <= i < Self::heads().len() ==> (#[trigger] Self::heads()[i]).is_head(),
            r.is_head() ==> Self::heads().contains(r),
    ;

    /// Distinct rays have distinct names.
    proof fn lemma_names(r1: Self, r2: Self)
        ensures
            r1.ray_name() == r2.ray_name() ==> r1 == r2,
    ;

    /// The number of rays.
    fn length() -> (r: usize)
        ensures
            r == Self::ray_count(),
    ;

    /// The position of the ray in the canonical enumeration.
    fn index(&self) -> (r: usize)
        ensures
            r == self.ray_index(),
    ;

    /// The ray at position `i` of the canonical enumeration.
    fn from_index(i: usize) -> (r: Self)
        requires
            i < Self::ray_count(),
        ensures
            r == Self::ray_at(i as nat),
    ;

    /// The rays that make up the axis of `self`, head first; the same list
    /// for both rays of an axis.
    fn get_axis(&self) -> (r: Vec<Self>)
        ensures
            r@ == (if self.is_head() {
                seq![*self, self.opposite()]
            } else {
                seq![self.opposite(), *self]
            }),
    ;

    /// Turns the ray system one unit clockwise about `axis`'s axis and
    /// returns the ray that now occupies `self`'s direction.
    fn turn_one(&self, axis: Self) -> (r: Self)
        ensures
            r == self.turned_one(axis),
    ;

    /// The order of the turns.
    fn order(&self) -> (r: i8)
        ensures
            r == Self::turn_order(),
    ;

    /// The axis heads, one per axis.
    fn axis_heads() -> (r: Vec<Self>)
        ensures
            r@ == Self::heads(),
    ;

    /// The short name of the ray.
    fn name(&self) -> (r: String)
        ensures
            r@ == self.ray_name(),
    ;

    /// Turns the ray system about the axis of `ray_order.0` by `ray_order.1`
    /// steps (negative counts turn the other way) and returns the ray that
    /// now occupies `self`'s direction.
    fn turn(&self, ray_order: (Self, i8)) -> (r: Self)
        ensures
            r == self.turned_n(
                ray_order.0,
                ((ray_order.1 as int) % (Self::turn_order() as int)) as nat,
            ),
    {
        let (ray, order) = ray_order;
        let n = ray.order();
        proof {
            Self::lemma_turn_order(*self, ray);
        }
        let steps = euclid_rem(order, n);
        let mut turned = *self;
        let mut i: i8 = 0;
        proof {
            Self::lemma_turned_n(*self, ray, 0);
        }
        while i < steps
            invariant
                0 <= i <= steps,
                steps == (order as int) % (n as int),
                n == Self::turn_order(),
                turned == self.turned_n(ray, i as nat),
            decreases steps - i,
        {
            proof {
                Self::lemma_turned_n(*self, ray, i as nat);
            }
            turned = turned.turn_one(ray);
            i = i + 1;
        }
        turned
    }

    /// The ray whose name is `name`, if any.
    fn from_name(name: &str) -> (r: Option<Self>)
        ensures
            r matches Some(ray) ==> ray.ray_name() == name@,
            r is None <==> (forall|ray: Self| ray.ray_name() != name@),
    {
        let wanted = name.to_owned();
        let n = Self::length();
        let mut i: usize = 0;
        while i < n
            invariant
                n == Self::ray_count(),
                wanted@ == name@,
                forall|j: nat| j < i ==> (#[trigger] Self::ray_at(j)).ray_name() != name@,
            decreases n - i,
        {
            let ray = Self::from_index(i);
            if ray.name() == wanted {
                return Some(ray);
            }
            i = i + 1;
        }
        proof {
            assert forall|ray: Self| ray.ray_name() != name@ by {
                Self::lemma_enumeration(ray, 0);
                assert(Self::ray_at(ray.ray_index()) == ray);
            }
        }
        None
    }

    /// A ray picked uniformly at random.
    fn choose_random() -> (r: Self) {
        let n = Self::length();
        proof {
            let h = Self::ray_at(0);
            Self::lemma_enumeration(h, 0);
        }
        Self::from_index(random_index(n))
    }
}

/// `order` modulo `n`, as a number in `0..n`.
pub(crate) fn euclid_rem(order: i8, n: i8) -> (r: i8)
    requires
        2 <= n <= 5,
    ensures
        0 <= r < n,
        r == (order as int) % (n as int),
{
    let mut k: i16 = order as i16;
    while k < 0
        invariant
            2 <= n <= 5,
            -200 <= k <= 127,
            (k as int) % (n as int) == (order as int) % (n as int),
        decreases 127 - k,
    {
        proof {
            lemma_mod_add_multiples_vanish(k as int, n as int);
        }
        k = k + n as i16;
    }
    while k >= n as i16
        invariant
            2 <= n <= 5,
            0 <= k <= 127,
            (k as int) % (n as int) == (order as int) % (n as int),
        decreases k,
    {
        proof {
            lemma_mod_sub_multiples_vanish(k as int, n as int);
        }
        k = k - n as i16;
    }
    proof {
        lemma_small_mod(k as nat, n as nat);
    }
    k as i8
}

/// Whether two rays are the same, by their enumeration index.
pub fn same_ray<R: RaySystem>(a: R, b: R) -> (r: bool)
    ensures
        r == (a == b),
{
    proof {
        R::lemma_enumeration(a, 0);
        R::lemma_enumeration(b, 0);
    }
    a.index() == b.index()
}

/// Checks a ray system at run time: axes are reported alike by all their
/// rays, axis heads head their axes, turns are defined per axis, one-step
/// turns are injective, and a full turn brings every ray back. Each of
/// these is proved, so the check always passes.
pub fn validate_ray_system<R: RaySystem>() -> (r: bool)
    ensures
        r,
{
    let n = R::length();
    let heads = R::axis_heads();
    let mut i: usize = 0;
    while i < n
        invariant
            n == R::ray_count(),
            i <= n,
        decreases n - i,
    {
        let ray = R::from_index(i);
        let axis = ray.get_axis();
        proof {
            lemma_axis_consistency(ray, axis@[0]);
            lemma_axis_consistency(ray, axis@[1]);
            lemma_axis_of(ray);
        }
        if !same_ray(axis[0], ray) && !same_ray(axis[1], ray) {
            return false;
        }
        let mut k: usize = 0;
        while k < axis.len()
            invariant
                axis@ == axis_of(ray),
                k <= axis@.len(),
            decreases axis@.len() - k,
        {
            let other = axis[k].get_axis();
            proof {
                lemma_axis_of(axis@[k as int]);
                lemma_axis_consistency(ray, axis@[k as int]);
                assert(axis_of(ray).contains(axis@[k as int]));
            }
            if !same_ray(other[0], axis[0]) || !same_ray(other[1], axis[1]) {
                return false;
            }
            k = k + 1;
        }
        i = i + 1;
    }
    let mut h: usize = 0;
    while h < heads.len()
        invariant
            n == R::ray_count(),
            heads@ == R::heads(),
            h <= heads@.len(),
        decreases heads@.len() - h,
    {
        let head = heads[h];
        let axis = head.get_axis();
        proof {
            R::lemma_heads(head);
            assert(head.is_head());
        }
        if !same_ray(axis[0], head) {
            return false;
        }
        let order = head.order();
        let mut j: usize = 0;
        while j < n
            invariant
                n == R::ray_count(),
                axis@ == axis_of(head),
                order == R::turn_order(),
                j <= n,
            decreases n - j,
        {
            let ray = R::from_index(j);
            let turned = ray.turn_one(head);
            proof {
                lemma_axis_of(head);
                R::lemma_turn(ray, head);
                R::lemma_axis(head);
            }
            if !same_ray(turned, ray.turn_one(axis[0])) || !same_ray(turned, ray.turn_one(axis[1])) {
                return false;
            }
            let mut m: usize = j + 1;
            while m < n
                invariant
                    n == R::ray_count(),
                    j < m <= n,
                    ray == R::ray_at(j as nat),
                    turned == ray.turned_one(head),
                decreases n - m,
            {
                let other = R::from_index(m);
                proof {
                    R::lemma_turn_injective(ray, other, head);
                    R::lemma_enumeration(ray, j as nat);
                    R::lemma_enumeration(other, m as nat);
                }
                if same_ray(turned, other.turn_one(head)) {
                    return false;
                }
                m = m + 1;
            }
            let back = ray.turn((head, order));
            proof {
                R::lemma_turn_order(ray, head);
                lemma_turned_n_mod(ray, head, R::turn_order());
                vstd::arithmetic::div_mod::lemma_mod_self_0(R::turn_order() as int);
                R::lemma_turned_n(ray, head, 0);
                lemma_full_turn(ray, head);
            }
            if !same_ray(back, ray) {
                return false;
            }
            j = j + 1;
        }
        h = h + 1;
    }
    true
}

} // verus!
