//! The puzzle: the legal grips and the full set of pieces, with twists,
//! the solved check and the numbering of positions.
use vstd::arithmetic::power::pow;
use vstd::prelude::*;

use crate::piece::{
    copy_layers, grip_of, lemma_enumeration_all, lemma_twist_keeps_grip, ori_at, oriented, same_layers,
    turned_orientation, identity_orientation, piece_wf, solved_grip_of, twisted_orientation, with_orientation, Piece,
    PieceState,
};
use crate::radix::{
    digits_below, digits_of, lemma_radix_bound, lemma_radix_digit, lemma_radix_of_digits, radix_value,
};
use vstd::relations::injective_on;
use vstd::set_lib::{lemma_int_range, lemma_map_size, lemma_subset_equality, set_int_range};
use crate::random::random_index;
use crate::ray::{
    axis_of, euclid_rem, head_of, lemma_axis_of, lemma_turn_by_inverse, lemma_turn_opposite, turn_by, RaySystem,
};

verus! {

/// Abstract laminated puzzle. The pieces are stored in the order of their
/// solved positions.
pub struct Puzzle<Ray> {
    /// The legal grips, the same list on every axis. The first one is the
    /// core, which never moves.
    pub grips: Vec<Vec<i8>>,
    /// Every piece, each one exactly once.
    pub pieces: Vec<Piece<Ray>>,
}

/// What a puzzle holds, as mathematical sequences.
pub struct PuzzleState<Ray> {
    pub grips: Seq<Seq<i8>>,
    pub pieces: Seq<PieceState<Ray>>,
}

impl<Ray> View for Puzzle<Ray> {
    type V = PuzzleState<Ray>;

    open spec fn view(&self) -> PuzzleState<Ray> {
        PuzzleState {
            grips: self.grips@.map_values(|g: Vec<i8>| g@),
            pieces: self.pieces@.map_values(|p: Piece<Ray>| p@),
        }
    }
}

/// The number of pieces of a puzzle with `grip_count` grips per axis.
pub open spec fn count_for<R: RaySystem>(grip_count: nat) -> int {
    pow(grip_count as int, R::heads().len())
}

/// Digit `j` of `i` written in base `g`, least significant first.
pub open spec fn digit(i: int, g: int, j: nat) -> int {
    (i / pow(g, j)) % g
}

/// The grips have two layers each, and the piece count fits in `usize`.
pub open spec fn grips_fit<R: RaySystem>(grips: Seq<Seq<i8>>) -> bool {
    &&& forall|k: int| 0 <= k < grips.len() ==> (#[trigger] grips[k]).len() == 2
    &&& count_for::<R>(grips.len()) <= usize::MAX
}

/// Every piece covers every ray, and the grips fit.
pub open spec fn shape_wf<R: RaySystem>(st: PuzzleState<R>) -> bool {
    &&& grips_fit::<R>(st.grips)
    &&& forall|i: int| 0 <= i < st.pieces.len() ==> piece_wf(#[trigger] st.pieces[i])
}

/// Twisting every piece of `pieces` that lies in `grip`.
pub open spec fn twist_all<R: RaySystem>(pieces: Seq<PieceState<R>>, ray: R, order: int, grip: Seq<i8>) -> Seq<
    PieceState<R>,
> {
    pieces.map_values(|p: PieceState<R>| with_orientation(p, twisted_orientation(p, ray, order, grip)))
}

/// Twisting `pieces` on each of `grips` in turn.
pub open spec fn twist_each<R: RaySystem>(pieces: Seq<PieceState<R>>, ray: R, order: int, grips: Seq<Seq<i8>>) -> Seq<
    PieceState<R>,
>
    decreases grips.len(),
{
    if grips.len() == 0 {
        pieces
    } else {
        twist_all(twist_each(pieces, ray, order, grips.drop_last()), ray, order, grips.last())
    }
}

/// The pieces after `Puzzle::twist`: a twist of the core grip turns every
/// other grip of the axis the other way instead.
pub open spec fn twisted_pieces<R: RaySystem>(st: PuzzleState<R>, ray: R, order: int, grip: Seq<i8>) -> Seq<
    PieceState<R>,
> {
    if st.grips.len() > 0 && grip == st.grips[0] {
        twist_each(st.pieces, ray, -order, st.grips.drop_first())
    } else {
        twist_all(st.pieces, ray, order, grip)
    }
}

/// The pieces after each move `(ray, order, g)` of `moves` in turn, a
/// twist on grip number `g`.
pub open spec fn moved_pieces<R: RaySystem>(st: PuzzleState<R>, moves: Seq<(R, i8, usize)>) -> Seq<PieceState<R>>
    decreases moves.len(),
{
    if moves.len() == 0 {
        st.pieces
    } else {
        let m = moves.last();
        twisted_pieces(
            PuzzleState { grips: st.grips, pieces: moved_pieces(st, moves.drop_last()) },
            m.0,
            m.1 as int,
            st.grips[m.2 as int],
        )
    }
}

/// All pieces share the orientation of the first piece.
pub open spec fn same_orientations<R>(pieces: Seq<PieceState<R>>) -> bool {
    forall|i: int| 0 <= i < pieces.len() ==> (#[trigger] pieces[i]).orientation == pieces[0].orientation
}

/// Piece `i` of the solved puzzle: on the axis of head `j` it lies in grip
/// number `digit(i, g, j)`, and it is not turned.
pub open spec fn is_solved_piece_at<R: RaySystem>(grips: Seq<Seq<i8>>, p: PieceState<R>, i: int) -> bool {
    &&& piece_wf(p)
    &&& identity_orientation(p.orientation)
    &&& forall|j: int|
        0 <= j < R::heads().len() ==> solved_grip_of(p, #[trigger] R::heads()[j]) == grips[digit(
            i,
            grips.len() as int,
            j as nat,
        )]
}

/// The position of `grip` among `grips`.
pub open spec fn grip_position(grips: Seq<Seq<i8>>, grip: Seq<i8>) -> int {
    choose|k: int| 0 <= k < grips.len() && grips[k] == grip
}

/// For each axis head, the position among `grips` of the grip that `p`
/// now lies in.
pub open spec fn position_digits<R: RaySystem>(grips: Seq<Seq<i8>>, p: PieceState<R>) -> Seq<int> {
    Seq::new(R::heads().len(), |j: int| grip_position(grips, grip_of(p, R::heads()[j])))
}

/// For each axis head, the position among `grips` of the grip that `p`
/// lies in when solved.
pub open spec fn solved_digits<R: RaySystem>(grips: Seq<Seq<i8>>, p: PieceState<R>) -> Seq<int> {
    Seq::new(R::heads().len(), |j: int| grip_position(grips, solved_grip_of(p, R::heads()[j])))
}

/// The index of the position that `p` now occupies.
pub open spec fn position_index<R: RaySystem>(grips: Seq<Seq<i8>>, p: PieceState<R>) -> int {
    radix_value(position_digits(grips, p), grips.len() as int)
}

/// The index of the position that `p` occupies when solved.
pub open spec fn solved_index<R: RaySystem>(grips: Seq<Seq<i8>>, p: PieceState<R>) -> int {
    radix_value(solved_digits(grips, p), grips.len() as int)
}

/// With distinct grips, a grip's position is where it stands.
proof fn lemma_grip_position(grips: Seq<Seq<i8>>, k: int)
    requires
        grips.no_duplicates(),
        0 <= k < grips.len(),
    ensures
        grip_position(grips, grips[k]) == k,
{
    let c = grip_position(grips, grips[k]);
    assert(0 <= c < grips.len() && grips[c] == grips[k]);
}

/// The first position of `grip` among `grips`, if any.
fn find_grip(grips: &Vec<Vec<i8>>, grip: &[i8]) -> (r: Option<usize>)
    ensures
        r matches Some(k) ==> k < grips@.len() && grips@[k as int]@ == grip@,
        r is None ==> forall|k: int| 0 <= k < grips@.len() ==> (#[trigger] grips@[k])@ != grip@,
{
    let mut k: usize = 0;
    while k < grips.len()
        invariant
            k <= grips@.len(),
            forall|m: int| 0 <= m < k ==> (#[trigger] grips@[m])@ != grip@,
        decreases grips@.len() - k,
    {
        if same_layers(grips[k].as_slice(), grip) {
            return Some(k);
        }
        k = k + 1;
    }
    None
}

/// Index round trip: the solved piece numbered `i` has solved index `i`.
pub proof fn lemma_index_round_trip<R: RaySystem>(grips: Seq<Seq<i8>>, p: PieceState<R>, i: int)
    requires
        grips.no_duplicates(),
        grips.len() > 0,
        0 <= i < count_for::<R>(grips.len()),
        is_solved_piece_at(grips, p, i),
    ensures
        solved_index(grips, p) == i,
{
    let g = grips.len() as int;
    let n = R::heads().len();
    lemma_radix_of_digits(i, g, n);
    assert forall|j: int| 0 <= j < n implies #[trigger] solved_digits(grips, p)[j] == digits_of(i, g, n)[j] by {
        assert(solved_grip_of(p, R::heads()[j]) == grips[digit(i, g, j as nat)]);
        assert(0 <= digits_of(i, g, n)[j] < g);
        lemma_grip_position(grips, digit(i, g, j as nat));
    }
    assert(solved_digits(grips, p) =~= digits_of(i, g, n));
}

/// `grip` with its two layers swapped: the same slice seen from the other
/// end of the axis.
pub open spec fn reversed(grip: Seq<i8>) -> Seq<i8> {
    seq![grip[1], grip[0]]
}

/// The grips suit a puzzle: two layers each, a piece count that fits,
/// pairwise distinct, and each one's reverse is a grip too.
pub open spec fn grips_valid<R: RaySystem>(grips: Seq<Seq<i8>>) -> bool {
    &&& grips_fit::<R>(grips)
    &&& grips.no_duplicates()
    &&& forall|k: int| 0 <= k < grips.len() ==> grips.contains(reversed(#[trigger] grips[k]))
}

/// Every piece covers every ray, lies in a legal grip on every axis both
/// now and when solved, and no two pieces look alike from every direction.
pub open spec fn pieces_wf<R: RaySystem>(grips: Seq<Seq<i8>>, pieces: Seq<PieceState<R>>) -> bool {
    &&& forall|i: int| 0 <= i < pieces.len() ==> piece_wf(#[trigger] pieces[i])
    &&& forall|i: int, r: R| 0 <= i < pieces.len() ==> grips.contains(#[trigger] grip_of(pieces[i], r))
    &&& forall|i: int, r: R| 0 <= i < pieces.len() ==> grips.contains(#[trigger] solved_grip_of(pieces[i], r))
    &&& forall|i: int, j: int|
        0 <= i < pieces.len() && 0 <= j < pieces.len() && i != j ==> #[trigger] oriented(pieces[i]) != #[trigger] oriented(
            pieces[j],
        )
}

/// The puzzle invariant: valid grips, one piece per position, and pieces
/// that occupy distinct legal positions.
pub open spec fn puzzle_wf<R: RaySystem>(st: PuzzleState<R>) -> bool {
    &&& grips_valid::<R>(st.grips)
    &&& st.pieces.len() == count_for::<R>(st.grips.len())
    &&& pieces_wf(st.grips, st.pieces)
}

/// `values` holds each number of `0..values.len()` exactly once.
pub open spec fn is_permutation(values: Seq<usize>) -> bool {
    &&& forall|k: int| 0 <= k < values.len() ==> #[trigger] values[k] < values.len()
    &&& forall|k1: int, k2: int|
        0 <= k1 < values.len() && 0 <= k2 < values.len() && k1 != k2 ==> #[trigger] values[k1] != #[trigger] values[k2]
}

/// After a twist, a turned piece sees in each direction what it saw in the
/// turned direction before.
proof fn lemma_turned_ori<R: RaySystem>(p: PieceState<R>, a: R, k: int)
    requires
        piece_wf(p),
    ensures
        forall|x: R|
            #[trigger] ori_at(with_orientation(p, turned_orientation(p.orientation, a, k)), x) == ori_at(
                p,
                turn_by(x, a, k),
            ),
        piece_wf(with_orientation(p, turned_orientation(p.orientation, a, k))),
{
    lemma_enumeration_all::<R>();
    assert forall|x: R| #[trigger]
        ori_at(with_orientation(p, turned_orientation(p.orientation, a, k)), x) == ori_at(p, turn_by(x, a, k)) by {
        assert(R::ray_at(x.ray_index()) == x);
    }
}

/// The grip of a turned piece on any axis is its old grip on the turned
/// axis, reversed when the turn sends the head to the tail.
proof fn lemma_twisted_grip<R: RaySystem>(p: PieceState<R>, a: R, k: int, r: R)
    requires
        piece_wf(p),
    ensures
        ({
            let q = with_orientation(p, turned_orientation(p.orientation, a, k));
            let t = turn_by(head_of(r), a, k);
            grip_of(q, r) == (if t.is_head() {
                grip_of(p, t)
            } else {
                reversed(grip_of(p, t))
            })
        }),
{
    let q = with_orientation(p, turned_orientation(p.orientation, a, k));
    let h = head_of(r);
    let t = turn_by(h, a, k);
    lemma_turned_ori(p, a, k);
    lemma_axis_of(r);
    lemma_axis_of(t);
    lemma_axis_of(h);
    R::lemma_axis(h);
    R::lemma_axis(t);
    lemma_turn_opposite(h, a, (k % (R::turn_order() as int)) as nat);
    assert(turn_by(h.opposite(), a, k) == t.opposite());
    assert(axis_of(r)[0] == h);
    assert(axis_of(r)[1] == h.opposite());
    assert(ori_at(q, h) == ori_at(p, t));
    assert(ori_at(q, h.opposite()) == ori_at(p, t.opposite()));
    if !t.is_head() {
        assert(axis_of(t)[0] == t.opposite());
        assert(axis_of(t)[1] == t);
    }
}

/// A grip of a piece read off its oriented layers.
proof fn lemma_grip_from_oriented<R: RaySystem>(p: PieceState<R>, r: R)
    requires
        piece_wf(p),
    ensures
        grip_of(p, r) == seq![
            oriented(p)[axis_of(r)[0].ray_index() as int],
            oriented(p)[axis_of(r)[1].ray_index() as int],
        ],
{
    lemma_enumeration_all::<R>();
    assert(R::ray_at(axis_of(r)[0].ray_index()) == axis_of(r)[0]);
    assert(R::ray_at(axis_of(r)[1].ray_index()) == axis_of(r)[1]);
}

/// The oriented layers of a turned piece are its old ones, read in the
/// turned directions.
proof fn lemma_oriented_turned<R: RaySystem>(p: PieceState<R>, a: R, k: int)
    requires
        piece_wf(p),
    ensures
        forall|m: int|
            0 <= m < R::ray_count() ==> #[trigger] oriented(with_orientation(p, turned_orientation(p.orientation, a, k)))[m]
                == oriented(p)[turn_by(R::ray_at(m as nat), a, k).ray_index() as int],
{
    lemma_enumeration_all::<R>();
    lemma_turned_ori(p, a, k);
    assert forall|m: int| 0 <= m < R::ray_count() implies #[trigger] oriented(
        with_orientation(p, turned_orientation(p.orientation, a, k)),
    )[m] == oriented(p)[turn_by(R::ray_at(m as nat), a, k).ray_index() as int] by {
        let y = turn_by(R::ray_at(m as nat), a, k);
        assert(R::ray_at(y.ray_index()) == y);
    }
}

/// Turning two pieces alike keeps them distinct.
proof fn lemma_turn_keeps_distinct<R: RaySystem>(p1: PieceState<R>, p2: PieceState<R>, a: R, k: int)
    requires
        piece_wf(p1),
        piece_wf(p2),
        oriented(p1) != oriented(p2),
    ensures
        oriented(with_orientation(p1, turned_orientation(p1.orientation, a, k))) != oriented(
            with_orientation(p2, turned_orientation(p2.orientation, a, k)),
        ),
{
    let q1 = with_orientation(p1, turned_orientation(p1.orientation, a, k));
    let q2 = with_orientation(p2, turned_orientation(p2.orientation, a, k));
    lemma_oriented_turned(p1, a, k);
    lemma_oriented_turned(p2, a, k);
    lemma_enumeration_all::<R>();
    if oriented(q1) == oriented(q2) {
        assert forall|m: int| 0 <= m < R::ray_count() implies #[trigger] oriented(p1)[m] == oriented(p2)[m] by {
            let y = R::ray_at(m as nat);
            let x = turn_by(y, a, -k);
            lemma_turn_by_inverse(y, a, -k);
            assert(-(-k) == k);
            let mx = x.ray_index() as int;
            assert(R::ray_at(mx as nat) == x);
            assert(oriented(q1)[mx] == oriented(q2)[mx]);
            assert(y.ray_index() == m);
        }
        assert(oriented(p1) =~= oriented(p2));
    }
}

/// A twist on one grip keeps the pieces well formed.
pub proof fn lemma_twist_all_wf<R: RaySystem>(grips: Seq<Seq<i8>>, pieces: Seq<PieceState<R>>, a: R, k: int, g: Seq<i8>)
    requires
        grips_valid::<R>(grips),
        pieces_wf(grips, pieces),
    ensures
        pieces_wf(grips, twist_all(pieces, a, k, g)),
        twist_all(pieces, a, k, g).len() == pieces.len(),
{
    let out = twist_all(pieces, a, k, g);
    lemma_twist_all_shape(pieces, a, k, g);
    assert forall|i: int, r: R| 0 <= i < out.len() implies grips.contains(#[trigger] grip_of(out[i], r)) by {
        let p = pieces[i];
        assert(piece_wf(p));
        if grip_of(p, a) == g {
            lemma_twisted_grip(p, a, k, r);
            let t = turn_by(head_of(r), a, k);
            assert(grips.contains(grip_of(p, t)));
            let c = choose|c: int| 0 <= c < grips.len() && grips[c] == grip_of(p, t);
            assert(grips.contains(reversed(grips[c])));
        } else {
            assert(out[i] =~= p);
        }
    }
    assert forall|i: int, r: R| 0 <= i < out.len() implies grips.contains(#[trigger] solved_grip_of(out[i], r)) by {
        assert(solved_grip_of(out[i], r) == solved_grip_of(pieces[i], r));
    }
    assert forall|i: int, j: int|
        0 <= i < out.len() && 0 <= j < out.len() && i != j implies #[trigger] oriented(out[i]) != #[trigger] oriented(
            out[j],
        ) by {
        let p1 = pieces[i];
        let p2 = pieces[j];
        assert(piece_wf(p1) && piece_wf(p2));
        assert(oriented(p1) != oriented(p2));
        let m1 = grip_of(p1, a) == g;
        let m2 = grip_of(p2, a) == g;
        if m1 && m2 {
            lemma_turn_keeps_distinct(p1, p2, a, k);
        } else if m1 || m2 {
            lemma_twist_keeps_grip(p1, a, k, g);
            lemma_twist_keeps_grip(p2, a, k, g);
            lemma_turned_ori(p1, a, k);
            lemma_turned_ori(p2, a, k);
            lemma_grip_from_oriented(out[i], a);
            lemma_grip_from_oriented(out[j], a);
            assert(grip_of(out[i], a) == grip_of(p1, a));
            assert(grip_of(out[j], a) == grip_of(p2, a));
        } else {
            assert(out[i] =~= p1);
            assert(out[j] =~= p2);
        }
    }
}

/// Twists on a list of grips keep the pieces well formed.
proof fn lemma_twist_each_wf<R: RaySystem>(grips: Seq<Seq<i8>>, pieces: Seq<PieceState<R>>, a: R, k: int, gs: Seq<Seq<i8>>)
    requires
        grips_valid::<R>(grips),
        pieces_wf(grips, pieces),
    ensures
        pieces_wf(grips, twist_each(pieces, a, k, gs)),
        twist_each(pieces, a, k, gs).len() == pieces.len(),
    decreases gs.len(),
{
    if gs.len() > 0 {
        lemma_twist_each_wf(grips, pieces, a, k, gs.drop_last());
        lemma_twist_all_wf(grips, twist_each(pieces, a, k, gs.drop_last()), a, k, gs.last());
    }
}

/// Permutation invariant, one twist: a twist keeps the puzzle well formed.
pub proof fn lemma_twist_keeps_wf<R: RaySystem>(st: PuzzleState<R>, ray: R, order: int, grip: Seq<i8>)
    requires
        puzzle_wf(st),
    ensures
        puzzle_wf(PuzzleState { grips: st.grips, pieces: twisted_pieces(st, ray, order, grip) }),
{
    if st.grips.len() > 0 && grip == st.grips[0] {
        lemma_twist_each_wf(st.grips, st.pieces, ray, -order, st.grips.drop_first());
    } else {
        lemma_twist_all_wf(st.grips, st.pieces, ray, order, grip);
    }
}

/// Permutation invariant, any sequence of moves: the puzzle stays well
/// formed, so `permutation` always returns a permutation.
pub proof fn lemma_moves_keep_wf<R: RaySystem>(st: PuzzleState<R>, moves: Seq<(R, i8, usize)>)
    requires
        puzzle_wf(st),
        forall|i: int| 0 <= i < moves.len() ==> (#[trigger] moves[i]).2 < st.grips.len(),
    ensures
        puzzle_wf(PuzzleState { grips: st.grips, pieces: moved_pieces(st, moves) }),
    decreases moves.len(),
{
    if moves.len() > 0 {
        let rest = moves.drop_last();
        assert forall|i: int| 0 <= i < rest.len() implies (#[trigger] rest[i]).2 < st.grips.len() by {
            assert(rest[i] == moves[i]);
        }
        lemma_moves_keep_wf(st, rest);
        let m = moves.last();
        lemma_twist_keeps_wf(PuzzleState { grips: st.grips, pieces: moved_pieces(st, rest) }, m.0, m.1 as int, st.grips[m.2 as int]);
    }
}

/// A solved piece lies in the grips its layers give, and sees its own
/// layers in every direction.
proof fn lemma_solved_piece_facts<R: RaySystem>(grips: Seq<Seq<i8>>, p: PieceState<R>, i: int, r: R)
    requires
        grips_fit::<R>(grips),
        grips.len() > 0,
        0 <= i,
        is_solved_piece_at(grips, p, i),
    ensures
        grips.contains(solved_grip_of(p, r)),
        grip_of(p, r) == solved_grip_of(p, r),
        oriented(p) == p.layers,
{
    lemma_enumeration_all::<R>();
    let g = grips.len() as int;
    let h = head_of(r);
    lemma_axis_of(r);
    lemma_axis_of(h);
    R::lemma_heads(h);
    assert(R::heads().contains(h));
    let jj = choose|jj: int| 0 <= jj < R::heads().len() && R::heads()[jj] == h;
    assert(head_of(h) == h);
    assert(axis_of(h) == axis_of(r));
    assert(solved_grip_of(p, r) == grips[digit(i, g, jj as nat)]);
    vstd::arithmetic::power::lemma_pow_positive(g, jj as nat);
    vstd::arithmetic::div_mod::lemma_div_pos_is_pos(i, pow(g, jj as nat));
    vstd::arithmetic::div_mod::lemma_mod_pos_bound(i / pow(g, jj as nat), g);
    assert(0 <= digit(i, g, jj as nat) < g);
    assert(ori_at(p, axis_of(r)[0]) == axis_of(r)[0]);
    assert(ori_at(p, axis_of(r)[1]) == axis_of(r)[1]);
    assert forall|m: int| 0 <= m < R::ray_count() implies #[trigger] oriented(p)[m] == p.layers[m] by {
        assert(R::ray_at(m as nat).ray_index() == m);
    }
    assert(oriented(p) =~= p.layers);
}

/// The solved puzzle is well formed.
proof fn lemma_solved_wf<R: RaySystem>(st: PuzzleState<R>)
    requires
        grips_valid::<R>(st.grips),
        st.pieces.len() == count_for::<R>(st.grips.len()),
        forall|i: int| 0 <= i < st.pieces.len() ==> is_solved_piece_at(st.grips, #[trigger] st.pieces[i], i),
    ensures
        puzzle_wf(st),
{
    let g = st.grips.len() as int;
    let n = R::heads().len();
    lemma_heads_nonempty::<R>();
    if g == 0 {
        vstd::arithmetic::power::lemma0_pow(n);
        return;
    }
    assert forall|i: int| 0 <= i < st.pieces.len() implies piece_wf(#[trigger] st.pieces[i]) by {
        assert(is_solved_piece_at(st.grips, st.pieces[i], i));
    }
    assert forall|i: int, r: R| 0 <= i < st.pieces.len() implies st.grips.contains(#[trigger] grip_of(st.pieces[i], r)) by {
        lemma_solved_piece_facts(st.grips, st.pieces[i], i, r);
    }
    assert forall|i: int, r: R| 0 <= i < st.pieces.len() implies st.grips.contains(
        #[trigger] solved_grip_of(st.pieces[i], r),
    ) by {
        lemma_solved_piece_facts(st.grips, st.pieces[i], i, r);
    }
    assert forall|i: int, j: int|
        0 <= i < st.pieces.len() && 0 <= j < st.pieces.len() && i != j implies #[trigger] oriented(st.pieces[i])
        != #[trigger] oriented(st.pieces[j]) by {
        let pi = st.pieces[i];
        let pj = st.pieces[j];
        let r0 = R::ray_at(0);
        lemma_solved_piece_facts(st.grips, pi, i, r0);
        lemma_solved_piece_facts(st.grips, pj, j, r0);
        lemma_radix_of_digits(i, g, n);
        lemma_radix_of_digits(j, g, n);
        assert(digits_of(i, g, n) != digits_of(j, g, n));
        let jj = choose|jj: int| 0 <= jj < n && digits_of(i, g, n)[jj] != digits_of(j, g, n)[jj];
        assert(digits_of(i, g, n) !~= digits_of(j, g, n) ==> exists|jj: int| 0 <= jj < n && digits_of(i, g, n)[jj] != digits_of(j, g, n)[jj]);
        let di = digit(i, g, jj as nat);
        let dj = digit(j, g, jj as nat);
        assert(0 <= digits_of(i, g, n)[jj] < g);
        assert(0 <= digits_of(j, g, n)[jj] < g);
        assert(st.grips[di] != st.grips[dj]);
        let h = R::heads()[jj];
        assert(solved_grip_of(pi, h) != solved_grip_of(pj, h));
        lemma_enumeration_all::<R>();
        if oriented(pi) == oriented(pj) {
            assert(pi.layers == pj.layers);
        }
    }
}

/// In a well-formed puzzle the pieces occupy distinct positions, each
/// below the piece count.
proof fn lemma_positions_distinct<R: RaySystem>(st: PuzzleState<R>)
    requires
        puzzle_wf(st),
    ensures
        forall|i: int|
            0 <= i < st.pieces.len() ==> 0 <= #[trigger] position_index(st.grips, st.pieces[i]) < st.pieces.len(),
        forall|i: int, j: int|
            0 <= i < st.pieces.len() && 0 <= j < st.pieces.len() && #[trigger] position_index(st.grips, st.pieces[i])
                == #[trigger] position_index(st.grips, st.pieces[j]) ==> i == j,
{
    let g = st.grips.len() as int;
    let n = R::heads().len();
    lemma_heads_nonempty::<R>();
    if st.pieces.len() == 0 {
        return;
    }
    if g == 0 {
        vstd::arithmetic::power::lemma0_pow(n);
        return;
    }
    assert forall|i: int| 0 <= i < st.pieces.len() implies digits_below(position_digits(st.grips, st.pieces[i]), g) by {
        let d = position_digits(st.grips, st.pieces[i]);
        assert forall|jj: int| 0 <= jj < d.len() implies 0 <= #[trigger] d[jj] < g by {
            assert(st.grips.contains(grip_of(st.pieces[i], R::heads()[jj])));
        }
    }
    assert forall|i: int|
        0 <= i < st.pieces.len() implies 0 <= #[trigger] position_index(st.grips, st.pieces[i]) < st.pieces.len() by {
        lemma_radix_bound(position_digits(st.grips, st.pieces[i]), g);
    }
    assert forall|i: int, j: int|
        0 <= i < st.pieces.len() && 0 <= j < st.pieces.len() && #[trigger] position_index(st.grips, st.pieces[i])
            == #[trigger] position_index(st.grips, st.pieces[j]) implies i == j by {
        let pi = st.pieces[i];
        let pj = st.pieces[j];
        let di = position_digits(st.grips, pi);
        let dj = position_digits(st.grips, pj);
        assert forall|jj: int| 0 <= jj < n implies grip_of(pi, #[trigger] R::heads()[jj]) == grip_of(pj, R::heads()[jj]) by {
            lemma_radix_digit(di, g, jj as nat);
            lemma_radix_digit(dj, g, jj as nat);
            assert(st.grips.contains(grip_of(pi, R::heads()[jj])));
            assert(st.grips.contains(grip_of(pj, R::heads()[jj])));
        }
        if i != j {
            assert(piece_wf(pi) && piece_wf(pj));
            lemma_enumeration_all::<R>();
            assert forall|m: int| 0 <= m < R::ray_count() implies #[trigger] oriented(pi)[m] == oriented(pj)[m] by {
                let x = R::ray_at(m as nat);
                let h = head_of(x);
                lemma_axis_of(x);
                lemma_axis_of(h);
                R::lemma_heads(h);
                let jj = choose|jj: int| 0 <= jj < n && R::heads()[jj] == h;
                assert(head_of(h) == h);
                lemma_grip_from_oriented(pi, h);
                lemma_grip_from_oriented(pj, h);
                assert(grip_of(pi, h) == grip_of(pj, h));
                assert(x.ray_index() == m);
                if axis_of(h)[0] == x {
                    assert(grip_of(pi, h)[0] == grip_of(pj, h)[0]);
                } else {
                    assert(axis_of(h)[1] == x);
                    assert(grip_of(pi, h)[1] == grip_of(pj, h)[1]);
                }
            }
            assert(oriented(pi) =~= oriented(pj));
        }
    }
}

/// Solved round trip: a freshly built puzzle, whose pieces are all
/// unturned, counts as solved.
pub proof fn lemma_make_solved_is_solved<R: RaySystem>(st: PuzzleState<R>)
    requires
        forall|i: int| 0 <= i < st.pieces.len() ==> is_solved_piece_at(st.grips, #[trigger] st.pieces[i], i),
    ensures
        same_orientations(st.pieces),
{
    assert forall|i: int| 0 <= i < st.pieces.len() implies (#[trigger] st.pieces[i]).orientation
        == st.pieces[0].orientation by {
        assert(is_solved_piece_at(st.grips, st.pieces[i], i));
        assert(is_solved_piece_at(st.grips, st.pieces[0], 0));
        assert(st.pieces[i].orientation =~= st.pieces[0].orientation);
    }
}

/// An injective map from `0..n` into `0..n` reaches every number.
proof fn lemma_injective_onto(f: spec_fn(int) -> int, n: int)
    requires
        n >= 0,
        forall|i: int| 0 <= i < n ==> 0 <= #[trigger] f(i) < n,
        forall|i: int, j: int| 0 <= i < n && 0 <= j < n && #[trigger] f(i) == #[trigger] f(j) ==> i == j,
    ensures
        set_int_range(0, n).map(f) == set_int_range(0, n),
{
    let x = set_int_range(0, n);
    lemma_int_range(0, n);
    let y = x.map(f);
    assert(injective_on(f, x));
    lemma_map_size(x, y, f);
    assert(y.subset_of(x));
    lemma_subset_equality(y, x);
}

/// Two orders give the same turns when they agree modulo the turn order.
proof fn lemma_congruent_orders<R: RaySystem>(p: PieceState<R>, ray: R, a: int, b: int, grip: Seq<i8>)
    requires
        a % (R::turn_order() as int) == b % (R::turn_order() as int),
    ensures
        twisted_orientation(p, ray, a, grip) == twisted_orientation(p, ray, b, grip),
{
    assert(twisted_orientation(p, ray, a, grip) =~= twisted_orientation(p, ray, b, grip));
}

/// Every ray system has at least one axis.
pub proof fn lemma_heads_nonempty<R: RaySystem>()
    ensures
        R::heads().len() > 0,
{
    let r = R::ray_at(0);
    lemma_axis_of(r);
    R::lemma_heads(head_of(r));
    assert(R::heads().contains(head_of(r)));
}

/// Two orders that agree modulo the turn order twist every piece alike.
proof fn lemma_congruent_twists<R: RaySystem>(pieces: Seq<PieceState<R>>, ray: R, a: int, b: int, grip: Seq<i8>)
    requires
        a % (R::turn_order() as int) == b % (R::turn_order() as int),
    ensures
        twist_all(pieces, ray, a, grip) == twist_all(pieces, ray, b, grip),
{
    assert forall|i: int| 0 <= i < pieces.len() implies #[trigger] twist_all(pieces, ray, a, grip)[i] == twist_all(
        pieces,
        ray,
        b,
        grip,
    )[i] by {
        lemma_congruent_orders(pieces[i], ray, a, b, grip);
    }
    assert(twist_all(pieces, ray, a, grip) =~= twist_all(pieces, ray, b, grip));
}

/// Twisting keeps every piece covering every ray.
proof fn lemma_twist_all_shape<R: RaySystem>(pieces: Seq<PieceState<R>>, ray: R, order: int, grip: Seq<i8>)
    requires
        forall|i: int| 0 <= i < pieces.len() ==> piece_wf(#[trigger] pieces[i]),
    ensures
        twist_all(pieces, ray, order, grip).len() == pieces.len(),
        forall|i: int|
            0 <= i < pieces.len() ==> piece_wf(#[trigger] twist_all(pieces, ray, order, grip)[i]),
{
    assert forall|i: int| 0 <= i < pieces.len() implies piece_wf(#[trigger] twist_all(pieces, ray, order, grip)[i]) by {
        assert(piece_wf(pieces[i]));
    }
}

/// Two orders that agree modulo the turn order give the same puzzle twist.
pub proof fn lemma_congruent_twisted_pieces<R: RaySystem>(st: PuzzleState<R>, ray: R, a: int, b: int, grip: Seq<i8>)
    requires
        a % (R::turn_order() as int) == b % (R::turn_order() as int),
    ensures
        twisted_pieces(st, ray, a, grip) == twisted_pieces(st, ray, b, grip),
{
    if st.grips.len() > 0 && grip == st.grips[0] {
        let n = R::turn_order() as int;
        R::lemma_turn_order(ray, ray);
        vstd::arithmetic::div_mod::lemma_fundamental_div_mod(a, n);
        vstd::arithmetic::div_mod::lemma_fundamental_div_mod(b, n);
        let qa = a / n;
        let qb = b / n;
        assert(-b == n * (qa - qb) + (-a)) by (nonlinear_arith)
            requires
                a == n * qa + a % n,
                b == n * qb + b % n,
                a % n == b % n,
        ;
        vstd::arithmetic::div_mod::lemma_mod_multiples_vanish(qa - qb, -a, n);
        lemma_congruent_twist_each(st.pieces, ray, -a, -b, st.grips.drop_first());
    } else {
        lemma_congruent_twists(st.pieces, ray, a, b, grip);
    }
}

/// Two orders that agree modulo the turn order give the same twists on a
/// list of grips.
proof fn lemma_congruent_twist_each<R: RaySystem>(pieces: Seq<PieceState<R>>, ray: R, a: int, b: int, grips: Seq<Seq<i8>>)
    requires
        a % (R::turn_order() as int) == b % (R::turn_order() as int),
    ensures
        twist_each(pieces, ray, a, grips) == twist_each(pieces, ray, b, grips),
    decreases grips.len(),
{
    if grips.len() > 0 {
        lemma_congruent_twist_each(pieces, ray, a, b, grips.drop_last());
        lemma_congruent_twists(twist_each(pieces, ray, a, grips.drop_last()), ray, a, b, grips.last());
    }
}

/// Grip `j` of a puzzle with `n` layers per axis: layer `2j - n + 1` at
/// the head and its negation at the tail.
pub open spec fn layer_grip(n: int, j: int) -> Seq<i8> {
    seq![(2 * j - n + 1) as i8, (n - 1 - 2 * j) as i8]
}

/// The grips of a puzzle with `order` layers per axis, from one face to
/// the other: `[k, -k]` for `k` from `1 - order` to `order - 1` in steps
/// of two.
pub fn layer_grips(order: i8) -> (r: Vec<Vec<i8>>)
    requires
        order >= 1,
    ensures
        r@.len() == order,
        forall|j: int| 0 <= j < order ==> (#[trigger] r@[j])@ == layer_grip(order as int, j),
        r@.map_values(|g: Vec<i8>| g@).no_duplicates(),
        forall|j: int| 0 <= j < order ==> reversed(layer_grip(order as int, j)) == layer_grip(order as int, order - 1 - j),
{
    let mut grips: Vec<Vec<i8>> = Vec::new();
    let mut j: i8 = 0;
    while j < order
        invariant
            1 <= order,
            0 <= j <= order,
            grips@.len() == j,
            forall|m: int| 0 <= m < j ==> (#[trigger] grips@[m])@ == layer_grip(order as int, m),
        decreases order - j,
    {
        let k: i8 = (2 * (j as i16) - (order as i16) + 1) as i8;
        let tail: i8 = -k;
        let grip = vec![k, tail];
        proof {
            assert(grip@ =~= layer_grip(order as int, j as int));
        }
        grips.push(grip);
        j = j + 1;
    }
    proof {
        let v = grips@.map_values(|g: Vec<i8>| g@);
        assert forall|a: int, b: int| 0 <= a < v.len() && 0 <= b < v.len() && a != b implies v[a] != v[b] by {
            assert(v[a][0] != v[b][0]);
        }
    }
    grips
}

/// Whether two orientations are the same.
fn same_orientation<R: RaySystem>(a: &Vec<R>, b: &Vec<R>) -> (r: bool)
    requires
        a@.len() == b@.len(),
    ensures
        r == (a@ == b@),
{
    let mut i: usize = 0;
    while i < a.len()
        invariant
            a@.len() == b@.len(),
            i <= a@.len(),
            forall|k: int| 0 <= k < i ==> a@[k] == b@[k],
        decreases a@.len() - i,
    {
        proof {
            R::lemma_enumeration(a@[i as int], 0);
            R::lemma_enumeration(b@[i as int], 0);
        }
        if a[i].index() != b[i].index() {
            return false;
        }
        i = i + 1;
    }
    proof {
        assert(a@ =~= b@);
    }
    true
}

/// A copy of an orientation.
fn copy_orientation<R: RaySystem>(a: &Vec<R>) -> (r: Vec<R>)
    ensures
        r@ == a@,
{
    let mut out: Vec<R> = Vec::new();
    let mut i: usize = 0;
    while i < a.len()
        invariant
            i <= a@.len(),
            out@ == a@.subrange(0, i as int),
        decreases a@.len() - i,
    {
        out.push(a[i]);
        i = i + 1;
        proof {
            assert(out@ =~= a@.subrange(0, i as int));
        }
    }
    proof {
        assert(out@ =~= a@);
    }
    out
}

impl<Ray: RaySystem> Puzzle<Ray> {
    /// The number of pieces: the grip count to the power of the axis count.
    pub fn piece_count(&self) -> (r: usize)
        requires
            count_for::<Ray>(self.grips@.len()) <= usize::MAX,
        ensures
            r == count_for::<Ray>(self.grips@.len()),
    {
        let g = self.grips.len();
        let n = Ray::axis_heads().len();
        let mut p: usize = 1;
        let mut j: usize = 0;
        proof {
            vstd::arithmetic::power::lemma_pow0(g as int);
        }
        while j < n
            invariant
                n == Ray::heads().len(),
                j <= n,
                g == self.grips@.len(),
                count_for::<Ray>(g as nat) <= usize::MAX,
                p == pow(g as int, j as nat),
            decreases n - j,
        {
            proof {
                vstd::arithmetic::power::lemma_pow_adds(g as int, j as nat, 1);
                vstd::arithmetic::power::lemma_pow1(g as int);
                if g > 0 {
                    vstd::arithmetic::power::lemma_pow_increases(g as nat, (j + 1) as nat, n as nat);
                }
                assert(pow(g as int, (j + 1) as nat) == p * g) by (nonlinear_arith)
                    requires
                        pow(g as int, (j + 1) as nat) == pow(g as int, j as nat) * pow(g as int, 1),
                        pow(g as int, 1) == g,
                        p == pow(g as int, j as nat),
                ;
                if g == 0 {
                    assert(p * g == 0) by (nonlinear_arith)
                        requires
                            g == 0,
                    ;
                }
            }
            p = p * g;
            j = j + 1;
        }
        p
    }

    /// A new solved piece whose index is `i`: on the axis of head `j` it
    /// lies in grip number `digit(i, g, j)`.
    pub fn index_to_solved_piece(&self, i: usize) -> (r: Piece<Ray>)
        requires
            grips_fit::<Ray>(self@.grips),
            self.grips@.len() > 0,
        ensures
            is_solved_piece_at(self@.grips, r@, i as int),
    {
        let g = self.grips.len();
        let heads = Ray::axis_heads();
        let n = heads.len();
        let mut axis_layers: Vec<Vec<i8>> = Vec::new();
        let mut rem: usize = i;
        let mut j: usize = 0;
        proof {
            vstd::arithmetic::power::lemma_pow0(g as int);
        }
        while j < n
            invariant
                heads@ == Ray::heads(),
                n == heads@.len(),
                g == self.grips@.len(),
                g > 0,
                grips_fit::<Ray>(self@.grips),
                j <= n,
                rem == (i as int) / pow(g as int, j as nat),
                axis_layers@.len() == j,
                forall|k: int|
                    0 <= k < j ==> (#[trigger] axis_layers@[k])@ == self@.grips[digit(i as int, g as int, k as nat)],
            decreases n - j,
        {
            let grip = copy_layers(self.grips[rem % g].as_slice());
            axis_layers.push(grip);
            proof {
                vstd::arithmetic::power::lemma_pow_positive(g as int, j as nat);
                vstd::arithmetic::div_mod::lemma_div_denominator(i as int, pow(g as int, j as nat), g as int);
                vstd::arithmetic::power::lemma_pow_adds(g as int, j as nat, 1);
                vstd::arithmetic::power::lemma_pow1(g as int);
            }
            rem = rem / g;
            j = j + 1;
        }
        let r = Piece::make_solved(axis_layers);
        proof {
            assert forall|j: int| 0 <= j < Ray::heads().len() implies solved_grip_of(r@, #[trigger] Ray::heads()[j])
                == self@.grips[digit(i as int, g as int, j as nat)] by {
                assert(axis_layers@[j]@ == self@.grips[digit(i as int, g as int, j as nat)]);
            }
        }
        r
    }

    /// A solved puzzle: piece `i` is the solved piece whose index is `i`.
    pub fn make_solved(grips: Vec<Vec<i8>>) -> (r: Self)
        requires
            grips_fit::<Ray>(grips@.map_values(|g: Vec<i8>| g@)),
        ensures
            r.grips@ == grips@,
            shape_wf(r@),
            r@.pieces.len() == count_for::<Ray>(grips@.len()),
            forall|i: int| 0 <= i < r@.pieces.len() ==> is_solved_piece_at(r@.grips, #[trigger] r@.pieces[i], i),
            grips_valid::<Ray>(r@.grips) ==> puzzle_wf(r@),
    {
        let mut new = Self { grips, pieces: Vec::new() };
        let count = new.piece_count();
        let mut i: usize = 0;
        while i < count
            invariant
                new.grips@ == grips@,
                grips_fit::<Ray>(new@.grips),
                count == count_for::<Ray>(grips@.len()),
                i <= count,
                new.pieces@.len() == i,
                forall|k: int| 0 <= k < i ==> is_solved_piece_at(new@.grips, #[trigger] new@.pieces[k], k),
            decreases count - i,
        {
            proof {
                if grips@.len() == 0 {
                    lemma_heads_nonempty::<Ray>();
                    vstd::arithmetic::power::lemma0_pow(Ray::heads().len());
                }
            }
            let p = new.index_to_solved_piece(i);
            let ghost before = new@;
            new.pieces.push(p);
            proof {
                assert(new@.pieces =~= before.pieces.push(p@));
            }
            i = i + 1;
        }
        proof {
            if grips_valid::<Ray>(new@.grips) {
                lemma_solved_wf(new@);
            }
        }
        new
    }

    /// Whether the puzzle is solved, that is, whether all pieces share one
    /// orientation.
    pub fn is_solved(&self) -> (r: bool)
        requires
            shape_wf(self@),
        ensures
            r == same_orientations(self@.pieces),
    {
        if self.pieces.len() == 0 {
            return true;
        }
        let mut i: usize = 1;
        while i < self.pieces.len()
            invariant
                shape_wf(self@),
                self@.pieces.len() > 0,
                1 <= i <= self@.pieces.len(),
                forall|k: int| 0 <= k < i ==> (#[trigger] self@.pieces[k]).orientation == self@.pieces[0].orientation,
            decreases self@.pieces.len() - i,
        {
            proof {
                assert(piece_wf(self@.pieces[i as int]));
                assert(piece_wf(self@.pieces[0]));
            }
            if !same_orientation(&self.pieces[i].orientation, &self.pieces[0].orientation) {
                return false;
            }
            i = i + 1;
        }
        true
    }

    /// Twists every piece that lies in `grip`.
    fn twist_layer(&mut self, ray_order: (Ray, i8), grip: &[i8])
        requires
            shape_wf(old(self)@),
        ensures
            final(self).grips == old(self).grips,
            final(self)@.pieces == twist_all(old(self)@.pieces, ray_order.0, ray_order.1 as int, grip@),
    {
        let ghost start = self@.pieces;
        let mut i: usize = 0;
        proof {
            assert forall|k: int| 0 <= k < start.len() implies #[trigger] self.pieces@[k]@ == start[k] by {
            }
        }
        while i < self.pieces.len()
            invariant
                self.grips == old(self).grips,
                self@.pieces.len() == start.len(),
                start == old(self)@.pieces,
                shape_wf(old(self)@),
                i <= start.len(),
                forall|k: int|
                    0 <= k < i ==> #[trigger] self.pieces@[k]@ == twist_all(start, ray_order.0, ray_order.1 as int, grip@)[k],
                forall|k: int| i <= k < start.len() ==> #[trigger] self.pieces@[k]@ == start[k],
            decreases start.len() - i,
        {
            proof {
                assert(self.pieces@[i as int]@ == start[i as int]);
                assert(piece_wf(start[i as int]));
            }
            let ghost before = self.pieces@;
            let _twisted = self.pieces[i].twist(ray_order, grip);
            proof {
                assert(self.pieces@[i as int]@ == twist_all(start, ray_order.0, ray_order.1 as int, grip@)[i as int]);
                assert forall|k: int| 0 <= k < start.len() && k != i implies #[trigger] self.pieces@[k] == before[k] by {
                }
            }
            i = i + 1;
        }
        proof {
            assert(self@.pieces =~= twist_all(start, ray_order.0, ray_order.1 as int, grip@)) by {
                assert forall|k: int| 0 <= k < start.len() implies #[trigger] self@.pieces[k] == twist_all(
                    start,
                    ray_order.0,
                    ray_order.1 as int,
                    grip@,
                )[k] by {
                    assert(self.pieces@[k]@ == twist_all(start, ray_order.0, ray_order.1 as int, grip@)[k]);
                }
            }
        }
    }

    /// Applies the twist to the puzzle. Twisting the core grip (the first
    /// one) turns every other grip of the axis the other way instead.
    pub fn twist(&mut self, ray_order: (Ray, i8), grip: &[i8])
        requires
            shape_wf(old(self)@),
        ensures
            final(self).grips == old(self).grips,
            shape_wf(final(self)@),
            final(self)@.pieces == twisted_pieces(old(self)@, ray_order.0, ray_order.1 as int, grip@),
            puzzle_wf(old(self)@) ==> puzzle_wf(final(self)@),
    {
        proof {
            if puzzle_wf(old(self)@) {
                lemma_twist_keeps_wf(old(self)@, ray_order.0, ray_order.1 as int, grip@);
            }
        }
        let (ray, order) = ray_order;
        if self.grips.len() > 0 && same_layers(grip, self.grips[0].as_slice()) {
            // we cannot move the core
            let n = ray.order();
            proof {
                Ray::lemma_turn_order(ray, ray);
            }
            let k = euclid_rem(order, n);
            let neg: i8 = if k == 0 {
                0
            } else {
                n - k
            };
            proof {
                assert((neg as int) % (n as int) == (-(order as int)) % (n as int)) by {
                    let q = (order as int) / (n as int);
                    vstd::arithmetic::div_mod::lemma_fundamental_div_mod(order as int, n as int);
                    vstd::arithmetic::div_mod::lemma_small_mod(neg as nat, n as nat);
                    if k == 0 {
                        assert(-(order as int) == (n as int) * (-q)) by (nonlinear_arith)
                            requires
                                order as int == (n as int) * q + k,
                                k == 0,
                        ;
                        vstd::arithmetic::div_mod::lemma_mod_multiples_vanish(-q, 0, n as int);
                        vstd::arithmetic::div_mod::lemma_small_mod(0, n as nat);
                    } else {
                        assert(-(order as int) == (n as int) * (-q - 1) + (n - k)) by (nonlinear_arith)
                            requires
                                order as int == (n as int) * q + k,
                        ;
                        vstd::arithmetic::div_mod::lemma_mod_multiples_vanish(-q - 1, (n - k) as int, n as int);
                    }
                }
            }
            let ghost start = self@;
            let count = self.grips.len();
            let mut j: usize = 1;
            while j < count
                invariant
                    count == start.grips.len(),
                    1 <= j <= count,
                    self.grips == old(self).grips,
                    start == old(self)@,
                    shape_wf(old(self)@),
                    self@.grips == start.grips,
                    shape_wf(self@),
                    (neg as int) % (Ray::turn_order() as int) == (-(order as int)) % (Ray::turn_order() as int),
                    self@.pieces == twist_each(start.pieces, ray, -(order as int), start.grips.drop_first().subrange(0, j - 1)),
                decreases count - j,
            {
                let layer = copy_layers(self.grips[j].as_slice());
                let ghost before = self@.pieces;
                self.twist_layer((ray, neg), layer.as_slice());
                proof {
                    lemma_congruent_twists(before, ray, neg as int, -(order as int), layer@);
                    let gs = start.grips.drop_first().subrange(0, j as int);
                    assert(gs.drop_last() =~= start.grips.drop_first().subrange(0, j - 1));
                    assert(gs.last() == layer@);
                    lemma_twist_all_shape(before, ray, -(order as int), layer@);
                }
                j = j + 1;
            }
            proof {
                assert(start.grips.drop_first().subrange(0, count - 1) =~= start.grips.drop_first());
            }
        } else {
            let ghost start = self@;
            self.twist_layer(ray_order, grip);
            proof {
                lemma_twist_all_shape(start.pieces, ray, order as int, grip@);
            }
        }
    }

    /// The orientation of every piece, in storage order.
    pub fn orientations(&self) -> (r: Vec<Vec<Ray>>)
        ensures
            r@.len() == self@.pieces.len(),
            forall|i: int| 0 <= i < r@.len() ==> (#[trigger] r@[i])@ == self@.pieces[i].orientation,
    {
        let mut out: Vec<Vec<Ray>> = Vec::new();
        let mut i: usize = 0;
        while i < self.pieces.len()
            invariant
                i <= self@.pieces.len(),
                out@.len() == i,
                forall|k: int| 0 <= k < i ==> (#[trigger] out@[k])@ == self@.pieces[k].orientation,
            decreases self@.pieces.len() - i,
        {
            out.push(copy_orientation(&self.pieces[i].orientation));
            i = i + 1;
        }
        out
    }

    /// Sets the orientation of each piece, in storage order, from `oris`;
    /// pieces past the end of `oris` keep theirs.
    pub fn set_orientations(&mut self, oris: &[Vec<Ray>])
        requires
            shape_wf(old(self)@),
            forall|i: int| 0 <= i < oris@.len() ==> (#[trigger] oris@[i])@.len() == Ray::ray_count(),
        ensures
            final(self).grips == old(self).grips,
            shape_wf(final(self)@),
            final(self)@.pieces.len() == old(self)@.pieces.len(),
            forall|i: int|
                0 <= i < final(self)@.pieces.len() ==> (#[trigger] final(self)@.pieces[i]).layers
                    == old(self)@.pieces[i].layers && final(self)@.pieces[i].orientation == (if i < oris@.len() {
                    oris@[i]@
                } else {
                    old(self)@.pieces[i].orientation
                }),
    {
        let ghost start = self@.pieces;
        let mut i: usize = 0;
        proof {
            assert forall|k: int| 0 <= k < start.len() implies #[trigger] self.pieces@[k]@ == start[k] by {
            }
        }
        while i < self.pieces.len() && i < oris.len()
            invariant
                self.grips == old(self).grips,
                start == old(self)@.pieces,
                shape_wf(old(self)@),
                forall|k: int| 0 <= k < oris@.len() ==> (#[trigger] oris@[k])@.len() == Ray::ray_count(),
                self.pieces@.len() == start.len(),
                i <= start.len(),
                i <= oris@.len(),
                forall|k: int|
                    0 <= k < i ==> (#[trigger] self.pieces@[k]@) == with_orientation(start[k], oris@[k]@),
                forall|k: int| i <= k < start.len() ==> #[trigger] self.pieces@[k]@ == start[k],
            decreases start.len() - i,
        {
            let ori = copy_orientation(&oris[i]);
            let ghost before = self.pieces@;
            self.pieces[i].orientation = ori;
            proof {
                assert(self.pieces@[i as int].layers == before[i as int].layers);
                assert(self.pieces@[i as int].orientation@ == oris@[i as int]@);
                assert(before[i as int]@ == start[i as int]);
                assert(self.pieces@[i as int]@ == with_orientation(start[i as int], oris@[i as int]@));
                assert forall|k: int| 0 <= k < start.len() && k != i implies #[trigger] self.pieces@[k] == before[k] by {
                }
            }
            i = i + 1;
        }
        proof {
            assert forall|k: int| 0 <= k < start.len() implies #[trigger] self@.pieces[k] == self.pieces@[k]@ by {
            }
            assert forall|k: int| 0 <= k < start.len() implies piece_wf(#[trigger] self@.pieces[k]) by {
                assert(piece_wf(start[k]));
                assert(self@.pieces[k] == self.pieces@[k]@);
                if k < i {
                    assert(self.pieces@[k]@ == with_orientation(start[k], oris@[k]@));
                } else {
                    assert(self.pieces@[k]@ == start[k]);
                }
            }
            assert forall|k: int| 0 <= k < start.len() implies (#[trigger] self@.pieces[k]).layers == start[k].layers
                && self@.pieces[k].orientation == (if k < oris@.len() {
                oris@[k]@
            } else {
                start[k].orientation
            }) by {
                assert(self@.pieces[k] == self.pieces@[k]@);
                if k < i {
                    assert(self.pieces@[k]@ == with_orientation(start[k], oris@[k]@));
                } else {
                    assert(self.pieces@[k]@ == start[k]);
                }
            }
        }
    }

    /// Applies each move `(ray, order, g)` in turn: a twist of `ray`'s axis
    /// by `order` steps on grip number `g`.
    pub fn apply_moves(&mut self, moves: &[(Ray, i8, usize)])
        requires
            shape_wf(old(self)@),
            forall|i: int| 0 <= i < moves@.len() ==> (#[trigger] moves@[i]).2 < old(self).grips@.len(),
        ensures
            final(self).grips == old(self).grips,
            shape_wf(final(self)@),
            final(self)@.pieces == moved_pieces(old(self)@, moves@),
            puzzle_wf(old(self)@) ==> puzzle_wf(final(self)@),
    {
        proof {
            if puzzle_wf(old(self)@) {
                lemma_moves_keep_wf(old(self)@, moves@);
            }
        }
        let ghost start = self@;
        let mut i: usize = 0;
        while i < moves.len()
            invariant
                self.grips == old(self).grips,
                start == old(self)@,
                shape_wf(self@),
                forall|i: int| 0 <= i < moves@.len() ==> (#[trigger] moves@[i]).2 < start.grips.len(),
                i <= moves@.len(),
                self@.grips == start.grips,
                self@.pieces == moved_pieces(start, moves@.subrange(0, i as int)),
            decreases moves@.len() - i,
        {
            let (ray, order, g) = moves[i];
            let grip = copy_layers(self.grips[g].as_slice());
            self.twist((ray, order), grip.as_slice());
            proof {
                let ms = moves@.subrange(0, i + 1);
                assert(ms.drop_last() =~= moves@.subrange(0, i as int));
                assert(ms.last() == moves@[i as int]);
            }
            i = i + 1;
        }
        proof {
            assert(moves@.subrange(0, moves@.len() as int) =~= moves@);
        }
    }

    /// Scrambles the puzzle with a thousand random twists, each of a random
    /// ray's axis by a random order on a random grip.
    pub fn scramble(&mut self)
        requires
            shape_wf(old(self)@),
            old(self).grips@.len() > 0,
        ensures
            final(self).grips == old(self).grips,
            shape_wf(final(self)@),
            exists|moves: Seq<(Ray, i8, usize)>| final(self)@.pieces == moved_pieces(old(self)@, moves),
            puzzle_wf(old(self)@) ==> puzzle_wf(final(self)@),
    {
        let mut moves: Vec<(Ray, i8, usize)> = Vec::new();
        let mut i: usize = 0;
        while i < 1000
            invariant
                i <= 1000,
                self.grips@.len() > 0,
                forall|k: int| 0 <= k < moves@.len() ==> (#[trigger] moves@[k]).2 < self.grips@.len(),
            decreases 1000 - i,
        {
            let ray = Ray::choose_random();
            let n = ray.order();
            proof {
                Ray::lemma_turn_order(ray, ray);
            }
            let order = random_index(n as usize) as i8;
            let g = random_index(self.grips.len());
            moves.push((ray, order, g));
            i = i + 1;
        }
        self.apply_moves(moves.as_slice());
    }

    /// The index of the position that `piece` occupies when solved.
    pub fn piece_to_index_solved(&self, piece: &Piece<Ray>) -> (r: usize)
        requires
            grips_fit::<Ray>(self@.grips),
            self@.grips.no_duplicates(),
            piece_wf(piece@),
            forall|j: int| 0 <= j < Ray::heads().len() ==> self@.grips.contains(solved_grip_of(piece@, #[trigger] Ray::heads()[j])),
        ensures
            r == solved_index(self@.grips, piece@),
    {
        self.index_by_grips(piece, true)
    }

    /// The index of the position that `piece` now occupies.
    pub fn piece_to_index(&self, piece: &Piece<Ray>) -> (r: usize)
        requires
            grips_fit::<Ray>(self@.grips),
            self@.grips.no_duplicates(),
            piece_wf(piece@),
            forall|j: int| 0 <= j < Ray::heads().len() ==> self@.grips.contains(grip_of(piece@, #[trigger] Ray::heads()[j])),
        ensures
            r == position_index(self@.grips, piece@),
    {
        self.index_by_grips(piece, false)
    }

    /// The index of `piece`'s current position, or of its solved position
    /// when `solved` holds.
    fn index_by_grips(&self, piece: &Piece<Ray>, solved: bool) -> (r: usize)
        requires
            grips_fit::<Ray>(self@.grips),
            self@.grips.no_duplicates(),
            piece_wf(piece@),
            solved ==> forall|j: int|
                0 <= j < Ray::heads().len() ==> self@.grips.contains(solved_grip_of(piece@, #[trigger] Ray::heads()[j])),
            !solved ==> forall|j: int|
                0 <= j < Ray::heads().len() ==> self@.grips.contains(grip_of(piece@, #[trigger] Ray::heads()[j])),
        ensures
            solved ==> r == solved_index(self@.grips, piece@),
            !solved ==> r == position_index(self@.grips, piece@),
    {
        let heads = Ray::axis_heads();
        let n = heads.len();
        let g = self.grips.len();
        let ghost d = if solved {
            solved_digits(self@.grips, piece@)
        } else {
            position_digits(self@.grips, piece@)
        };
        proof {
            assert(digits_below(d, g as int)) by {
                assert forall|j: int| 0 <= j < d.len() implies 0 <= #[trigger] d[j] < g by {
                    let x = if solved {
                        solved_grip_of(piece@, Ray::heads()[j])
                    } else {
                        grip_of(piece@, Ray::heads()[j])
                    };
                    assert(self@.grips.contains(x));
                    let c = grip_position(self@.grips, x);
                    assert(0 <= c < self@.grips.len() && self@.grips[c] == x);
                }
            }
            assert(d.subrange(n as int, n as int) =~= Seq::<int>::empty());
            if n > 0 {
                assert(g > 0) by {
                    let x = if solved {
                        solved_grip_of(piece@, Ray::heads()[0])
                    } else {
                        grip_of(piece@, Ray::heads()[0])
                    };
                    assert(self@.grips.contains(x));
                }
            }
        }
        let mut acc: usize = 0;
        let mut j: usize = n;
        while j > 0
            invariant
                heads@ == Ray::heads(),
                n == heads@.len(),
                g == self@.grips.len(),
                d.len() == n,
                digits_below(d, g as int),
                n > 0 ==> g > 0,
                grips_fit::<Ray>(self@.grips),
                self@.grips.no_duplicates(),
                piece_wf(piece@),
                solved ==> d == solved_digits(self@.grips, piece@),
                !solved ==> d == position_digits(self@.grips, piece@),
                solved ==> forall|j: int|
                    0 <= j < Ray::heads().len() ==> self@.grips.contains(solved_grip_of(piece@, #[trigger] Ray::heads()[j])),
                !solved ==> forall|j: int|
                    0 <= j < Ray::heads().len() ==> self@.grips.contains(grip_of(piece@, #[trigger] Ray::heads()[j])),
                j <= n,
                acc == radix_value(d.subrange(j as int, n as int), g as int),
            decreases j,
        {
            let head = heads[j - 1];
            let grip = if solved {
                piece.grip_on_axis_solved(head)
            } else {
                piece.grip_on_axis(head)
            };
            let pos = match find_grip(&self.grips, grip.as_slice()) {
                Some(k) => k,
                None => {
                    proof {
                        assert(self@.grips.contains(grip@));
                        let c = choose|c: int| 0 <= c < self@.grips.len() && self@.grips[c] == grip@;
                        assert(self.grips@[c]@ == grip@);
                    }
                    0
                },
            };
            proof {
                lemma_grip_position(self@.grips, pos as int);
                assert(d[j - 1] == pos);
                let sub = d.subrange(j - 1, n as int);
                assert(sub.drop_first() =~= d.subrange(j as int, n as int));
                assert(digits_below(sub, g as int));
                lemma_radix_bound(sub, g as int);
                vstd::arithmetic::power::lemma_pow_increases(g as nat, sub.len(), n as nat);
                assert(radix_value(sub, g as int) == pos + g * acc);
                assert(acc * g + pos == pos + g * acc) by (nonlinear_arith);
            }
            acc = acc * g + pos;
            j = j - 1;
        }
        proof {
            assert(d.subrange(0, n as int) =~= d);
        }
        acc
    }

    /// For each position, the storage index of the piece that occupies it.
    pub fn permutation(&self) -> (r: Vec<usize>)
        requires
            puzzle_wf(self@),
        ensures
            r@.len() == self@.pieces.len(),
            is_permutation(r@),
            forall|i: int|
                0 <= i < self@.pieces.len() ==> r@[position_index(self@.grips, #[trigger] self@.pieces[i])] == i,
    {
        let count = self.piece_count();
        let ghost st = self@;
        let mut permutation: Vec<usize> = Vec::new();
        let mut k: usize = 0;
        while k < count
            invariant
                k <= count,
                permutation@.len() == k,
            decreases count - k,
        {
            permutation.push(0);
            k = k + 1;
        }
        proof {
            lemma_positions_distinct(st);
        }
        let mut i: usize = 0;
        while i < self.pieces.len()
            invariant
                st == self@,
                puzzle_wf(st),
                count == st.pieces.len(),
                permutation@.len() == count,
                i <= count,
                forall|i: int|
                    0 <= i < st.pieces.len() ==> 0 <= #[trigger] position_index(st.grips, st.pieces[i]) < st.pieces.len(),
                forall|i: int, j: int|
                    0 <= i < st.pieces.len() && 0 <= j < st.pieces.len() && #[trigger] position_index(st.grips, st.pieces[i])
                        == #[trigger] position_index(st.grips, st.pieces[j]) ==> i == j,
                forall|k: int| 0 <= k < i ==> permutation@[position_index(st.grips, #[trigger] st.pieces[k])] == k,
            decreases count - i,
        {
            proof {
                assert(st.pieces[i as int] == self.pieces@[i as int]@);
                assert(piece_wf(st.pieces[i as int]));
                assert forall|j: int| 0 <= j < Ray::heads().len() implies st.grips.contains(
                    grip_of(st.pieces[i as int], #[trigger] Ray::heads()[j]),
                ) by {
                    assert(st.grips.contains(grip_of(st.pieces[i as int], Ray::heads()[j])));
                }
            }
            let piece_index = self.piece_to_index(&self.pieces[i]);
            permutation.set(piece_index, i);
            proof {
                assert forall|k: int| 0 <= k < i + 1 implies permutation@[position_index(
                    st.grips,
                    #[trigger] st.pieces[k],
                )] == k by {
                    if k < i {
                        assert(position_index(st.grips, st.pieces[k]) != position_index(st.grips, st.pieces[i as int]));
                    }
                }
            }
            i = i + 1;
        }
        proof {
            let n = count as int;
            let f = |i: int| position_index(st.grips, st.pieces[i]);
            lemma_injective_onto(f, n);
            assert forall|s: int| 0 <= s < n implies #[trigger] permutation@[s] < n && f(permutation@[s] as int) == s by {
                assert(set_int_range(0, n).contains(s));
                assert(set_int_range(0, n).map(f).contains(s));
                let i = choose|i: int| set_int_range(0, n).contains(i) && f(i) == s;
                assert(permutation@[f(i)] == i);
            }
            assert forall|k1: int, k2: int|
                0 <= k1 < n && 0 <= k2 < n && k1 != k2 implies #[trigger] permutation@[k1] != #[trigger] permutation@[k2] by {
                assert(f(permutation@[k1] as int) == k1);
                assert(f(permutation@[k2] as int) == k2);
            }
        }
        permutation
    }
}

} // verus!
