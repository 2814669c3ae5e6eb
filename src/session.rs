//! A solving session: one puzzle, the twist history with undo and redo,
//! the orientations at the last scramble, and the session log.
use vstd::prelude::*;

use crate::piece::{
    copy_layers, grip_of, lemma_enumeration_all, lemma_twist_keeps_grip, piece_wf, turned_orientation, with_orientation,
    PieceState,
};
use crate::puzzle::{
    grips_valid, lemma_twist_keeps_wf, puzzle_wf, shape_wf, twist_each, twisted_pieces, Puzzle, PuzzleState,
};
use crate::ray::{euclid_rem, lemma_turned_n_add, lemma_turned_n_mod, turn_by, RaySystem};

verus! {

/// The version written into session logs.
pub const VERSION: &'static str = "0.1.0";

/// A twist as recorded in the history: the ray and order, and the grips
/// that were turned together.
pub type TwistRecord<Ray> = ((Ray, i8), Vec<Vec<i8>>);

/// Why an undo, redo or inverse could not be done.
#[derive(Debug, Clone, Copy, PartialEq, Eq, Structural)]
pub enum HistoryError {
    /// There is no twist to undo or invert.
    NoUndoAvailable,
    /// There is no undone twist to redo.
    NoRedoAvailable,
}

impl HistoryError {
    /// A message for the user.
    pub fn message(&self) -> (r: String) {
        match self {
            HistoryError::NoUndoAvailable => "No undo left".to_owned(),
            HistoryError::NoRedoAvailable => "No redo left".to_owned(),
        }
    }
}

/// Why a session log could not be replayed.
#[derive(Debug, Clone, Copy, PartialEq, Eq, Structural)]
pub enum LogError {
    /// An orientation in the scramble does not name one ray per direction.
    InvalidEnumLength,
    /// A ray name is unknown.
    InvalidRayName,
}

impl LogError {
    /// A message for the user.
    pub fn message(&self) -> (r: String) {
        match self {
            LogError::InvalidEnumLength => "Invalid enum length".to_owned(),
            LogError::InvalidRayName => "Invalid ray name".to_owned(),
        }
    }
}

/// A twist record as mathematical values.
pub open spec fn record_view<R>(t: TwistRecord<R>) -> ((R, i8), Seq<Seq<i8>>) {
    (t.0, t.1@.map_values(|g: Vec<i8>| g@))
}

/// A history stack as mathematical values, oldest first.
pub open spec fn stack_view<R>(v: Vec<TwistRecord<R>>) -> Seq<((R, i8), Seq<Seq<i8>>)> {
    v@.map_values(|t: TwistRecord<R>| record_view(t))
}

/// The pieces after twisting `ray`'s axis by `order` on each of `grips`
/// in turn.
pub open spec fn multi_twisted<R: RaySystem>(st: PuzzleState<R>, ray: R, order: int, grips: Seq<Seq<i8>>) -> Seq<
    PieceState<R>,
>
    decreases grips.len(),
{
    if grips.len() == 0 {
        st.pieces
    } else {
        twisted_pieces(
            PuzzleState { grips: st.grips, pieces: multi_twisted(st, ray, order, grips.drop_last()) },
            ray,
            order,
            grips.last(),
        )
    }
}

/// Permutation invariant, multi-grip twists: they keep the puzzle well
/// formed.
pub proof fn lemma_multi_keeps_wf<R: RaySystem>(st: PuzzleState<R>, ray: R, order: int, grips: Seq<Seq<i8>>)
    requires
        puzzle_wf(st),
    ensures
        puzzle_wf(PuzzleState { grips: st.grips, pieces: multi_twisted(st, ray, order, grips) }),
    decreases grips.len(),
{
    if grips.len() > 0 {
        lemma_multi_keeps_wf(st, ray, order, grips.drop_last());
        lemma_twist_keeps_wf(
            PuzzleState { grips: st.grips, pieces: multi_twisted(st, ray, order, grips.drop_last()) },
            ray,
            order,
            grips.last(),
        );
    }
}

/// The turn that undoes a turn by `order` steps: `-order`, reduced modulo
/// the turn order where `-order` does not fit in an `i8`.
pub fn inverse_order<R: RaySystem>(ray: R, order: i8) -> (r: i8)
    ensures
        (r as int) % (R::turn_order() as int) == (-(order as int)) % (R::turn_order() as int),
        order != i8::MIN ==> r == -order,
{
    if order != i8::MIN {
        -order
    } else {
        let n = ray.order();
        proof {
            R::lemma_turn_order(ray, ray);
        }
        let k = euclid_rem(order, n);
        proof {
            let q = (order as int) / (n as int);
            vstd::arithmetic::div_mod::lemma_fundamental_div_mod(order as int, n as int);
            assert(-(order as int) == (n as int) * (-q - 1) + (n - k)) by (nonlinear_arith)
                requires
                    order as int == (n as int) * q + k,
            ;
            vstd::arithmetic::div_mod::lemma_mod_multiples_vanish(-q - 1, (n - k) as int, n as int);
        }
        n - k
    }
}

/// A solving session over one puzzle.
pub struct Session<Ray> {
    /// The orientation of every piece at the last scramble or reset.
    pub scramble: Vec<Vec<Ray>>,
    /// The puzzle being solved.
    pub puzzle: Puzzle<Ray>,
    /// The twists applied since the last scramble, oldest first.
    pub twists: Vec<TwistRecord<Ray>>,
    /// The twists undone since the last twist, most recently undone last.
    pub undid_twists: Vec<TwistRecord<Ray>>,
    /// The version of the log the session was loaded from.
    pub version: String,
}

/// The session is well formed when its puzzle is.
pub open spec fn session_wf<R: RaySystem>(s: Session<R>) -> bool {
    shape_wf(s.puzzle@)
}

/// A copy of a list of grips.
pub fn copy_grips(grips: &Vec<Vec<i8>>) -> (r: Vec<Vec<i8>>)
    ensures
        r@.map_values(|g: Vec<i8>| g@) == grips@.map_values(|g: Vec<i8>| g@),
{
    let mut out: Vec<Vec<i8>> = Vec::new();
    let mut i: usize = 0;
    while i < grips.len()
        invariant
            i <= grips@.len(),
            out@.len() == i,
            forall|k: int| 0 <= k < i ==> (#[trigger] out@[k])@ == grips@[k]@,
        decreases grips@.len() - i,
    {
        out.push(copy_layers(grips[i].as_slice()));
        i = i + 1;
    }
    proof {
        assert(out@.map_values(|g: Vec<i8>| g@) =~= grips@.map_values(|g: Vec<i8>| g@));
    }
    out
}

impl<Ray: RaySystem> Session<Ray> {
    /// A new session over `puzzle`, whose current state becomes the
    /// scramble.
    pub fn from_concrete(puzzle: Puzzle<Ray>) -> (r: Self)
        requires
            shape_wf(puzzle@),
        ensures
            session_wf(r),
            r.puzzle == puzzle,
            r.scramble@.len() == puzzle@.pieces.len(),
            forall|i: int| 0 <= i < r.scramble@.len() ==> (#[trigger] r.scramble@[i])@ == puzzle@.pieces[i].orientation,
            r.twists@.len() == 0,
            r.undid_twists@.len() == 0,
            r.version@ == VERSION@,
    {
        Session {
            scramble: puzzle.orientations(),
            puzzle,
            twists: Vec::new(),
            undid_twists: Vec::new(),
            version: VERSION.to_owned(),
        }
    }

    /// Twists `tw.0`'s axis by `tw.1` on each of `grips` in turn.
    fn multi_layer_twist(&mut self, tw: (Ray, i8), grips: &Vec<Vec<i8>>)
        requires
            session_wf(*old(self)),
        ensures
            session_wf(*final(self)),
            final(self).puzzle.grips == old(self).puzzle.grips,
            final(self).puzzle@.pieces == multi_twisted(
                old(self).puzzle@,
                tw.0,
                tw.1 as int,
                grips@.map_values(|g: Vec<i8>| g@),
            ),
            final(self).scramble == old(self).scramble,
            final(self).twists == old(self).twists,
            final(self).undid_twists == old(self).undid_twists,
            final(self).version == old(self).version,
            puzzle_wf(old(self).puzzle@) ==> puzzle_wf(final(self).puzzle@),
    {
        proof {
            if puzzle_wf(self.puzzle@) {
                lemma_multi_keeps_wf(self.puzzle@, tw.0, tw.1 as int, grips@.map_values(|g: Vec<i8>| g@));
            }
        }
        let ghost start = self.puzzle@;
        let ghost gs = grips@.map_values(|g: Vec<i8>| g@);
        let mut i: usize = 0;
        while i < grips.len()
            invariant
                session_wf(*self),
                self.puzzle.grips == old(self).puzzle.grips,
                start == old(self).puzzle@,
                gs == grips@.map_values(|g: Vec<i8>| g@),
                i <= grips@.len(),
                self.puzzle@.pieces == multi_twisted(start, tw.0, tw.1 as int, gs.subrange(0, i as int)),
                self.scramble == old(self).scramble,
                self.twists == old(self).twists,
                self.undid_twists == old(self).undid_twists,
                self.version == old(self).version,
            decreases grips@.len() - i,
        {
            self.puzzle.twist(tw, grips[i].as_slice());
            proof {
                let sub = gs.subrange(0, i + 1);
                assert(sub.drop_last() =~= gs.subrange(0, i as int));
                assert(sub.last() == grips@[i as int]@);
                assert(self.puzzle@.grips == start.grips);
            }
            i = i + 1;
        }
        proof {
            assert(gs.subrange(0, grips@.len() as int) =~= gs);
        }
    }

    /// Twists `tw.0`'s axis by `tw.1` on each of `grips`, records the twist
    /// and forgets the undone twists.
    pub fn twist(&mut self, tw: (Ray, i8), grips: Vec<Vec<i8>>)
        requires
            session_wf(*old(self)),
        ensures
            session_wf(*final(self)),
            final(self).puzzle.grips == old(self).puzzle.grips,
            final(self).puzzle@.pieces == multi_twisted(
                old(self).puzzle@,
                tw.0,
                tw.1 as int,
                grips@.map_values(|g: Vec<i8>| g@),
            ),
            stack_view(final(self).twists) == stack_view(old(self).twists).push(
                (tw, grips@.map_values(|g: Vec<i8>| g@)),
            ),
            final(self).undid_twists@.len() == 0,
            final(self).scramble == old(self).scramble,
            final(self).version == old(self).version,
            puzzle_wf(old(self).puzzle@) ==> puzzle_wf(final(self).puzzle@),
    {
        self.multi_layer_twist(tw, &grips);
        self.twists.push((tw, grips));
        self.undid_twists = Vec::new();
        proof {
            assert(stack_view(self.twists) =~= stack_view(old(self).twists).push(
                (tw, self.twists@.last().1@.map_values(|g: Vec<i8>| g@)),
            ));
        }
    }

    /// Makes the current state the scramble and clears the history.
    fn scramble_from_concrete(&mut self)
        ensures
            final(self).puzzle == old(self).puzzle,
            final(self).scramble@.len() == old(self).puzzle@.pieces.len(),
            forall|i: int|
                0 <= i < final(self).scramble@.len() ==> (#[trigger] final(self).scramble@[i])@
                    == old(self).puzzle@.pieces[i].orientation,
            final(self).twists@.len() == 0,
            final(self).undid_twists@.len() == 0,
            final(self).version == old(self).version,
    {
        self.scramble = self.puzzle.orientations();
        self.twists = Vec::new();
        self.undid_twists = Vec::new();
    }

    /// Scrambles the puzzle, makes the result the scramble and clears the
    /// history.
    pub fn scramble(&mut self)
        requires
            session_wf(*old(self)),
            old(self).puzzle.grips@.len() > 0,
        ensures
            session_wf(*final(self)),
            final(self).puzzle.grips == old(self).puzzle.grips,
            final(self).scramble@.len() == final(self).puzzle@.pieces.len(),
            forall|i: int|
                0 <= i < final(self).scramble@.len() ==> (#[trigger] final(self).scramble@[i])@
                    == final(self).puzzle@.pieces[i].orientation,
            final(self).twists@.len() == 0,
            final(self).undid_twists@.len() == 0,
            puzzle_wf(old(self).puzzle@) ==> puzzle_wf(final(self).puzzle@),
    {
        self.puzzle.scramble();
        self.scramble_from_concrete();
    }

    /// Returns the puzzle to its solved state, makes that the scramble and
    /// clears the history.
    pub fn reset(&mut self)
        requires
            session_wf(*old(self)),
        ensures
            session_wf(*final(self)),
            final(self).puzzle@.grips == old(self).puzzle@.grips,
            final(self).puzzle@.pieces.len() == crate::puzzle::count_for::<Ray>(old(self).puzzle.grips@.len()),
            forall|i: int|
                0 <= i < final(self).puzzle@.pieces.len() ==> crate::puzzle::is_solved_piece_at(
                    final(self).puzzle@.grips,
                    #[trigger] final(self).puzzle@.pieces[i],
                    i,
                ),
            final(self).scramble@.len() == final(self).puzzle@.pieces.len(),
            forall|i: int|
                0 <= i < final(self).scramble@.len() ==> (#[trigger] final(self).scramble@[i])@
                    == final(self).puzzle@.pieces[i].orientation,
            final(self).twists@.len() == 0,
            final(self).undid_twists@.len() == 0,
            grips_valid::<Ray>(old(self).puzzle@.grips) ==> puzzle_wf(final(self).puzzle@),
    {
        let grips = copy_grips(&self.puzzle.grips);
        let new_puzzle = Puzzle::make_solved(grips);
        self.puzzle = new_puzzle;
        self.scramble_from_concrete();
    }

    /// Undoes the last twist and keeps it for a redo.
    pub fn undo(&mut self) -> (r: Result<(), HistoryError>)
        requires
            session_wf(*old(self)),
        ensures
            session_wf(*final(self)),
            final(self).puzzle.grips == old(self).puzzle.grips,
            final(self).scramble == old(self).scramble,
            puzzle_wf(old(self).puzzle@) ==> puzzle_wf(final(self).puzzle@),
            old(self).twists@.len() == 0 ==> r == Err::<(), HistoryError>(HistoryError::NoUndoAvailable)
                && *final(self) == *old(self),
            old(self).twists@.len() > 0 ==> r is Ok && {
                let last = stack_view(old(self).twists).last();
                &&& stack_view(final(self).twists) == stack_view(old(self).twists).drop_last()
                &&& stack_view(final(self).undid_twists) == stack_view(old(self).undid_twists).push(last)
                &&& final(self).puzzle@.pieces == multi_twisted(old(self).puzzle@, last.0.0, -last.0.1, last.1)
            },
    {
        if self.twists.len() == 0 {
            // no undo left
            return Err(HistoryError::NoUndoAvailable);
        }
        let ((ray, order), grips) = self.twists.pop().unwrap();
        let copy = copy_grips(&grips);
        self.undid_twists.push(((ray, order), grips));
        let inv = inverse_order(ray, order);
        self.multi_layer_twist((ray, inv), &copy);
        proof {
            assert(stack_view(self.twists) =~= stack_view(old(self).twists).drop_last());
            assert(stack_view(self.undid_twists) =~= stack_view(old(self).undid_twists).push(
                stack_view(old(self).twists).last(),
            ));
            lemma_multi_congruent(old(self).puzzle@, ray, inv as int, -(order as int), copy@.map_values(|g: Vec<i8>| g@));
        }
        Ok(())
    }

    /// Redoes the last undone twist.
    pub fn redo(&mut self) -> (r: Result<(), HistoryError>)
        requires
            session_wf(*old(self)),
        ensures
            session_wf(*final(self)),
            final(self).puzzle.grips == old(self).puzzle.grips,
            final(self).scramble == old(self).scramble,
            puzzle_wf(old(self).puzzle@) ==> puzzle_wf(final(self).puzzle@),
            old(self).undid_twists@.len() == 0 ==> r == Err::<(), HistoryError>(HistoryError::NoRedoAvailable)
                && *final(self) == *old(self),
            old(self).undid_twists@.len() > 0 ==> r is Ok && {
                let last = stack_view(old(self).undid_twists).last();
                &&& stack_view(final(self).undid_twists) == stack_view(old(self).undid_twists).drop_last()
                &&& stack_view(final(self).twists) == stack_view(old(self).twists).push(last)
                &&& final(self).puzzle@.pieces == multi_twisted(old(self).puzzle@, last.0.0, last.0.1 as int, last.1)
            },
    {
        if self.undid_twists.len() == 0 {
            // no redo left
            return Err(HistoryError::NoRedoAvailable);
        }
        let ((ray, order), grips) = self.undid_twists.pop().unwrap();
        let copy = copy_grips(&grips);
        self.twists.push(((ray, order), grips));
        self.multi_layer_twist((ray, order), &copy);
        proof {
            assert(stack_view(self.undid_twists) =~= stack_view(old(self).undid_twists).drop_last());
            assert(stack_view(self.twists) =~= stack_view(old(self).twists).push(
                stack_view(old(self).undid_twists).last(),
            ));
        }
        Ok(())
    }

    /// Replaces the last twist by its inverse, in the history and on the
    /// puzzle, and forgets the undone twists.
    pub fn do_inverse(&mut self) -> (r: Result<(), HistoryError>)
        requires
            session_wf(*old(self)),
        ensures
            session_wf(*final(self)),
            final(self).puzzle.grips == old(self).puzzle.grips,
            final(self).scramble == old(self).scramble,
            puzzle_wf(old(self).puzzle@) ==> puzzle_wf(final(self).puzzle@),
            old(self).twists@.len() == 0 ==> r == Err::<(), HistoryError>(HistoryError::NoUndoAvailable)
                && *final(self) == *old(self),
            old(self).twists@.len() > 0 ==> r is Ok && {
                let last = stack_view(old(self).twists).last();
                let inv = stack_view(final(self).twists).last().0.1;
                &&& stack_view(final(self).twists).drop_last() == stack_view(old(self).twists).drop_last()
                &&& stack_view(final(self).twists).len() == stack_view(old(self).twists).len()
                &&& stack_view(final(self).twists).last().0.0 == last.0.0
                &&& stack_view(final(self).twists).last().1 == last.1
                &&& (inv as int) % (Ray::turn_order() as int) == (-last.0.1) % (Ray::turn_order() as int)
                &&& last.0.1 != i8::MIN ==> inv == -last.0.1
                &&& final(self).undid_twists@.len() == 0
                &&& final(self).puzzle@.pieces == multi_twisted(
                    PuzzleState {
                        grips: old(self).puzzle@.grips,
                        pieces: multi_twisted(old(self).puzzle@, last.0.0, -last.0.1, last.1),
                    },
                    last.0.0,
                    -last.0.1,
                    last.1,
                )
            },
    {
        if self.twists.len() == 0 {
            // no undo left
            return Err(HistoryError::NoUndoAvailable);
        }
        let ((ray, order), grips) = self.twists.pop().unwrap();
        let copy = copy_grips(&grips);
        let inv = inverse_order(ray, order);
        self.twists.push(((ray, inv), grips));
        self.undid_twists = Vec::new();
        let ghost mid_start = self.puzzle@;
        self.multi_layer_twist((ray, inv), &copy);
        let ghost mid = self.puzzle@;
        // do it again
        self.multi_layer_twist((ray, inv), &copy);
        proof {
            let gs = copy@.map_values(|g: Vec<i8>| g@);
            assert(stack_view(self.twists).drop_last() =~= stack_view(old(self).twists).drop_last());
            lemma_multi_congruent(mid_start, ray, inv as int, -(order as int), gs);
            lemma_multi_congruent(mid, ray, inv as int, -(order as int), gs);
            assert(mid.grips == old(self).puzzle@.grips);
        }
        Ok(())
    }
}

/// Two orders that agree modulo the turn order give the same multi-grip
/// twist.
proof fn lemma_multi_congruent<R: RaySystem>(st: PuzzleState<R>, ray: R, a: int, b: int, grips: Seq<Seq<i8>>)
    requires
        a % (R::turn_order() as int) == b % (R::turn_order() as int),
    ensures
        multi_twisted(st, ray, a, grips) == multi_twisted(st, ray, b, grips),
    decreases grips.len(),
{
    if grips.len() > 0 {
        lemma_multi_congruent(st, ray, a, b, grips.drop_last());
        let inner = PuzzleState { grips: st.grips, pieces: multi_twisted(st, ray, a, grips.drop_last()) };
        crate::puzzle::lemma_congruent_twisted_pieces(inner, ray, a, b, grips.last());
    }
}

/// The puzzle families that a session can hold, with their size.
#[derive(Debug, Clone, Copy, PartialEq, Eq, Structural)]
pub enum CubePuzzle {
    /// The N×N×N cube.
    Nnn(i8),
}

/// The octahedral puzzle families.
#[derive(Debug, Clone, Copy, PartialEq, Eq, Structural)]
pub enum OctaPuzzle {
    /// The face-turning octahedron of the given order.
    Fto(i8),
}

/// The kind of puzzle a session is about.
#[derive(Debug, Clone, Copy, PartialEq, Eq, Structural)]
pub enum SessionType {
    Cube(CubePuzzle),
    Octa(OctaPuzzle),
}

/// A saved session: ray names instead of rays, so that the log survives
/// changes to the order of the rays.
pub struct SessionLog {
    pub version: String,
    pub session_type: SessionType,
    /// For each piece, the names of the rays occupying each direction.
    pub scramble: Vec<Vec<String>>,
    /// The twists since the scramble, with ray names.
    pub twists: Vec<((String, i8), Vec<Vec<i8>>)>,
}

/// Whether some ray is called `name`.
pub open spec fn is_ray_name<R: RaySystem>(name: Seq<char>) -> bool {
    exists|ray: R| ray.ray_name() == name
}

/// What is wrong with one list of ray names read as an orientation.
pub open spec fn orientation_error<R: RaySystem>(names: Seq<Seq<char>>) -> Option<LogError> {
    if names.len() != R::ray_count() {
        Some(LogError::InvalidEnumLength)
    } else if exists|i: int| 0 <= i < names.len() && !is_ray_name::<R>(#[trigger] names[i]) {
        Some(LogError::InvalidRayName)
    } else {
        None
    }
}

/// The first thing wrong with a scramble, piece by piece.
pub open spec fn scramble_error<R: RaySystem>(oris: Seq<Seq<Seq<char>>>) -> Option<LogError>
    decreases oris.len(),
{
    if oris.len() == 0 {
        None
    } else if orientation_error::<R>(oris[0]) is Some {
        orientation_error::<R>(oris[0])
    } else {
        scramble_error::<R>(oris.drop_first())
    }
}

/// The names in a list of strings.
pub open spec fn names_view(v: Vec<String>) -> Seq<Seq<char>> {
    v@.map_values(|s: String| s@)
}

/// The names in a scramble.
pub open spec fn scramble_view(v: Vec<Vec<String>>) -> Seq<Seq<Seq<char>>> {
    v@.map_values(|o: Vec<String>| names_view(o))
}

/// When the first `i` orientations are fine, the first error is further on.
proof fn lemma_scramble_error_skip<R: RaySystem>(oris: Seq<Seq<Seq<char>>>, i: int)
    requires
        0 <= i <= oris.len(),
        forall|k: int| 0 <= k < i ==> orientation_error::<R>(#[trigger] oris[k]) is None,
    ensures
        scramble_error::<R>(oris) == scramble_error::<R>(oris.subrange(i, oris.len() as int)),
    decreases i,
{
    if i > 0 {
        assert(orientation_error::<R>(oris[0]) is None);
        let rest = oris.drop_first();
        assert forall|k: int| 0 <= k < i - 1 implies orientation_error::<R>(#[trigger] rest[k]) is None by {
            assert(rest[k] == oris[k + 1]);
        }
        lemma_scramble_error_skip::<R>(rest, i - 1);
        assert(rest.subrange(i - 1, rest.len() as int) =~= oris.subrange(i, oris.len() as int));
    } else {
        assert(oris.subrange(0, oris.len() as int) =~= oris);
    }
}

/// Reads one list of ray names as an orientation: one ray per direction,
/// in enumeration order.
pub fn string_vec_to_enum_map<R: RaySystem>(strs: &Vec<String>) -> (r: Result<Vec<R>, LogError>)
    ensures
        orientation_error::<R>(names_view(*strs)) matches Some(e) ==> r == Err::<Vec<R>, LogError>(e),
        orientation_error::<R>(names_view(*strs)) is None ==> (r matches Ok(v) && v@.len() == strs@.len() && (
        forall|i: int| 0 <= i < v@.len() ==> (#[trigger] v@[i]).ray_name() == strs@[i]@)),
{
    let n = R::length();
    if strs.len() != n {
        return Err(LogError::InvalidEnumLength);
    }
    let mut rays: Vec<R> = Vec::new();
    let mut i: usize = 0;
    while i < strs.len()
        invariant
            n == R::ray_count(),
            strs@.len() == n,
            i <= n,
            rays@.len() == i,
            forall|k: int| 0 <= k < i ==> (#[trigger] rays@[k]).ray_name() == strs@[k]@,
        decreases n - i,
    {
        match R::from_name(strs[i].as_str()) {
            Some(ray) => {
                rays.push(ray);
            },
            None => {
                proof {
                    assert(!is_ray_name::<R>(names_view(*strs)[i as int]));
                }
                return Err(LogError::InvalidRayName);
            },
        }
        i = i + 1;
    }
    proof {
        assert forall|k: int| 0 <= k < names_view(*strs).len() implies is_ray_name::<R>(#[trigger] names_view(*strs)[k]) by {
            assert(rays@[k].ray_name() == strs@[k]@);
        }
    }
    Ok(rays)
}

/// Reads a whole scramble, stopping at the first bad orientation.
pub fn strings_to_scramble<R: RaySystem>(oris: &Vec<Vec<String>>) -> (r: Result<Vec<Vec<R>>, LogError>)
    ensures
        scramble_error::<R>(scramble_view(*oris)) matches Some(e) ==> r == Err::<Vec<Vec<R>>, LogError>(e),
        scramble_error::<R>(scramble_view(*oris)) is None ==> (r matches Ok(v) && v@.len() == oris@.len() && (
        forall|i: int|
            0 <= i < v@.len() ==> (#[trigger] v@[i])@.len() == R::ray_count() && (forall|k: int|
                0 <= k < R::ray_count() ==> (#[trigger] v@[i]@[k]).ray_name() == oris@[i]@[k]@))),
{
    let ghost sv = scramble_view(*oris);
    let mut out: Vec<Vec<R>> = Vec::new();
    let mut i: usize = 0;
    while i < oris.len()
        invariant
            sv == scramble_view(*oris),
            i <= oris@.len(),
            out@.len() == i,
            forall|k: int| 0 <= k < i ==> orientation_error::<R>(#[trigger] sv[k]) is None,
            forall|j: int|
                0 <= j < i ==> (#[trigger] out@[j])@.len() == R::ray_count() && (forall|k: int|
                    0 <= k < R::ray_count() ==> (#[trigger] out@[j]@[k]).ray_name() == oris@[j]@[k]@),
        decreases oris@.len() - i,
    {
        proof {
            assert(sv[i as int] == names_view(oris@[i as int]));
        }
        match string_vec_to_enum_map::<R>(&oris[i]) {
            Ok(rays) => {
                out.push(rays);
            },
            Err(e) => {
                proof {
                    lemma_scramble_error_skip::<R>(sv, i as int);
                    assert(sv.subrange(i as int, sv.len() as int)[0] == sv[i as int]);
                }
                return Err(e);
            },
        }
        i = i + 1;
    }
    proof {
        lemma_scramble_error_skip::<R>(sv, i as int);
    }
    Ok(out)
}

/// `pieces` with the orientations of `oris` put in, in storage order.
pub open spec fn with_orientations<R>(pieces: Seq<PieceState<R>>, oris: Seq<Seq<R>>) -> Seq<PieceState<R>> {
    Seq::new(
        pieces.len(),
        |i: int|
            if i < oris.len() {
                with_orientation(pieces[i], oris[i])
            } else {
                pieces[i]
            },
    )
}

/// The pieces after replaying the twist records of `stack` in turn.
pub open spec fn replayed<R: RaySystem>(st: PuzzleState<R>, stack: Seq<((R, i8), Seq<Seq<i8>>)>) -> Seq<PieceState<R>>
    decreases stack.len(),
{
    if stack.len() == 0 {
        st.pieces
    } else {
        let t = stack.last();
        multi_twisted(PuzzleState { grips: st.grips, pieces: replayed(st, stack.drop_last()) }, t.0.0, t.0.1 as int, t.1)
    }
}

/// A logged twist names the ray of a recorded twist, with the same order
/// and grips.
pub open spec fn matches_logged<R>(t: ((R, i8), Seq<Seq<i8>>), logged: ((String, i8), Vec<Vec<i8>>)) -> bool
    where R: RaySystem
{
    &&& t.0.0.ray_name() == logged.0.0@
    &&& t.0.1 == logged.0.1
    &&& t.1 == logged.1@.map_values(|g: Vec<i8>| g@)
}

impl<Ray: RaySystem> Session<Ray> {
    /// Sets the scramble from ray names and puts it on the puzzle.
    fn set_orientations(&mut self, oris: Vec<Vec<String>>) -> (r: Result<(), LogError>)
        requires
            session_wf(*old(self)),
        ensures
            session_wf(*final(self)),
            final(self).puzzle.grips == old(self).puzzle.grips,
            final(self).twists == old(self).twists,
            final(self).undid_twists == old(self).undid_twists,
            final(self).version == old(self).version,
            scramble_error::<Ray>(scramble_view(oris)) matches Some(e) ==> r == Err::<(), LogError>(e) && *final(self)
                == *old(self),
            scramble_error::<Ray>(scramble_view(oris)) is None ==> r is Ok && final(self).scramble@.len()
                == oris@.len() && (forall|i: int|
                0 <= i < oris@.len() ==> (#[trigger] final(self).scramble@[i])@.len() == Ray::ray_count() && (
                forall|k: int|
                    0 <= k < Ray::ray_count() ==> (#[trigger] final(self).scramble@[i]@[k]).ray_name()
                        == oris@[i]@[k]@)) && final(self).puzzle@.pieces == with_orientations(
                old(self).puzzle@.pieces,
                final(self).scramble@.map_values(|o: Vec<Ray>| o@),
            ),
    {
        match strings_to_scramble::<Ray>(&oris) {
            Ok(scramble) => {
                self.scramble = scramble;
                self.apply_scramble();
                Ok(())
            },
            Err(e) => Err(e),
        }
    }

    /// Puts the scramble's orientations on the puzzle.
    fn apply_scramble(&mut self)
        requires
            session_wf(*old(self)),
            forall|i: int| 0 <= i < old(self).scramble@.len() ==> (#[trigger] old(self).scramble@[i])@.len() == Ray::ray_count(),
        ensures
            session_wf(*final(self)),
            final(self).puzzle.grips == old(self).puzzle.grips,
            final(self).scramble == old(self).scramble,
            final(self).twists == old(self).twists,
            final(self).undid_twists == old(self).undid_twists,
            final(self).version == old(self).version,
            final(self).puzzle@.pieces == with_orientations(
                old(self).puzzle@.pieces,
                old(self).scramble@.map_values(|o: Vec<Ray>| o@),
            ),
    {
        let ghost before = self.puzzle@.pieces;
        self.puzzle.set_orientations(self.scramble.as_slice());
        proof {
            assert(self.puzzle@.pieces =~= with_orientations(before, self.scramble@.map_values(|o: Vec<Ray>| o@)));
        }
    }

    /// The scramble and the twists, with ray names in place of rays.
    pub fn extract_log(&self) -> (r: (Vec<Vec<String>>, Vec<((String, i8), Vec<Vec<i8>>)>))
        ensures
            r.0@.len() == self.scramble@.len(),
            forall|i: int|
                0 <= i < r.0@.len() ==> (#[trigger] r.0@[i])@.len() == self.scramble@[i]@.len() && (forall|k: int|
                    0 <= k < r.0@[i]@.len() ==> (#[trigger] r.0@[i]@[k])@ == self.scramble@[i]@[k].ray_name()),
            r.1@.len() == self.twists@.len(),
            forall|i: int| 0 <= i < r.1@.len() ==> matches_logged(#[trigger] stack_view(self.twists)[i], r.1@[i]),
    {
        let mut scramble_str: Vec<Vec<String>> = Vec::new();
        let mut i: usize = 0;
        while i < self.scramble.len()
            invariant
                i <= self.scramble@.len(),
                scramble_str@.len() == i,
                forall|j: int|
                    0 <= j < i ==> (#[trigger] scramble_str@[j])@.len() == self.scramble@[j]@.len() && (forall|k: int|
                        0 <= k < scramble_str@[j]@.len() ==> (#[trigger] scramble_str@[j]@[k])@
                            == self.scramble@[j]@[k].ray_name()),
            decreases self.scramble@.len() - i,
        {
            let ori = &self.scramble[i];
            let mut names: Vec<String> = Vec::new();
            let mut k: usize = 0;
            while k < ori.len()
                invariant
                    k <= ori@.len(),
                    names@.len() == k,
                    forall|m: int| 0 <= m < k ==> (#[trigger] names@[m])@ == ori@[m].ray_name(),
                decreases ori@.len() - k,
            {
                names.push(ori[k].name());
                k = k + 1;
            }
            scramble_str.push(names);
            i = i + 1;
        }
        let mut twists_str: Vec<((String, i8), Vec<Vec<i8>>)> = Vec::new();
        let mut j: usize = 0;
        while j < self.twists.len()
            invariant
                j <= self.twists@.len(),
                twists_str@.len() == j,
                forall|m: int| 0 <= m < j ==> matches_logged(#[trigger] stack_view(self.twists)[m], twists_str@[m]),
            decreases self.twists@.len() - j,
        {
            let ((ray, order), grips) = &self.twists[j];
            twists_str.push(((ray.name(), *order), copy_grips(grips)));
            j = j + 1;
        }
        (scramble_str, twists_str)
    }

    /// Replays a session log: takes its version, sets the scramble from its
    /// ray names and applies its twists in turn. Stops at the first
    /// invalid orientation or unknown ray name.
    pub fn process_log(&mut self, log: SessionLog) -> (r: Result<(), LogError>)
        requires
            session_wf(*old(self)),
        ensures
            session_wf(*final(self)),
            final(self).puzzle.grips == old(self).puzzle.grips,
            final(self).version@ == log.version@,
            scramble_error::<Ray>(scramble_view(log.scramble)) matches Some(e) ==> r == Err::<(), LogError>(e)
                && final(self).puzzle == old(self).puzzle && final(self).scramble == old(self).scramble
                && final(self).twists == old(self).twists,
            scramble_error::<Ray>(scramble_view(log.scramble)) is None ==> {
                &&& (r is Ok <==> forall|i: int|
                    0 <= i < log.twists@.len() ==> is_ray_name::<Ray>((#[trigger] log.twists@[i]).0.0@))
                &&& r is Err ==> r == Err::<(), LogError>(LogError::InvalidRayName)
                &&& r is Ok ==> {
                    let n = old(self).twists@.len();
                    let stack = stack_view(final(self).twists);
                    &&& stack.len() == n + log.twists@.len()
                    &&& stack.subrange(0, n as int) == stack_view(old(self).twists)
                    &&& forall|i: int|
                        0 <= i < log.twists@.len() ==> matches_logged(#[trigger] stack[n + i], log.twists@[i])
                    &&& final(self).puzzle@.pieces == replayed(
                        PuzzleState {
                            grips: old(self).puzzle@.grips,
                            pieces: with_orientations(
                                old(self).puzzle@.pieces,
                                final(self).scramble@.map_values(|o: Vec<Ray>| o@),
                            ),
                        },
                        stack.subrange(n as int, stack.len() as int),
                    )
                }
            },
    {
        self.version = log.version;
        match self.set_orientations(log.scramble) {
            Ok(()) => {},
            Err(e) => {
                return Err(e);
            },
        }
        let ghost n = self.twists@.len();
        let ghost base = PuzzleState { grips: self.puzzle@.grips, pieces: self.puzzle@.pieces };
        let ghost start_stack = stack_view(self.twists);
        let ghost scr = self.scramble;
        let mut i: usize = 0;
        proof {
            assert(stack_view(self.twists).subrange(n as int, n as int) =~= Seq::<((Ray, i8), Seq<Seq<i8>>)>::empty());
            assert(stack_view(self.twists).subrange(0, n as int) =~= start_stack);
        }
        while i < log.twists.len()
            invariant
                session_wf(*self),
                self.puzzle.grips == old(self).puzzle.grips,
                base.grips == old(self).puzzle@.grips,
                base.pieces == with_orientations(old(self).puzzle@.pieces, scr@.map_values(|o: Vec<Ray>| o@)),
                self.scramble == scr,
                scramble_error::<Ray>(scramble_view(log.scramble)) is None,
                self.version@ == log.version@,
                i <= log.twists@.len(),
                forall|k: int| 0 <= k < i ==> is_ray_name::<Ray>((#[trigger] log.twists@[k]).0.0@),
                stack_view(self.twists).len() == n + i,
                stack_view(self.twists).subrange(0, n as int) == start_stack,
                forall|k: int| 0 <= k < i ==> matches_logged(#[trigger] stack_view(self.twists)[n + k], log.twists@[k]),
                self.puzzle@.pieces == replayed(base, stack_view(self.twists).subrange(n as int, n + i)),
            decreases log.twists@.len() - i,
        {
            let ((name, order), grips) = &log.twists[i];
            let ray = match Ray::from_name(name.as_str()) {
                Some(ray) => ray,
                None => {
                    proof {
                        assert(!is_ray_name::<Ray>(log.twists@[i as int].0.0@));
                    }
                    return Err(LogError::InvalidRayName);
                },
            };
            let ghost before = stack_view(self.twists);
            let copy = copy_grips(grips);
            self.twist((ray, *order), copy);
            proof {
                let after = stack_view(self.twists);
                assert(after == before.push(((ray, *order), grips@.map_values(|g: Vec<i8>| g@))));
                assert(after.subrange(0, n as int) =~= before.subrange(0, n as int));
                assert forall|k: int| 0 <= k < i + 1 implies matches_logged(#[trigger] after[n + k], log.twists@[k]) by {
                    if k < i {
                        assert(after[n + k] == before[n + k]);
                    }
                }
                let sub = after.subrange(n as int, n + i + 1);
                assert(sub.drop_last() =~= before.subrange(n as int, n + i));
                assert(sub.last() == after[n + i]);
            }
            i = i + 1;
        }
        proof {
            let stack = stack_view(self.twists);
            assert(stack.subrange(n as int, stack.len() as int) =~= stack.subrange(n as int, n + i));
        }
        Ok(())
    }
}

/// `p` turned about `a`'s axis by `amount` steps, whatever grip it lies in.
pub open spec fn turned_piece<R: RaySystem>(p: PieceState<R>, a: R, amount: int) -> PieceState<R> {
    with_orientation(p, turned_orientation(p.orientation, a, amount))
}

/// The steps by which twists of `a`'s axis by `k` on each of `gs` turn a
/// piece lying in grip `x` on that axis.
pub open spec fn each_amount(k: int, gs: Seq<Seq<i8>>, x: Seq<i8>) -> int
    decreases gs.len(),
{
    if gs.len() == 0 {
        0
    } else {
        each_amount(k, gs.drop_last(), x) + (if gs.last() == x {
            k
        } else {
            0
        })
    }
}

/// The steps by which `Puzzle::twist` by `k` on grip `g` turns a piece
/// lying in grip `x` on the twisted axis.
pub open spec fn twist_amount(grips: Seq<Seq<i8>>, k: int, g: Seq<i8>, x: Seq<i8>) -> int {
    if grips.len() > 0 && g == grips[0] {
        each_amount(-k, grips.drop_first(), x)
    } else if g == x {
        k
    } else {
        0
    }
}

/// The steps by which a multi-grip twist by `k` on `gs` turns a piece
/// lying in grip `x` on the twisted axis.
pub open spec fn multi_amount(grips: Seq<Seq<i8>>, k: int, gs: Seq<Seq<i8>>, x: Seq<i8>) -> int
    decreases gs.len(),
{
    if gs.len() == 0 {
        0
    } else {
        multi_amount(grips, k, gs.drop_last(), x) + twist_amount(grips, k, gs.last(), x)
    }
}

/// Turning by `x` steps and then by `y` steps is turning by `x + y` steps;
/// turning by no steps changes nothing.
proof fn lemma_turned_compose<R: RaySystem>(p: PieceState<R>, a: R, x: int, y: int)
    requires
        piece_wf(p),
    ensures
        turned_piece(turned_piece(p, a, x), a, y) == turned_piece(p, a, x + y),
        turned_piece(p, a, 0) == p,
        piece_wf(turned_piece(p, a, x)),
        grip_of(turned_piece(p, a, x), a) == grip_of(p, a),
{
    let n = R::turn_order() as int;
    R::lemma_turn_order(a, a);
    lemma_enumeration_all::<R>();
    lemma_twist_keeps_grip(p, a, x, grip_of(p, a));
    let o = p.orientation;
    let lhs = turned_piece(turned_piece(p, a, x), a, y).orientation;
    let rhs = turned_piece(p, a, x + y).orientation;
    assert forall|i: int| 0 <= i < o.len() implies #[trigger] lhs[i] == rhs[i] by {
        let r = R::ray_at(i as nat);
        let t = turn_by(r, a, y);
        assert(R::ray_at(t.ray_index()) == t);
        lemma_turned_n_add(r, a, (y % n) as nat, (x % n) as nat);
        lemma_turned_n_mod(r, a, ((y % n) + (x % n)) as nat);
        vstd::arithmetic::div_mod::lemma_add_mod_noop(y, x, n);
        assert(turn_by(t, a, x) == turn_by(r, a, x + y));
    }
    assert(lhs =~= rhs);
    let zero = turned_piece(p, a, 0).orientation;
    assert forall|i: int| 0 <= i < o.len() implies #[trigger] zero[i] == o[i] by {
        let r = R::ray_at(i as nat);
        R::lemma_turned_n(r, a, 0);
        assert(0int % n == 0);
    }
    assert(zero =~= o);
}

/// Twists on a list of grips of one axis turn each piece by an amount that
/// depends only on the grip it lies in on that axis.
proof fn lemma_twist_each_amounts<R: RaySystem>(pieces: Seq<PieceState<R>>, a: R, k: int, gs: Seq<Seq<i8>>)
    requires
        forall|i: int| 0 <= i < pieces.len() ==> piece_wf(#[trigger] pieces[i]),
    ensures
        twist_each(pieces, a, k, gs).len() == pieces.len(),
        forall|i: int|
            0 <= i < pieces.len() ==> #[trigger] twist_each(pieces, a, k, gs)[i] == turned_piece(
                pieces[i],
                a,
                each_amount(k, gs, grip_of(pieces[i], a)),
            ),
    decreases gs.len(),
{
    if gs.len() == 0 {
        assert forall|i: int| 0 <= i < pieces.len() implies #[trigger] twist_each(pieces, a, k, gs)[i] == turned_piece(
            pieces[i],
            a,
            each_amount(k, gs, grip_of(pieces[i], a)),
        ) by {
            lemma_turned_compose(pieces[i], a, 0, 0);
        }
    } else {
        lemma_twist_each_amounts(pieces, a, k, gs.drop_last());
        let mid = twist_each(pieces, a, k, gs.drop_last());
        assert forall|i: int| 0 <= i < pieces.len() implies #[trigger] twist_each(pieces, a, k, gs)[i] == turned_piece(
            pieces[i],
            a,
            each_amount(k, gs, grip_of(pieces[i], a)),
        ) by {
            let p = pieces[i];
            let x = grip_of(p, a);
            let e = each_amount(k, gs.drop_last(), x);
            assert(mid[i] == turned_piece(p, a, e));
            lemma_turned_compose(p, a, e, k);
            lemma_turned_compose(p, a, e, 0);
            lemma_turned_compose(turned_piece(p, a, e), a, 0, 0);
        }
    }
}

/// A multi-grip twist turns each piece by `multi_amount` of its grip.
proof fn lemma_multi_amounts<R: RaySystem>(st: PuzzleState<R>, a: R, k: int, gs: Seq<Seq<i8>>)
    requires
        forall|i: int| 0 <= i < st.pieces.len() ==> piece_wf(#[trigger] st.pieces[i]),
    ensures
        multi_twisted(st, a, k, gs).len() == st.pieces.len(),
        forall|i: int|
            0 <= i < st.pieces.len() ==> #[trigger] multi_twisted(st, a, k, gs)[i] == turned_piece(
                st.pieces[i],
                a,
                multi_amount(st.grips, k, gs, grip_of(st.pieces[i], a)),
            ),
    decreases gs.len(),
{
    if gs.len() == 0 {
        assert forall|i: int| 0 <= i < st.pieces.len() implies #[trigger] multi_twisted(st, a, k, gs)[i] == turned_piece(
            st.pieces[i],
            a,
            multi_amount(st.grips, k, gs, grip_of(st.pieces[i], a)),
        ) by {
            lemma_turned_compose(st.pieces[i], a, 0, 0);
        }
    } else {
        lemma_multi_amounts(st, a, k, gs.drop_last());
        let mid = multi_twisted(st, a, k, gs.drop_last());
        let inner = PuzzleState { grips: st.grips, pieces: mid };
        let g = gs.last();
        assert forall|i: int| 0 <= i < mid.len() implies piece_wf(#[trigger] mid[i]) by {
            lemma_turned_compose(st.pieces[i], a, multi_amount(st.grips, k, gs.drop_last(), grip_of(st.pieces[i], a)), 0);
        }
        if st.grips.len() > 0 && g == st.grips[0] {
            lemma_twist_each_amounts(mid, a, -k, st.grips.drop_first());
        }
        assert forall|i: int| 0 <= i < st.pieces.len() implies #[trigger] multi_twisted(st, a, k, gs)[i] == turned_piece(
            st.pieces[i],
            a,
            multi_amount(st.grips, k, gs, grip_of(st.pieces[i], a)),
        ) by {
            let p = st.pieces[i];
            let x = grip_of(p, a);
            let m = multi_amount(st.grips, k, gs.drop_last(), x);
            let t = twist_amount(st.grips, k, g, x);
            assert(mid[i] == turned_piece(p, a, m));
            lemma_turned_compose(p, a, m, t);
            lemma_turned_compose(p, a, m, 0);
            lemma_turned_compose(turned_piece(p, a, m), a, 0, 0);
            assert(grip_of(mid[i], a) == x);
            assert(twisted_pieces(inner, a, k, g)[i] == turned_piece(mid[i], a, t));
        }
    }
}

/// The amounts on a list of grips are linear in the order.
proof fn lemma_each_amount_negate(k: int, gs: Seq<Seq<i8>>, x: Seq<i8>)
    ensures
        each_amount(-k, gs, x) == -each_amount(k, gs, x),
    decreases gs.len(),
{
    if gs.len() > 0 {
        lemma_each_amount_negate(k, gs.drop_last(), x);
    }
}

/// The amounts of a multi-grip twist are linear in the order.
proof fn lemma_amounts_negate(grips: Seq<Seq<i8>>, k: int, gs: Seq<Seq<i8>>, x: Seq<i8>)
    ensures
        multi_amount(grips, -k, gs, x) == -multi_amount(grips, k, gs, x),
    decreases gs.len(),
{
    if gs.len() > 0 {
        lemma_amounts_negate(grips, k, gs.drop_last(), x);
        if grips.len() > 0 {
            lemma_each_amount_negate(-k, grips.drop_first(), x);
            assert(-(-k) == k);
        }
    }
}

/// Undo round trip: a multi-grip twist by `k` followed by the same twist
/// by `-k` (what `Session::undo` applies after `Session::twist`) restores
/// every piece exactly; with `-k` in place of `k` this is redo after undo.
pub proof fn lemma_twist_undo_round_trip<R: RaySystem>(st: PuzzleState<R>, a: R, k: int, gs: Seq<Seq<i8>>)
    requires
        shape_wf(st),
    ensures
        multi_twisted(PuzzleState { grips: st.grips, pieces: multi_twisted(st, a, k, gs) }, a, -k, gs) == st.pieces,
{
    let mid = multi_twisted(st, a, k, gs);
    let inner = PuzzleState { grips: st.grips, pieces: mid };
    lemma_multi_amounts(st, a, k, gs);
    assert forall|i: int| 0 <= i < mid.len() implies piece_wf(#[trigger] mid[i]) by {
        lemma_turned_compose(st.pieces[i], a, multi_amount(st.grips, k, gs, grip_of(st.pieces[i], a)), 0);
    }
    lemma_multi_amounts(inner, a, -k, gs);
    let back = multi_twisted(inner, a, -k, gs);
    assert forall|i: int| 0 <= i < st.pieces.len() implies #[trigger] back[i] == st.pieces[i] by {
        let p = st.pieces[i];
        let x = grip_of(p, a);
        let m = multi_amount(st.grips, k, gs, x);
        lemma_turned_compose(p, a, m, -m);
        lemma_amounts_negate(st.grips, k, gs, x);
        assert(grip_of(mid[i], a) == x);
    }
    assert(back =~= st.pieces);
}

/// Inverse in place: after a multi-grip twist by `k`, applying the twist
/// by `-k` twice (what `Session::do_inverse` does) leaves the pieces as if
/// the twist by `-k` had been made in its place.
pub proof fn lemma_do_inverse_net<R: RaySystem>(st: PuzzleState<R>, a: R, k: int, gs: Seq<Seq<i8>>)
    requires
        shape_wf(st),
    ensures
        multi_twisted(
            PuzzleState {
                grips: st.grips,
                pieces: multi_twisted(PuzzleState { grips: st.grips, pieces: multi_twisted(st, a, k, gs) }, a, -k, gs),
            },
            a,
            -k,
            gs,
        ) == multi_twisted(st, a, -k, gs),
{
    lemma_twist_undo_round_trip(st, a, k, gs);
    assert(PuzzleState { grips: st.grips, pieces: st.pieces } == st);
}

/// Multi-grip twists that avoid the core grip are plain twists on each
/// grip in turn.
proof fn lemma_multi_without_core<R: RaySystem>(st: PuzzleState<R>, ray: R, order: int, gs: Seq<Seq<i8>>)
    requires
        st.grips.len() > 0,
        forall|j: int| 0 <= j < gs.len() ==> #[trigger] gs[j] != st.grips[0],
    ensures
        multi_twisted(st, ray, order, gs) == twist_each(st.pieces, ray, order, gs),
    decreases gs.len(),
{
    if gs.len() > 0 {
        let rest = gs.drop_last();
        assert forall|j: int| 0 <= j < rest.len() implies #[trigger] rest[j] != st.grips[0] by {
            assert(rest[j] == gs[j]);
        }
        lemma_multi_without_core(st, ray, order, rest);
        assert(gs.last() == gs[gs.len() - 1]);
    }
}

/// Core redirection: twisting the core grip (the first one) by `order`
/// leaves the pieces exactly as twisting each of the other grips by
/// `-order` in turn, when the grips are distinct.
pub proof fn lemma_core_redirection<R: RaySystem>(st: PuzzleState<R>, ray: R, order: int)
    requires
        st.grips.len() > 0,
        st.grips.no_duplicates(),
    ensures
        twisted_pieces(st, ray, order, st.grips[0]) == multi_twisted(st, ray, -order, st.grips.drop_first()),
{
    let others = st.grips.drop_first();
    assert forall|j: int| 0 <= j < others.len() implies #[trigger] others[j] != st.grips[0] by {
        assert(others[j] == st.grips[j + 1]);
    }
    lemma_multi_without_core(st, ray, -order, others);
}

} // verus!
