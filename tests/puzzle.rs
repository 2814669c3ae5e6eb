use laminated::basis::{Basis, Sign};
use laminated::cube::CubeRay;
use laminated::octa::OctaRay;
use laminated::piece::Piece;
use laminated::puzzle::Puzzle;
use laminated::ray::RaySystem;

const R: CubeRay = CubeRay(Basis::X, Sign::Pos);
const U: CubeRay = CubeRay(Basis::Z, Sign::Pos);

fn cube3() -> Puzzle<CubeRay> {
    Puzzle::make_solved(vec![vec![0, 0], vec![1, 0], vec![0, 1]])
}

fn is_permutation(perm: &[usize]) -> bool {
    let mut seen = vec![false; perm.len()];
    for &p in perm {
        if p >= perm.len() || seen[p] {
            return false;
        }
        seen[p] = true;
    }
    true
}

fn orientation_indices<Ray: RaySystem>(puzzle: &Puzzle<Ray>) -> Vec<Vec<usize>> {
    puzzle
        .orientations()
        .iter()
        .map(|o| o.iter().map(|r| r.index()).collect())
        .collect()
}

/// Applies one turn and asserts that it is unsolved.
#[test]
fn cube_one_turn() {
    let mut puzzle = Puzzle::make_solved(vec![vec![0, 0], vec![1, 0], vec![0, 1]]);
    puzzle.twist((R, 1), &[1, 0]);
    assert!(!puzzle.is_solved());
}

/// Applies (R U R' U')6 to the 3x3x3 and asserts that it is solved.
#[test]
fn cube_six_sexy() {
    let mut puzzle = Puzzle::make_solved(vec![vec![0, 0], vec![1, 0], vec![0, 1]]);
    for _ in 0..6 {
        puzzle.twist((R, 1), &[1, 0]);
        puzzle.twist((R, 1), &[1, 0]);
        puzzle.twist((R, -1), &[1, 0]);
        puzzle.twist((R, -1), &[1, 0]);
    }
    assert!(puzzle.is_solved());
}

/// Applies one turn and asserts that it is unsolved.
#[test]
fn mod_one_turn() {
    let mut puzzle = cube3();
    puzzle.twist((R, 1), &[1, 0]);
    assert!(!puzzle.is_solved());
}

/// Applies (R U R' U')6 to the 3x3x3 and asserts that it is solved.
#[test]
fn mod_six_sexy() {
    let mut puzzle = cube3();
    for _ in 0..6 {
        puzzle.twist((R, 1), &[1, 0]);
        puzzle.twist((R, 1), &[1, 0]);
        puzzle.twist((R, -1), &[1, 0]);
        puzzle.twist((R, -1), &[1, 0]);
    }
    assert!(puzzle.is_solved());
}

#[test]
fn real_sexy_move_has_order_six() {
    let mut puzzle = cube3();
    for round in 0..6 {
        puzzle.twist((R, 1), &[1, 0]);
        puzzle.twist((U, 1), &[1, 0]);
        puzzle.twist((R, -1), &[1, 0]);
        puzzle.twist((U, -1), &[1, 0]);
        assert_eq!(puzzle.is_solved(), round == 5);
    }
}

#[test]
fn solved_puzzle_counts_and_is_solved() {
    let puzzle = cube3();
    assert_eq!(puzzle.piece_count(), 27);
    assert_eq!(puzzle.pieces.len(), 27);
    assert!(puzzle.is_solved());
    let perm = puzzle.permutation();
    assert_eq!(perm, (0..27).collect::<Vec<usize>>());
    let empty: Puzzle<CubeRay> = Puzzle::make_solved(vec![]);
    assert_eq!(empty.piece_count(), 0);
    assert!(empty.is_solved());
    let fto: Puzzle<OctaRay> = Puzzle::make_solved(vec![vec![0, 0], vec![1, -1], vec![-1, 1]]);
    assert_eq!(fto.piece_count(), 81);
    assert!(fto.is_solved());
}

#[test]
fn index_round_trip() {
    let puzzle = cube3();
    for i in 0..27 {
        let piece = puzzle.index_to_solved_piece(i);
        assert_eq!(puzzle.piece_to_index_solved(&piece), i);
        assert_eq!(puzzle.piece_to_index(&piece), i);
        assert!(piece.is_solved());
    }
    // piece 5 = 2 + 1 * 3: grip 2 on the first axis, grip 1 on the second, grip 0 on the third
    let piece = puzzle.index_to_solved_piece(5);
    assert_eq!(piece.grip_on_axis_solved(CubeRay(Basis::X, Sign::Pos)), vec![0, 1]);
    assert_eq!(piece.grip_on_axis_solved(CubeRay(Basis::Y, Sign::Neg)), vec![1, 0]);
    assert_eq!(piece.grip_on_axis_solved(CubeRay(Basis::Z, Sign::Pos)), vec![0, 0]);
}

#[test]
fn permutation_stays_a_permutation() {
    let mut puzzle = cube3();
    puzzle.twist((R, 1), &[1, 0]);
    let perm = puzzle.permutation();
    assert!(is_permutation(&perm));
    assert_ne!(perm, (0..27).collect::<Vec<usize>>());
    for i in 0..puzzle.pieces.len() {
        assert_eq!(perm[puzzle.piece_to_index(&puzzle.pieces[i])], i);
    }
    puzzle.scramble();
    assert!(is_permutation(&puzzle.permutation()));
    let mut fto: Puzzle<OctaRay> = Puzzle::make_solved(vec![vec![0, 0], vec![1, -1], vec![-1, 1]]);
    fto.scramble();
    assert!(is_permutation(&fto.permutation()));
}

#[test]
fn twist_then_untwist_restores() {
    let mut puzzle = cube3();
    puzzle.twist((U, 1), &[0, 1]);
    let before = orientation_indices(&puzzle);
    for k in [1i8, 2, 3, 5, -7, 127] {
        puzzle.twist((R, k), &[1, 0]);
        puzzle.twist((R, -k), &[1, 0]);
        assert_eq!(orientation_indices(&puzzle), before);
    }
}

#[test]
fn core_twist_turns_everything_else_back() {
    let mut by_core = cube3();
    by_core.twist((R, 1), &[0, 0]);
    let mut by_layers = cube3();
    by_layers.twist((R, -1), &[1, 0]);
    by_layers.twist((R, -1), &[0, 1]);
    assert_eq!(orientation_indices(&by_core), orientation_indices(&by_layers));
    // the core slice stays where it is
    assert!(!by_core.is_solved());
    assert!(by_core.pieces[0].is_solved());
}

#[test]
fn piece_twist_reports_whether_it_moved() {
    let puzzle = cube3();
    let mut piece = puzzle.index_to_solved_piece(1);
    let grip = piece.grip_on_axis(R);
    assert!(!piece.twist((R, 1), &[9, 9]));
    assert!(piece.is_solved());
    assert!(piece.twist((R, 1), &grip));
    assert!(!piece.is_solved());
    assert_eq!(piece.grip_on_axis(R), grip);
    assert_eq!(piece.oriented_layers().len(), 6);
    let layers = piece.layers.clone();
    let solved = Piece::<CubeRay>::make_solved_from_layers(layers.clone());
    assert_eq!(solved.oriented_layers(), layers);
}

#[test]
fn set_orientations_round_trip() {
    let mut puzzle = cube3();
    puzzle.twist((R, 1), &[1, 0]);
    let oris = puzzle.orientations();
    let mut other = cube3();
    other.set_orientations(&oris);
    assert_eq!(orientation_indices(&other), orientation_indices(&puzzle));
    assert!(!other.is_solved());
}

#[test]
fn apply_moves_matches_twists() {
    let mut a = cube3();
    a.apply_moves(&[(R, 1, 1), (U, 3, 2), (R, -1, 0)]);
    let mut b = cube3();
    b.twist((R, 1), &[1, 0]);
    b.twist((U, 3), &[0, 1]);
    b.twist((R, -1), &[0, 0]);
    assert_eq!(orientation_indices(&a), orientation_indices(&b));
}
