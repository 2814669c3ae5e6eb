use laminated::basis::{Basis, Sign};
use laminated::color::Color;
use laminated::cube::CubeRay;
use laminated::key_label::{KeyLabel, KeyLabelStatus};
use laminated::octa::OctaRay;
use laminated::preferences::ConcretePuzzlePreferences;
use laminated::puzzle::Puzzle;
use laminated::ray::RaySystem;
use laminated::session::{
    inverse_order, string_vec_to_enum_map, CubePuzzle, HistoryError, LogError, Session, SessionLog, SessionType,
    VERSION,
};

const R: CubeRay = CubeRay(Basis::X, Sign::Pos);
const U: CubeRay = CubeRay(Basis::Z, Sign::Pos);

fn session() -> Session<CubeRay> {
    Session::from_concrete(Puzzle::make_solved(vec![vec![0, 0], vec![1, 0], vec![0, 1]]))
}

fn state(s: &Session<CubeRay>) -> Vec<Vec<usize>> {
    s.puzzle
        .orientations()
        .iter()
        .map(|o| o.iter().map(|r| r.index()).collect())
        .collect()
}

fn names(v: &[&str]) -> Vec<String> {
    v.iter().map(|s| s.to_string()).collect()
}

#[test]
fn undo_redo_and_errors() {
    let mut s = session();
    assert_eq!(s.undo(), Err(HistoryError::NoUndoAvailable));
    assert_eq!(s.redo(), Err(HistoryError::NoRedoAvailable));
    assert_eq!(s.do_inverse(), Err(HistoryError::NoUndoAvailable));
    let start = state(&s);
    s.twist((R, 1), vec![vec![1, 0]]);
    let after = state(&s);
    assert_ne!(after, start);
    assert_eq!(s.undo(), Ok(()));
    assert_eq!(state(&s), start);
    assert_eq!(s.twists.len(), 0);
    assert_eq!(s.undid_twists.len(), 1);
    assert_eq!(s.redo(), Ok(()));
    assert_eq!(state(&s), after);
    assert_eq!(s.twists.len(), 1);
    assert_eq!(s.undid_twists.len(), 0);
}

#[test]
fn multi_layer_undo_restores() {
    let mut s = session();
    s.twist((U, 1), vec![vec![0, 1]]);
    let start = state(&s);
    s.twist((R, 1), vec![vec![1, 0], vec![0, 0]]);
    assert_ne!(state(&s), start);
    assert_eq!(s.undo(), Ok(()));
    assert_eq!(state(&s), start);
}

#[test]
fn do_inverse_replaces_last_twist() {
    let mut s = session();
    let start = state(&s);
    s.twist((R, 1), vec![vec![1, 0]]);
    s.undo().unwrap();
    assert_eq!(s.undid_twists.len(), 1);
    s.redo().unwrap();
    assert_eq!(s.do_inverse(), Ok(()));
    assert_eq!(s.twists.len(), 1);
    assert_eq!(s.twists[0].0, (R, -1));
    assert_eq!(s.undid_twists.len(), 0);
    let mut other = session();
    other.twist((R, -1), vec![vec![1, 0]]);
    assert_eq!(state(&s), state(&other));
    assert_ne!(state(&s), start);
}

#[test]
fn twist_clears_redo() {
    let mut s = session();
    s.twist((R, 1), vec![vec![1, 0]]);
    s.undo().unwrap();
    s.twist((U, 2), vec![vec![0, 1]]);
    assert_eq!(s.redo(), Err(HistoryError::NoRedoAvailable));
}

#[test]
fn scramble_and_reset_clear_history() {
    let mut s = session();
    s.twist((R, 1), vec![vec![1, 0]]);
    s.scramble();
    assert_eq!(s.twists.len(), 0);
    assert_eq!(s.undid_twists.len(), 0);
    assert_eq!(s.scramble.len(), 27);
    assert!(s.undo().is_err());
    s.reset();
    assert!(s.puzzle.is_solved());
    assert_eq!(s.puzzle.permutation(), (0..27).collect::<Vec<usize>>());
    assert_eq!(s.twists.len(), 0);
}

#[test]
fn log_round_trip() {
    let mut s = session();
    s.twist((R, 1), vec![vec![1, 0]]);
    s.twist((U, -1), vec![vec![0, 1], vec![0, 0]]);
    let (scramble, twists) = s.extract_log();
    assert_eq!(scramble.len(), 27);
    assert_eq!(scramble[0], names(&["R", "L", "B", "F", "U", "D"]));
    assert_eq!(twists[0], (("R".to_string(), 1), vec![vec![1, 0]]));
    assert_eq!(twists[1], (("U".to_string(), -1), vec![vec![0, 1], vec![0, 0]]));
    let log = SessionLog {
        version: VERSION.to_string(),
        session_type: SessionType::Cube(CubePuzzle::Nnn(3)),
        scramble,
        twists,
    };
    let mut t = session();
    assert_eq!(t.process_log(log), Ok(()));
    assert_eq!(state(&t), state(&s));
    assert_eq!(t.twists.len(), 2);
    assert_eq!(t.version, VERSION);
    assert_eq!(t.undo(), Ok(()));
    assert_eq!(t.undo(), Ok(()));
    assert!(t.puzzle.is_solved());
}

#[test]
fn log_errors() {
    let good = vec![names(&["R", "L", "B", "F", "U", "D"]); 27];
    let mut short = good.clone();
    short[3] = names(&["R", "L", "B", "F", "U"]);
    let mut t = session();
    let log = SessionLog {
        version: "0.0.1".to_string(),
        session_type: SessionType::Cube(CubePuzzle::Nnn(3)),
        scramble: short,
        twists: vec![],
    };
    assert_eq!(t.process_log(log), Err(LogError::InvalidEnumLength));
    assert_eq!(t.version, "0.0.1");
    let mut bad = good.clone();
    bad[0][2] = "Q".to_string();
    let log = SessionLog {
        version: VERSION.to_string(),
        session_type: SessionType::Cube(CubePuzzle::Nnn(3)),
        scramble: bad,
        twists: vec![],
    };
    assert_eq!(t.process_log(log), Err(LogError::InvalidRayName));
    let log = SessionLog {
        version: VERSION.to_string(),
        session_type: SessionType::Cube(CubePuzzle::Nnn(3)),
        scramble: good,
        twists: vec![(("Z".to_string(), 1), vec![vec![1, 0]])],
    };
    assert_eq!(t.process_log(log), Err(LogError::InvalidRayName));
    assert_eq!(LogError::InvalidRayName.message(), "Invalid ray name");
    assert_eq!(HistoryError::NoUndoAvailable.message(), "No undo left");
}

#[test]
fn names_to_orientation() {
    let ok = string_vec_to_enum_map::<OctaRay>(&names(&["BL", "L", "D", "F", "U", "R", "BU", "BR"]));
    let rays = ok.unwrap();
    assert_eq!(rays[0].name(), "BL");
    assert_eq!(rays[7].name(), "BR");
    assert_eq!(
        string_vec_to_enum_map::<OctaRay>(&names(&["BL"])),
        Err(LogError::InvalidEnumLength)
    );
    assert_eq!(
        string_vec_to_enum_map::<CubeRay>(&names(&["R", "L", "B", "F", "U", "X"])),
        Err(LogError::InvalidRayName)
    );
}

#[test]
fn inverse_orders() {
    assert_eq!(inverse_order(R, 1), -1);
    assert_eq!(inverse_order(R, -3), 3);
    assert_eq!(inverse_order(R, i8::MIN), 4);
    assert_eq!(inverse_order(OctaRay(Sign::Pos, Sign::Pos, Sign::Pos), i8::MIN), 2);
}

#[test]
fn colors_labels_and_preferences() {
    let c = Color::hex(0x1eef1e);
    assert_eq!((c.r, c.g, c.b), (0x1e, 0xef, 0x1e));
    assert_eq!(Color::hex(0xff663399).as_array(), [0x66, 0x33, 0x99]);
    assert_eq!(Color::from_array([1, 2, 3]), Color { r: 1, g: 2, b: 3 });
    let mut m = Color::hex(0x000000);
    {
        let channels = m.as_mut_array();
        *channels[0] = 7;
        *channels[2] = 9;
    }
    assert_eq!(m, Color { r: 7, g: 0, b: 9 });
    let label = KeyLabel::new(KeyLabelStatus::Pressed, "F1".to_string());
    assert_eq!(label.selected, KeyLabelStatus::Pressed);
    assert_eq!(label.text, "F1");
    assert!(ConcretePuzzlePreferences::default().octa_extend);
}
