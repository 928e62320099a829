use rubiks_cube_solver::cube::algs::{Algorithm, ConstAlgorithm, Turn, TurnDir, Twist};
use rubiks_cube_solver::cube::cubie::{
    Color, Corner, CornerId, CornerOrientation, CornerPos, EdgePos,
};
use rubiks_cube_solver::cube::stickers::Face;
use rubiks_cube_solver::cube::Cube;

#[test]
fn superflip_flips_every_edge_in_place() {
    let mut cube = Cube::new_solved();
    cube.apply_algorithm(&Algorithm::from_str(
        "U R2 F B R B2 R U2 L B2 R U' D' R2 F R' L B2 U2 F2",
    ));
    let solved = Cube::new_solved();
    for i in 0..12 {
        assert!(cube.edges[i].flipped);
        assert_eq!(cube.edges[i].id, solved.edges[i].id);
    }
    for i in 0..8 {
        assert_eq!(cube.corners[i], solved.corners[i]);
    }
}

#[test]
fn superflip_orientation_coordinate() {
    let mut cube = Cube::new_solved();
    cube.apply_algorithm(&Algorithm::from_str(
        "U R2 F B R B2 R U2 L B2 R U' D' R2 F R' L B2 U2 F2",
    ));
    assert_eq!(cube.get_orientation(), 2047 * 2187);
}

#[test]
fn superflip_constant_matches_text() {
    let mut a = Cube::new_solved();
    a.apply_const_algorithm(ConstAlgorithm::<20>::superflip());
    let mut b = Cube::new_solved();
    b.apply_algorithm(&Algorithm::from_str(
        "U R2 F B R B2 R U2 L B2 R U' D' R2 F R' L B2 U2 F2",
    ));
    assert_eq!(a.edges, b.edges);
    assert_eq!(a.corners, b.corners);
}

#[test]
fn t_perm_swaps_two_corners_and_two_edges() {
    let mut cube = Cube::new_solved();
    let t_perm = Algorithm::from_str("R U R' U' R' F R2 U' R' U' R U R' F'");
    cube.apply_algorithm(&t_perm);
    assert!(!cube.is_solved());
    let solved = Cube::new_solved();
    // the two right-hand corners of the upper face change places
    assert_eq!(cube.corners[CornerPos::UBR.idx()], solved.corners[CornerPos::UFR.idx()]);
    assert_eq!(cube.corners[CornerPos::UFR.idx()], solved.corners[CornerPos::UBR.idx()]);
    assert_eq!(cube.corners[CornerPos::UBL.idx()], solved.corners[CornerPos::UBL.idx()]);
    assert_eq!(cube.corners[CornerPos::UFL.idx()], solved.corners[CornerPos::UFL.idx()]);
    for i in 4..8 {
        assert_eq!(cube.corners[i], solved.corners[i]);
    }
    // so do the left and the right edge of the upper face
    assert_eq!(cube.edges[EdgePos::UL.idx()], solved.edges[EdgePos::UR.idx()]);
    assert_eq!(cube.edges[EdgePos::UR.idx()], solved.edges[EdgePos::UL.idx()]);
    assert_eq!(cube.edges[EdgePos::UB.idx()], solved.edges[EdgePos::UB.idx()]);
    assert_eq!(cube.edges[EdgePos::UF.idx()], solved.edges[EdgePos::UF.idx()]);
    for i in 4..12 {
        assert_eq!(cube.edges[i], solved.edges[i]);
    }
    cube.apply_algorithm(&t_perm);
    assert!(cube.is_solved());
}

#[test]
fn j_perm_twice_is_solved() {
    let mut cube = Cube::new_solved();
    let j_perm = Algorithm::from_str("R U R' F' R U R' U' R' F R2 U' R' U'");
    cube.apply_algorithm(&j_perm);
    assert!(!cube.is_solved());
    cube.apply_algorithm(&j_perm);
    assert!(cube.is_solved());
}

#[test]
fn empty_algorithm_leaves_cube_solved() {
    let mut cube = Cube::new_solved();
    cube.apply_algorithm(&Algorithm::new(vec![]));
    assert!(cube.is_solved());
    assert_eq!(cube.get_orientation(), 0);
}

#[test]
fn twist_then_inverse_restores_cube() {
    let mut cube = Cube::new_solved();
    cube.apply_algorithm(&Algorithm::from_str("R U2 F' L D B2"));
    let before = cube;
    for twist in Twist::all_twists() {
        cube.twist(twist);
        cube.twist(twist.inverse());
        assert_eq!(cube.edges, before.edges);
        assert_eq!(cube.corners, before.corners);
    }
}

#[test]
fn identity_twist_changes_nothing() {
    let mut cube = Cube::new_solved();
    cube.twist(Twist::new(Turn::F, TurnDir::Identity));
    assert!(cube.is_solved());
}

#[test]
fn front_quarter_turn_moves_and_orients() {
    let mut cube = Cube::new_solved();
    cube.twist(Twist::new(Turn::F, TurnDir::One));
    // the corner from UFL arrives in UFR and is twisted clockwise
    assert_eq!(
        cube.corners[CornerPos::UFR.idx()],
        Corner { id: CornerId::WGO, orientation: CornerOrientation::One }
    );
    // the corner from DFL arrives in UFL and is twisted counter-clockwise
    assert_eq!(
        cube.corners[CornerPos::UFL.idx()],
        Corner { id: CornerId::YGO, orientation: CornerOrientation::Two }
    );
    // the four edges of the face are turned over
    for pos in [EdgePos::UF, EdgePos::FR, EdgePos::DF, EdgePos::FL] {
        assert!(cube.edges[pos.idx()].flipped);
    }
    assert!(!cube.edges[EdgePos::UB.idx()].flipped);
}

#[test]
fn four_quarter_turns_are_none() {
    for twist in Twist::all_twists() {
        let mut cube = Cube::new_solved();
        for _ in 0..4 {
            cube.twist(Twist::new(twist.turn, TurnDir::One));
        }
        assert!(cube.is_solved());
    }
}

#[test]
fn solved_cube_shows_one_colour_per_face() {
    let cube = Cube::new_solved();
    let faces = [
        (Face::Up, 'W'),
        (Face::Left, 'O'),
        (Face::Front, 'G'),
        (Face::Right, 'R'),
        (Face::Back, 'B'),
        (Face::Down, 'Y'),
    ];
    for (face, letter) in faces {
        for sticker in 0..9 {
            assert_eq!(cube.get_color(face, sticker), letter);
        }
    }
}

#[test]
fn solved_cube_net() {
    let cube = Cube::new_solved();
    let expected = "    WWW\n    WWW\n    WWW\n\
                    OOO GGG RRR BBB \nOOO GGG RRR BBB \nOOO GGG RRR BBB \n\
                    \x20   YYY\n    YYY\n    YYY\n";
    assert_eq!(cube.to_string(), expected);
}

#[test]
fn up_turn_shows_in_the_band() {
    let mut cube = Cube::new_solved();
    cube.twist(Twist::new(Turn::U, TurnDir::One));
    // a clockwise turn of U carries the front row to the left face
    for sticker in 0..3 {
        assert_eq!(cube.get_color(Face::Left, sticker), 'G');
        assert_eq!(cube.get_color(Face::Front, sticker), 'R');
        assert_eq!(cube.get_color(Face::Right, sticker), 'B');
        assert_eq!(cube.get_color(Face::Back, sticker), 'O');
    }
    for sticker in 0..9 {
        assert_eq!(cube.get_color(Face::Up, sticker), 'W');
    }
}

#[test]
fn algorithm_then_its_inverse_restores_cube() {
    let mut cube = Cube::new_solved();
    cube.apply_algorithm(&Algorithm::from_str("D L2 F' U"));
    let before = cube;
    let alg = Algorithm::from_str("R U2 F' L D B2 U' R2 F0 L'");
    cube.apply_algorithm(&alg);
    let undo: Vec<Twist> = alg.twists.iter().rev().map(|t| t.inverse()).collect();
    cube.apply_algorithm(&Algorithm::new(undo));
    assert_eq!(cube.edges, before.edges);
    assert_eq!(cube.corners, before.corners);
}

#[test]
fn simplified_algorithm_does_the_same() {
    for text in ["R L R' U D U2 F F F0 B B'", "U D U' D' R L2 R", "F B F B F B F B L R L"] {
        let alg = Algorithm::from_str(text);
        let mut short = Algorithm::from_str(text);
        short.simplify();
        assert!(short.twists.len() <= alg.twists.len());
        let mut a = Cube::new_solved();
        a.apply_algorithm(&alg);
        let mut b = Cube::new_solved();
        b.apply_algorithm(&short);
        assert_eq!(a.edges, b.edges);
        assert_eq!(a.corners, b.corners);
    }
}

#[test]
fn opposite_faces_commute_and_same_faces_add() {
    let mut a = Cube::new_solved();
    a.apply_algorithm(&Algorithm::from_str("F R U D'"));
    let mut b = Cube::new_solved();
    b.apply_algorithm(&Algorithm::from_str("F R D' U"));
    assert_eq!(a.edges, b.edges);
    assert_eq!(a.corners, b.corners);

    let mut c = Cube::new_solved();
    c.apply_algorithm(&Algorithm::from_str("L L'"));
    assert!(c.is_solved());
    let mut d = Cube::new_solved();
    d.apply_algorithm(&Algorithm::from_str("B B"));
    let mut e = Cube::new_solved();
    e.apply_algorithm(&Algorithm::from_str("B2"));
    assert_eq!(d.edges, e.edges);
    assert_eq!(d.corners, e.corners);
}

#[test]
fn orientation_coordinate_weighs_corners_and_edges() {
    // R twists the corners in UBR, UFR, DFR, DBR (slots 1, 2, 5, 6) by 1, 2, 1, 2
    let mut cube = Cube::new_solved();
    cube.twist(Twist::new(Turn::R, TurnDir::One));
    assert_eq!(cube.get_orientation(), 1 + 2 * 3 + 81 + 2 * 243);
    // F flips the edges in UF, FR, FL, DF (slots 2, 6, 7, 8) and twists four corners
    let mut cube = Cube::new_solved();
    cube.twist(Twist::new(Turn::F, TurnDir::One));
    let corners = 3 + 2 * 9 + 27 + 2 * 81;
    let edges = 2 + 32 + 64 + 128;
    assert_eq!(cube.get_orientation(), corners + edges * 2187);
    // turns of U and D and half turns leave the coordinate at nought
    let mut cube = Cube::new_solved();
    cube.apply_algorithm(&Algorithm::from_str("U D' R2 F2 L2 B2"));
    assert_eq!(cube.get_orientation(), 0);
}

#[test]
fn stickers_of_single_cubies() {
    let mut cube = Cube::new_solved();
    cube.twist(Twist::new(Turn::F, TurnDir::One));
    // the edge from UF has come to FR, green side still in front
    assert_eq!(cube.get_edge_sticker(EdgePos::FR, false), Color::Green);
    assert_eq!(cube.get_edge_sticker(EdgePos::FR, true), Color::White);
    // the corner from UFL has come to UFR: orange on top, green in front
    assert_eq!(cube.get_corner_sticker(CornerPos::UFR, 0), Color::Orange);
    assert_eq!(cube.get_corner_sticker(CornerPos::UFR, 2), Color::Green);
    assert_eq!(cube.get_corner_sticker(CornerPos::UFR, 1), Color::White);
    assert_eq!(cube.get_color(Face::Front, 4), 'G');
    assert_eq!(cube.get_color(Face::Up, 8), 'O');
    assert_eq!(cube.get_color(Face::Right, 0), 'W');
    assert_eq!(cube.get_color(Face::Right, 3), 'W');
}

#[test]
fn net_after_a_front_turn() {
    let mut cube = Cube::new_solved();
    cube.twist(Twist::new(Turn::F, TurnDir::One));
    let expected = "    WWW\n    WWW\n    OOO\n\
                    OOY GGG WRR BBB \nOOY GGG WRR BBB \nOOY GGG WRR BBB \n\
                    \x20   RRR\n    YYY\n    YYY\n";
    assert_eq!(cube.to_string(), expected);
}

fn inversions(ids: &[usize]) -> usize {
    let mut count = 0;
    for i in 0..ids.len() {
        for j in i + 1..ids.len() {
            if ids[i] > ids[j] {
                count += 1;
            }
        }
    }
    count
}

fn assert_legal(cube: &Cube) {
    let edge_ids: Vec<usize> = cube.edges.iter().map(|e| e.id.idx()).collect();
    let corner_ids: Vec<usize> = cube.corners.iter().map(|c| c.id.idx()).collect();
    let mut sorted = edge_ids.clone();
    sorted.sort();
    assert_eq!(sorted, (0..12).collect::<Vec<usize>>());
    let mut sorted = corner_ids.clone();
    sorted.sort();
    assert_eq!(sorted, (0..8).collect::<Vec<usize>>());
    let twists: usize = cube.corners.iter().map(|c| c.orientation.value()).sum();
    assert_eq!(twists % 3, 0);
    let flips = cube.edges.iter().filter(|e| e.flipped).count();
    assert_eq!(flips % 2, 0);
    assert_eq!(inversions(&edge_ids) % 2, inversions(&corner_ids) % 2);
}

#[test]
fn twists_keep_the_cube_legal() {
    let mut cube = Cube::new_solved();
    assert_legal(&cube);
    for twist in Twist::all_twists() {
        let mut one = Cube::new_solved();
        one.twist(twist);
        assert_legal(&one);
    }
    let alg = Algorithm::from_str("R U2 F' L D B2 U' R2 F L' D2 B U F2 R' D L2 B'");
    for twist in &alg.twists {
        cube.twist(*twist);
        assert_legal(&cube);
    }
}
