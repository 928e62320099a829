use rubiks_cube_solver::cube::algs::{Algorithm, Twist};
use rubiks_cube_solver::cube::Cube;
use rubiks_cube_solver::solver::tables::{compute_orientation_lookup_table, UNREACHED};
use rubiks_cube_solver::solver::{
    corner_permutation_coordinate, g1_heuristic, g1_moveset, group_solver, is_g1,
    solved_heuristic, solver, GroupInfo, LookupTable, PERMUTATION_COUNT,
};
use std::collections::VecDeque;

/// The corner-permutation table, built breadth-first: the values are those
/// that iterative deepening gives, in a fraction of the time.
fn permutation_table() -> LookupTable {
    let mut table = vec![UNREACHED; PERMUTATION_COUNT];
    let mut queue = VecDeque::new();
    let cube = Cube::new_solved();
    table[corner_permutation_coordinate(&cube)] = 0;
    queue.push_back((cube, 1u8));
    while let Some((mut cube, depth)) = queue.pop_front() {
        for twist in g1_moveset() {
            cube.twist(twist);
            let i = corner_permutation_coordinate(&cube);
            if table[i] == UNREACHED {
                table[i] = depth;
                queue.push_back((cube, depth + 1));
            }
            cube.twist(twist.inverse());
        }
    }
    LookupTable(table)
}

#[test]
fn permutation_table_is_fully_populated_within_thirteen_twists() {
    let table = permutation_table();
    assert!(!table.0.contains(&UNREACHED));
    assert_eq!(table.0.iter().max(), Some(&13));
    assert_eq!(table.0[0], 0);
}

#[test]
fn solver_solves_the_superflip() {
    let orientation = compute_orientation_lookup_table().unwrap();
    let permutation = permutation_table();
    let mut cube = Cube::new_solved();
    cube.apply_algorithm(&Algorithm::from_str(
        "U R2 F B R B2 R U2 L B2 R U' D' R2 F R' L B2 U2 F2",
    ));
    let mut scrambled = cube;
    let solution = solver(&mut cube, &orientation, &permutation).unwrap();
    assert!(cube.is_solved());
    scrambled.apply_algorithm(&solution);
    assert!(scrambled.is_solved());
}

#[test]
fn solver_solves_a_scramble_of_thirty_twists() {
    let orientation = compute_orientation_lookup_table().unwrap();
    let permutation = permutation_table();
    let scramble = Algorithm::from_str(
        "D2 F' L U2 B' R D L2 F U' R2 B D' L' F2 U B2 R' D F L2 U' B R2 D' F' L U B' R2",
    );
    assert_eq!(scramble.twists.len(), 30);
    let mut cube = Cube::new_solved();
    cube.apply_algorithm(&scramble);
    let mut scrambled = cube;
    let solution = solver(&mut cube, &orientation, &permutation).unwrap();
    assert!(cube.is_solved());
    scrambled.apply_algorithm(&solution);
    assert!(scrambled.is_solved());
    for twist in &solution.twists {
        assert!(Twist::all_twists().contains(twist));
    }
}

#[test]
fn phases_meet_in_the_subgroup_and_estimates_stay_below_path_lengths() {
    let orientation = compute_orientation_lookup_table().unwrap();
    let permutation = permutation_table();
    let mut cube = Cube::new_solved();
    cube.apply_algorithm(&Algorithm::from_str(
        "D2 F' L U2 B' R D L2 F U' R2 B D' L' F2 U B2 R' D F L2 U' B R2 D' F' L U B' R2",
    ));
    let first_estimate = g1_heuristic(&cube, &orientation);
    let first_info = GroupInfo {
        check: is_g1,
        heuristic: |c: &Cube| g1_heuristic(c, &orientation),
        moveset: Twist::all_twists().to_vec(),
    };
    let first = group_solver(&mut cube, &first_info).unwrap();
    assert!(is_g1(&cube));
    assert!(first_estimate <= first.twists.len());

    let second_estimate = solved_heuristic(&cube, &permutation);
    let second_info = GroupInfo {
        check: |c: &Cube| c.is_solved(),
        heuristic: |c: &Cube| solved_heuristic(c, &permutation),
        moveset: g1_moveset().to_vec(),
    };
    let second = group_solver(&mut cube, &second_info).unwrap();
    assert!(cube.is_solved());
    assert!(second_estimate <= second.twists.len());
    for twist in &second.twists {
        assert!(g1_moveset().contains(twist));
    }
}
