use rubiks_cube_solver::cube::algs::{Algorithm, Turn, Twist};
use rubiks_cube_solver::cube::Cube;
use rubiks_cube_solver::solver::{
    corner_orientation_heuristic, corner_permutation_coordinate, edge_orientation_heuristic,
    encode_permutation, g1_heuristic, g1_moveset, group_solver, is_g1, pattern_heuristic,
    solved_heuristic, solver, GroupInfo, LookupTable, ORIENTATION_COUNT, PERMUTATION_COUNT,
};

fn uniqueness_of_encoded_permutation_helper<const N: usize>(
    perm: &mut [usize; N],
    options: Vec<usize>,
    encoded_perms: &mut Vec<usize>,
) {
    if options.is_empty() {
        encoded_perms.push(encode_permutation(perm));
        return;
    }
    let perm_idx = N - options.len();
    for (i, c) in options.iter().enumerate() {
        let options_without_c: Vec<usize> = options
            .iter()
            .enumerate()
            .filter(|(idx, _)| *idx != i)
            .map(|(_, x)| x.clone())
            .collect();
        perm[perm_idx] = *c;
        uniqueness_of_encoded_permutation_helper(perm, options_without_c, encoded_perms);
    }
}

#[test]
fn uniqueness_of_encoded_permutation() {
    let mut perm = [0; 8];
    let mut encoded_perms = vec![];
    uniqueness_of_encoded_permutation_helper(
        &mut perm,
        vec![0, 1, 2, 3, 4, 5, 6, 7],
        &mut encoded_perms,
    );

    println!("{:?}", encoded_perms.iter().take(100).collect::<Vec<_>>());
    for (i, a) in encoded_perms.iter().enumerate() {
        for b in encoded_perms.iter().skip(i + 1) {
            assert_ne!(a, b);
        }
    }
}

#[test]
fn encoded_permutations_fill_the_range() {
    let mut perm = [0; 8];
    let mut encoded_perms = vec![];
    uniqueness_of_encoded_permutation_helper(
        &mut perm,
        vec![0, 1, 2, 3, 4, 5, 6, 7],
        &mut encoded_perms,
    );
    assert_eq!(encoded_perms.len(), 40320);
    let mut seen = vec![false; 40320];
    for e in encoded_perms {
        assert!(e < 40320);
        assert!(!seen[e]);
        seen[e] = true;
    }
}

#[test]
fn encode_permutation_values() {
    assert_eq!(encode_permutation(&[0, 1, 2, 3, 4, 5, 6, 7]), 0);
    assert_eq!(encode_permutation(&[7, 6, 5, 4, 3, 2, 1, 0]), 40319);
    assert_eq!(encode_permutation(&[1, 0, 2]), 2);
    assert_eq!(encode_permutation(&[0, 2, 1]), 1);
    assert_eq!(encode_permutation(&[2, 0, 1]), 4);
    assert_eq!(encode_permutation(&[5]), 0);
}

fn zero_tables() -> (LookupTable, LookupTable) {
    (LookupTable(vec![0u8; ORIENTATION_COUNT]), LookupTable(vec![0u8; PERMUTATION_COUNT]))
}

#[test]
fn solver_on_solved_cube_returns_empty_algorithm() {
    let (orientation, permutation) = zero_tables();
    let mut cube = Cube::new_solved();
    let scramble = Algorithm::new(vec![]);
    cube.apply_algorithm(&scramble);
    let solution = solver(&mut cube, &orientation, &permutation).unwrap();
    assert_eq!(solution, Algorithm::new(vec![]));
    assert!(cube.is_solved());
}

#[test]
fn solver_undoes_short_scrambles() {
    let (orientation, permutation) = zero_tables();
    for text in ["R", "F'", "U2 D", "R U", "F R'", "L2 B U'", "R U R'"] {
        let mut cube = Cube::new_solved();
        cube.apply_algorithm(&Algorithm::from_str(text));
        let mut scrambled = cube;
        let solution = solver(&mut cube, &orientation, &permutation).unwrap();
        assert!(cube.is_solved());
        scrambled.apply_algorithm(&solution);
        assert!(scrambled.is_solved());
    }
}

#[test]
fn first_phase_ends_in_the_subgroup() {
    let (orientation, _) = zero_tables();
    let mut cube = Cube::new_solved();
    cube.apply_algorithm(&Algorithm::from_str("F R U'"));
    assert!(!is_g1(&cube));
    let mut scrambled = cube;
    let info = GroupInfo {
        check: is_g1,
        heuristic: |c: &Cube| {
            g1_heuristic(c, &orientation)
        },
        moveset: Twist::all_twists().to_vec(),
    };
    let first = group_solver(&mut cube, &info).unwrap();
    assert!(is_g1(&cube));
    scrambled.apply_algorithm(&first);
    assert!(is_g1(&scrambled));
    assert_eq!(scrambled.edges, cube.edges);
    assert_eq!(scrambled.corners, cube.corners);
    // no shorter way into the subgroup exists than one twist per twist made
    assert!(first.twists.len() <= 3);
}

#[test]
fn group_solver_finds_a_shortest_path_without_estimates() {
    let mut cube = Cube::new_solved();
    cube.apply_algorithm(&Algorithm::from_str("U2 R2 D"));
    let info = GroupInfo {
        check: |c: &Cube| c.is_solved(),
        heuristic: |_c: &Cube| 0usize,
        moveset: g1_moveset().to_vec(),
    };
    let solution = group_solver(&mut cube, &info).unwrap();
    assert!(cube.is_solved());
    assert_eq!(solution, Algorithm::from_str("D' R2 U2"));
}

#[test]
fn group_solver_gives_up_where_estimate_is_out_of_reach() {
    let mut cube = Cube::new_solved();
    cube.apply_algorithm(&Algorithm::from_str("R"));
    let before = cube;
    let info = GroupInfo {
        check: |c: &Cube| c.is_solved(),
        heuristic: |_c: &Cube| usize::MAX,
        moveset: Twist::all_twists().to_vec(),
    };
    assert!(group_solver(&mut cube, &info).is_none());
    assert_eq!(cube.edges, before.edges);
    assert_eq!(cube.corners, before.corners);
}

#[test]
fn g1_holds_after_subgroup_twists_only() {
    let mut cube = Cube::new_solved();
    assert!(is_g1(&cube));
    cube.apply_algorithm(&Algorithm::from_str("U D2 F2 B2 L2 R2 U' D"));
    assert!(is_g1(&cube));
    cube.apply_algorithm(&Algorithm::from_str("R"));
    assert!(!is_g1(&cube));
}

#[test]
fn corner_permutation_coordinate_of_solved_is_zero() {
    let cube = Cube::new_solved();
    assert_eq!(corner_permutation_coordinate(&cube), 0);
    let mut turned = Cube::new_solved();
    turned.apply_algorithm(&Algorithm::from_str("U"));
    // U carries UBL -> UBR -> UFR -> UFL: the slots hold cubies 3, 0, 1, 2
    assert_eq!(corner_permutation_coordinate(&turned), 3 * 5040);
}

#[test]
fn orientation_estimates_are_thirds_of_the_sums() {
    let cube = Cube::new_solved();
    assert_eq!(corner_orientation_heuristic(&cube), 0);
    assert_eq!(edge_orientation_heuristic(&cube), 0);
    let mut cube = Cube::new_solved();
    cube.apply_algorithm(&Algorithm::from_str("F"));
    // four corners twisted by 2 + 1 + 2 + 1, four edges flipped
    assert_eq!(corner_orientation_heuristic(&cube), 2);
    assert_eq!(edge_orientation_heuristic(&cube), 1);
    let mut cube = Cube::new_solved();
    cube.apply_algorithm(&Algorithm::from_str("U R2 F B R B2 R U2 L B2 R U' D' R2 F R' L B2 U2 F2"));
    assert_eq!(corner_orientation_heuristic(&cube), 0);
    assert_eq!(edge_orientation_heuristic(&cube), 4);
}

#[test]
fn estimates_read_the_tables() {
    let mut orientation = LookupTable(vec![0u8; ORIENTATION_COUNT]);
    let mut permutation = LookupTable(vec![0u8; PERMUTATION_COUNT]);
    let mut cube = Cube::new_solved();
    cube.apply_algorithm(&Algorithm::from_str("U"));
    orientation.0[cube.get_orientation()] = 7;
    permutation.0[corner_permutation_coordinate(&cube)] = 11;
    assert_eq!(pattern_heuristic(&cube, &orientation), 7);
    assert_eq!(g1_heuristic(&cube, &orientation), 7);
    assert_eq!(solved_heuristic(&cube, &permutation), 11);
    assert_eq!(solved_heuristic(&Cube::new_solved(), &permutation), 0);
}

#[test]
fn subgroup_moves_are_ten() {
    let moves = g1_moveset();
    assert_eq!(moves.len(), 10);
    assert_eq!(moves.to_vec(), Algorithm::from_str("U U2 U' D D2 D' F2 B2 L2 R2").twists);
}

#[test]
fn group_info_allows_moves_of_its_set() {
    let info = GroupInfo {
        check: is_g1,
        heuristic: |_c: &Cube| 0usize,
        moveset: g1_moveset().to_vec(),
    };
    assert_eq!(info.allowed_moves(None), g1_moveset().to_vec());
    assert_eq!(info.allowed_moves(Some(Turn::D)),
        Algorithm::from_str("F2 B2 L2 R2").twists);
    assert_eq!(info.allowed_moves(Some(Turn::U)),
        Algorithm::from_str("D D2 D' F2 B2 L2 R2").twists);
}
