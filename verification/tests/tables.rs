use rubiks_cube_solver::cube::algs::Algorithm;
use rubiks_cube_solver::cube::Cube;
use rubiks_cube_solver::solver::storage::{decode_table, encode_table, TableError};
use rubiks_cube_solver::solver::tables::{
    compute_orientation_lookup_table, permutation_table_compute, UNREACHED,
};
use rubiks_cube_solver::solver::{
    corner_permutation_coordinate, g1_heuristic, LookupTable, PERMUTATION_COUNT,
};

fn reached(table: &[u8]) -> usize {
    table.iter().filter(|e| **e != UNREACHED).count()
}

#[test]
fn permutation_table_first_rounds() {
    let mut cube = Cube::new_solved();
    let mut table = vec![UNREACHED; PERMUTATION_COUNT];
    permutation_table_compute(&mut cube, 0, 0, None, &mut table);
    assert!(cube.is_solved());
    assert_eq!(reached(&table), 1);
    assert_eq!(table[0], 0);

    permutation_table_compute(&mut cube, 1, 0, None, &mut table);
    assert!(cube.is_solved());
    // each of the ten twists of the subgroup gives another corner permutation
    assert_eq!(reached(&table), 11);
    let mut turned = Cube::new_solved();
    turned.apply_algorithm(&Algorithm::from_str("R2"));
    assert_eq!(table[corner_permutation_coordinate(&turned)], 1);

    permutation_table_compute(&mut cube, 2, 0, None, &mut table);
    assert_eq!(table[0], 0);
    let mut twice = Cube::new_solved();
    twice.apply_algorithm(&Algorithm::from_str("R2 U"));
    assert_eq!(table[corner_permutation_coordinate(&twice)], 2);
    let mut back = Cube::new_solved();
    back.apply_algorithm(&Algorithm::from_str("U U'"));
    assert_eq!(table[corner_permutation_coordinate(&back)], 0);
    assert_eq!(table[corner_permutation_coordinate(&turned)], 1);
}

#[test]
fn orientation_table_fully_populated() {
    let table = compute_orientation_lookup_table().unwrap();
    assert_eq!(table.0.len(), 4478976);
    assert!(!table.0.contains(&UNREACHED));
    assert_eq!(table.0[0], 0);
    let mut cube = Cube::new_solved();
    cube.apply_algorithm(&Algorithm::from_str("F"));
    assert_eq!(table.0[cube.get_orientation()], 1);
    // a third of the corner twists (6) and of the edge flips (4), and the table
    assert_eq!(g1_heuristic(&cube, &table), 2);
    cube.apply_algorithm(&Algorithm::from_str("R"));
    assert_eq!(table.0[cube.get_orientation()], 2);
    let mut flat = Cube::new_solved();
    flat.apply_algorithm(&Algorithm::from_str("U D2 F2 B2 L2 R2"));
    assert_eq!(table.0[flat.get_orientation()], 0);
}

#[test]
fn table_bytes_round_trip() {
    let table = LookupTable(vec![3, 1, 4, 1, 5, 9, 2, 6]);
    let bytes = encode_table(&table).unwrap();
    assert_eq!(bytes, vec![8, 0, 0, 0, 0, 0, 0, 0, 3, 1, 4, 1, 5, 9, 2, 6]);
    let back = decode_table(&bytes, 8).unwrap();
    assert_eq!(back.0, table.0);
}

#[test]
fn table_bytes_with_wrong_length_are_refused() {
    let table = LookupTable(vec![3, 1, 4]);
    let bytes = encode_table(&table).unwrap();
    assert_eq!(decode_table(&bytes, 4).err(), Some(TableError::Length));
}

#[test]
fn truncated_table_bytes_are_refused() {
    assert_eq!(decode_table(&[5, 0, 0, 0, 0, 0, 0, 0, 1, 2], 5).err(), Some(TableError::Codec));
    assert_eq!(decode_table(&[1, 2, 3], 3).err(), Some(TableError::Codec));
}

#[test]
fn bytes_after_the_table_are_allowed() {
    let back = decode_table(&[2, 0, 0, 0, 0, 0, 0, 0, 7, 8, 9], 2).unwrap();
    assert_eq!(back.0, vec![7, 8]);
}
