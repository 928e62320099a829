use rubiks_cube_solver::cube::algs::{Algorithm, ConstAlgorithm, Turn, TurnDir, Twist};

#[test]
fn const_and_non_const_alg_from_string_same_result() {
    let mut rng = rand::rng();
    for _ in 0..100 {
        let scramble = Algorithm::new_random(&mut rng, 50);
        let fmt = format!("{}", scramble.to_string());

        let non_const = Algorithm::from_str(&fmt);
        let cons: ConstAlgorithm<50> = ConstAlgorithm::from_str(&fmt);

        assert_eq!(scramble, non_const);
        assert_eq!(scramble, cons.to_algorithm());
    }
}

#[test]
fn scramble_has_asked_length_and_no_redundant_neighbours() {
    let mut rng = rand::rng();
    for length in [0usize, 1, 2, 30, 200] {
        let scramble = Algorithm::new_random(&mut rng, length);
        assert_eq!(scramble.twists.len(), length);
        for t in &scramble.twists {
            assert_ne!(t.dir, TurnDir::Identity);
        }
        for pair in scramble.twists.windows(2) {
            let (a, b) = (pair[0].turn, pair[1].turn);
            assert_ne!(a, b);
            assert!(!(a == Turn::D && b == Turn::U));
            assert!(!(a == Turn::L && b == Turn::R));
            assert!(!(a == Turn::B && b == Turn::F));
        }
    }
}

#[test]
fn random_twist_respects_the_face_before() {
    let mut rng = rand::rng();
    for _ in 0..200 {
        let t = Twist::new_random(&mut rng, Some(Turn::D));
        assert!(t.turn != Turn::D && t.turn != Turn::U);
        let t = Twist::new_random(&mut rng, Some(Turn::U));
        assert!(t.turn != Turn::U);
        let t = Twist::new_random(&mut rng, None);
        assert!(Twist::all_twists().contains(&t));
    }
}

#[test]
fn random_twists_are_not_all_the_same() {
    let mut rng = rand::rng();
    let first = Twist::new_random(&mut rng, None);
    let mut other = false;
    for _ in 0..200 {
        if Twist::new_random(&mut rng, None) != first {
            other = true;
        }
    }
    assert!(other);
}
