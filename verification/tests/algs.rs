use rubiks_cube_solver::cube::algs::{Algorithm, ConstAlgorithm, Turn, TurnDir, Twist};

#[test]
fn alg_simplify() {
    let mut alg = Algorithm::from_str("R R R R");
    alg.simplify();
    assert_eq!(alg, Algorithm::new(vec![]));

    let mut alg = Algorithm::from_str("R L R");
    alg.simplify();
    assert_eq!(alg, Algorithm::from_str("R2 L"));

    let mut alg = Algorithm::from_str("L R R");
    alg.simplify();
    assert_eq!(alg, Algorithm::from_str("L R2"));

    let mut alg = Algorithm::from_str("L F L");
    alg.simplify();
    assert_eq!(alg, Algorithm::from_str("L F L"));
}

#[test]
fn parse_skips_blanks() {
    let alg = Algorithm::from_str("R  U'    F2");
    assert_eq!(
        alg.twists,
        vec![
            Twist::new(Turn::R, TurnDir::One),
            Twist::new(Turn::U, TurnDir::Prime),
            Twist::new(Turn::F, TurnDir::Two),
        ]
    );
}

#[test]
fn faces_are_read_from_their_letters() {
    assert_eq!(Turn::from_char('U'), Some(Turn::U));
    assert_eq!(Turn::from_char('D'), Some(Turn::D));
    assert_eq!(Turn::from_char('F'), Some(Turn::F));
    assert_eq!(Turn::from_char('B'), Some(Turn::B));
    assert_eq!(Turn::from_char('L'), Some(Turn::L));
    assert_eq!(Turn::from_char('R'), Some(Turn::R));
    assert_eq!(Turn::from_char('u'), None);
    assert_eq!(Turn::from_char('2'), None);
    for turn in [Turn::U, Turn::D, Turn::F, Turn::B, Turn::L, Turn::R] {
        assert_eq!(Turn::from_char(turn.to_char()), Some(turn));
    }
}

#[test]
fn directions_are_read_from_their_characters() {
    assert_eq!(TurnDir::from_char('0'), Some(TurnDir::Identity));
    assert_eq!(TurnDir::from_char(' '), Some(TurnDir::One));
    assert_eq!(TurnDir::from_char('1'), Some(TurnDir::One));
    assert_eq!(TurnDir::from_char('2'), Some(TurnDir::Two));
    assert_eq!(TurnDir::from_char('\''), Some(TurnDir::Prime));
    assert_eq!(TurnDir::from_char('3'), Some(TurnDir::Prime));
    assert_eq!(TurnDir::from_char('4'), None);
    assert_eq!(TurnDir::from_char('R'), None);
}

#[test]
fn directions_add_up_modulo_four() {
    assert_eq!(TurnDir::Identity + TurnDir::Two, TurnDir::Two);
    assert_eq!(TurnDir::One + TurnDir::One, TurnDir::Two);
    assert_eq!(TurnDir::One + TurnDir::Prime, TurnDir::Identity);
    assert_eq!(TurnDir::Two + TurnDir::Two, TurnDir::Identity);
    assert_eq!(TurnDir::Two + TurnDir::Prime, TurnDir::One);
    assert_eq!(TurnDir::Prime + TurnDir::Prime, TurnDir::Two);
    assert_eq!(TurnDir::from_u8(7), TurnDir::Prime);
    assert_eq!(TurnDir::from_u8(4), TurnDir::Identity);
    assert_eq!(TurnDir::Prime.as_u8(), 3);
    assert_eq!(TurnDir::Identity.as_u8(), 0);
}

#[test]
fn opposite_faces() {
    assert!(Turn::U.is_opposite(Turn::D));
    assert!(Turn::D.is_opposite(Turn::U));
    assert!(Turn::L.is_opposite(Turn::R));
    assert!(Turn::F.is_opposite(Turn::B));
    assert!(!Turn::U.is_opposite(Turn::U));
    assert!(!Turn::U.is_opposite(Turn::F));
    assert!(!Turn::R.is_opposite(Turn::B));
}

#[test]
fn twists_invert_and_combine() {
    let r = Twist::new(Turn::R, TurnDir::One);
    assert_eq!(r.inverse(), Twist::new(Turn::R, TurnDir::Prime));
    assert_eq!(r.inverse().inverse(), r);
    assert_eq!(Twist::new(Turn::R, TurnDir::Two).inverse(), Twist::new(Turn::R, TurnDir::Two));
    assert_eq!(
        Twist::new(Turn::R, TurnDir::Identity).inverse(),
        Twist::new(Turn::R, TurnDir::Identity)
    );
    assert_eq!(r.try_add(r), Some(Twist::new(Turn::R, TurnDir::Two)));
    assert_eq!(r.try_add(r.inverse()), Some(Twist::new(Turn::R, TurnDir::Identity)));
    assert_eq!(r.try_add(Twist::new(Turn::L, TurnDir::One)), None);
}

#[test]
fn allowed_moves_leave_out_what_would_be_redundant() {
    assert_eq!(Twist::allowed_moves(None), Twist::all_twists().to_vec());
    let after_u = Twist::allowed_moves(Some(Turn::U));
    assert_eq!(after_u.len(), 15);
    assert!(after_u.iter().all(|t| t.turn != Turn::U));
    assert!(after_u.iter().any(|t| t.turn == Turn::D));
    let after_d = Twist::allowed_moves(Some(Turn::D));
    assert_eq!(after_d.len(), 12);
    assert!(after_d.iter().all(|t| t.turn != Turn::U && t.turn != Turn::D));
    let after_l = Twist::allowed_moves(Some(Turn::L));
    assert!(after_l.iter().all(|t| t.turn != Turn::L && t.turn != Turn::R));
    let after_b = Twist::allowed_moves(Some(Turn::B));
    assert!(after_b.iter().all(|t| t.turn != Turn::B && t.turn != Turn::F));
    let few = [Twist::new(Turn::U, TurnDir::One), Twist::new(Turn::F, TurnDir::Two)];
    assert_eq!(
        Twist::allowed_moves_from_moveset(&few, Some(Turn::B)),
        vec![Twist::new(Turn::U, TurnDir::One)]
    );
}

#[test]
fn all_twists_are_eighteen_in_fixed_order() {
    let all = Twist::all_twists();
    assert_eq!(all.len(), 18);
    assert_eq!(all[0], Twist::new(Turn::U, TurnDir::One));
    assert_eq!(all[5], Twist::new(Turn::D, TurnDir::Prime));
    assert_eq!(all[17], Twist::new(Turn::R, TurnDir::Prime));
    assert!(all.iter().all(|t| t.dir != TurnDir::Identity));
}

#[test]
fn algorithms_are_written_with_single_blanks() {
    let alg = Algorithm::new(vec![
        Twist::new(Turn::R, TurnDir::One),
        Twist::new(Turn::U, TurnDir::Prime),
        Twist::new(Turn::F, TurnDir::Two),
        Twist::new(Turn::D, TurnDir::Identity),
    ]);
    assert_eq!(alg.to_string(), "R U' F2 D0");
    assert_eq!(Algorithm::new(vec![]).to_string(), "");
    assert_eq!(Twist::new(Turn::B, TurnDir::Prime).to_string(), "B'");
    assert_eq!(Twist::new(Turn::L, TurnDir::One).to_string(), "L");
}

#[test]
fn reading_undoes_writing() {
    let alg = Algorithm::new(vec![
        Twist::new(Turn::R, TurnDir::One),
        Twist::new(Turn::R, TurnDir::Identity),
        Twist::new(Turn::U, TurnDir::Prime),
        Twist::new(Turn::F, TurnDir::Two),
        Twist::new(Turn::F, TurnDir::Two),
        Twist::new(Turn::D, TurnDir::Identity),
    ]);
    assert_eq!(Algorithm::from_str(&alg.to_string()), alg);
}

#[test]
fn parse_passes_over_what_it_does_not_know() {
    assert_eq!(Algorithm::from_str("2 ' R"), Algorithm::from_str("R"));
    assert_eq!(Algorithm::from_str("(R, U)x y"), Algorithm::from_str("R U"));
    assert_eq!(
        Algorithm::from_str("R'2").twists,
        vec![Twist::new(Turn::R, TurnDir::Two)]
    );
    assert_eq!(
        Algorithm::from_str("R 3").twists,
        vec![Twist::new(Turn::R, TurnDir::Prime)]
    );
    assert_eq!(
        Algorithm::from_str("R\t1\nU0").twists,
        vec![Twist::new(Turn::R, TurnDir::One), Twist::new(Turn::U, TurnDir::Identity)]
    );
    assert_eq!(Algorithm::from_str("").twists, vec![]);
}

#[test]
fn fixed_length_reader_agrees_with_the_other() {
    let text = "R  U'    F2";
    let fixed: ConstAlgorithm<3> = ConstAlgorithm::from_str(text);
    assert_eq!(fixed.to_algorithm(), Algorithm::from_str(text));
    assert_eq!(fixed.twists[1], Twist::new(Turn::U, TurnDir::Prime));
}

#[test]
fn named_algorithms_have_their_twists() {
    assert_eq!(
        ConstAlgorithm::<20>::superflip().to_algorithm(),
        Algorithm::from_str("U R2 F B R B2 R U2 L B2 R U' D' R2 F R' L B2 U2 F2")
    );
    assert_eq!(
        ConstAlgorithm::<14>::j_perm().to_algorithm(),
        Algorithm::from_str("R U R' F' R U R' U' R' F R2 U' R' U'")
    );
    assert_eq!(
        ConstAlgorithm::<14>::t_perm().to_algorithm(),
        Algorithm::from_str("R U R' U' R' F R2 U' R' U' R U R' F'")
    );
    assert_eq!(
        ConstAlgorithm::<11>::ua_perm().to_algorithm(),
        Algorithm::from_str("R U' R U R U R U' R' U' R2")
    );
}

#[test]
fn append_moves_the_twists_over() {
    let mut a = Algorithm::from_str("R U");
    let mut b = Algorithm::from_str("F2 D'");
    a.append(&mut b);
    assert_eq!(a, Algorithm::from_str("R U F2 D'"));
    assert_eq!(b, Algorithm::new(vec![]));
}

#[test]
fn simplify_is_idempotent() {
    for text in [
        "R R R R",
        "R L R",
        "L R R",
        "L F L",
        "U D U' D' F0 F F F B B' L2 R L2",
        "R L R' L' R L",
        "F B F B F B F B",
        "U D U2 D2 U D",
    ] {
        let mut once = Algorithm::from_str(text);
        once.simplify();
        let mut twice = Algorithm::from_str(text);
        twice.simplify();
        twice.simplify();
        assert_eq!(once, twice);
    }
}

#[test]
fn simplify_drops_and_merges() {
    let mut alg = Algorithm::from_str("F0 R0");
    alg.simplify();
    assert_eq!(alg, Algorithm::new(vec![]));

    let mut alg = Algorithm::from_str("U D U'");
    alg.simplify();
    assert_eq!(alg, Algorithm::from_str("D"));

    let mut alg = Algorithm::from_str("U D U' D'");
    alg.simplify();
    assert_eq!(alg, Algorithm::new(vec![]));

    let mut alg = Algorithm::from_str("R2 L R'");
    alg.simplify();
    assert_eq!(alg, Algorithm::from_str("R L"));
}
