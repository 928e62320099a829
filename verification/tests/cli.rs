use rubiks_cube_solver::cli::{
    parse_library_line, split_words, AlgRegistry, Command, CommandKind,
};
use rubiks_cube_solver::cube::algs::Algorithm;

#[test]
fn commands_are_read_by_name() {
    let cases = [
        ("!quit", CommandKind::Quit),
        ("!exit", CommandKind::Quit),
        ("!echo", CommandKind::Echo),
        ("!solve", CommandKind::Solve),
        ("!reset", CommandKind::Reset),
        ("!alg", CommandKind::Alg),
        ("!scramble", CommandKind::Scramble),
    ];
    for (line, kind) in cases {
        let cmd = Command::parse(line).unwrap();
        assert_eq!(cmd.kind, kind);
        assert!(cmd.args.is_empty());
    }
}

#[test]
fn command_arguments_are_the_words_after_the_name() {
    let cmd = Command::parse("!scramble   30  \t fast ").unwrap();
    assert_eq!(cmd.kind, CommandKind::Scramble);
    assert_eq!(cmd.args, vec!["30".to_string(), "fast".to_string()]);

    let cmd = Command::parse("!  echo a b").unwrap();
    assert_eq!(cmd.kind, CommandKind::Echo);
    assert_eq!(cmd.args, vec!["a".to_string(), "b".to_string()]);
}

#[test]
fn lines_that_hold_no_command() {
    assert!(Command::parse("").is_none());
    assert!(Command::parse("solve").is_none());
    assert!(Command::parse("R U R'").is_none());
    assert!(Command::parse("!").is_none());
    assert!(Command::parse("!   ").is_none());
    assert!(Command::parse("!dance").is_none());
    assert!(Command::parse("!Solve").is_none());
    assert!(Command::parse(" !solve").is_none());
}

#[test]
fn words_are_set_apart_by_any_blanks() {
    assert_eq!(split_words("  a bc\u{a0}d\n", 0), vec!["a", "bc", "d"]);
    assert_eq!(split_words("abc", 1), vec!["bc"]);
    assert_eq!(split_words("   ", 0), Vec::<String>::new());
    assert_eq!(split_words("", 0), Vec::<String>::new());
    assert_eq!(split_words("\u{e9}t\u{e9} x", 0), vec!["\u{e9}t\u{e9}", "x"]);
}

#[test]
fn library_lines_hold_a_name_and_an_algorithm() {
    let (name, alg) = parse_library_line("t_perm:R U R' U' R' F R2 U' R' U' R U R' F'").unwrap();
    assert_eq!(name, "t_perm");
    assert_eq!(alg, Algorithm::from_str("R U R' U' R' F R2 U' R' U' R U R' F'"));

    let (name, alg) = parse_library_line(":R2").unwrap();
    assert_eq!(name, "");
    assert_eq!(alg, Algorithm::from_str("R2"));

    let (name, alg) = parse_library_line("empty:").unwrap();
    assert_eq!(name, "empty");
    assert_eq!(alg, Algorithm::new(vec![]));
}

#[test]
fn library_lines_stop_at_a_second_colon() {
    let (name, alg) = parse_library_line("sexy:R U R' U':D D D").unwrap();
    assert_eq!(name, "sexy");
    assert_eq!(alg, Algorithm::from_str("R U R' U'"));
}

#[test]
fn library_lines_without_a_colon_hold_no_entry() {
    assert!(parse_library_line("").is_none());
    assert!(parse_library_line("R U R' U'").is_none());
}

#[test]
fn registry_keeps_algorithms_by_name() {
    let mut registry = AlgRegistry::new();
    assert!(registry.get("t_perm").is_none());
    assert!(registry.insert("t_perm".to_string(), Algorithm::from_str("R U R'")).is_none());
    assert!(registry.insert("sune".to_string(), Algorithm::from_str("R U R' U R U2 R'")).is_none());
    assert_eq!(registry.get("t_perm"), Some(&Algorithm::from_str("R U R'")));
    assert_eq!(registry.get("sune"), Some(&Algorithm::from_str("R U R' U R U2 R'")));
    assert!(registry.get("T_perm").is_none());
    assert!(registry.get("").is_none());
}

#[test]
fn registry_gives_back_what_a_name_held_before() {
    let mut registry = AlgRegistry::new();
    registry.insert("a".to_string(), Algorithm::from_str("R"));
    registry.insert("b".to_string(), Algorithm::from_str("U"));
    let before = registry.insert("a".to_string(), Algorithm::from_str("F2"));
    assert_eq!(before, Some(Algorithm::from_str("R")));
    assert_eq!(registry.get("a"), Some(&Algorithm::from_str("F2")));
    assert_eq!(registry.get("b"), Some(&Algorithm::from_str("U")));
}
