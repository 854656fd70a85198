use pswd_store::parser::{parse, parse_index, Op, WhereClause};

fn words(s: &str) -> Vec<String> {
    s.split_ascii_whitespace().map(String::from).collect()
}

#[test]
fn parses_each_command() {
    assert!(matches!(parse(words("")), Ok(Op::Empty)));
    assert!(matches!(parse(words("add")), Ok(Op::Add)));
    assert!(matches!(parse(words("del 3")), Ok(Op::Del(3))));
    assert!(matches!(parse(words("ls")), Ok(Op::Ls(WhereClause::All))));
    match parse(words("ls foo")) {
        Ok(Op::Ls(WhereClause::Keyword(k))) => assert_eq!(k, "foo"),
        other => panic!("unexpected {:?}", other),
    }
    assert!(matches!(parse(words("mod 2")), Ok(Op::Mod(2, false))));
    assert!(matches!(parse(words("mod 2 -e")), Ok(Op::Mod(2, true))));
    match parse(words("import a.tsv")) {
        Ok(Op::Import(p)) => assert_eq!(p, "a.tsv"),
        other => panic!("unexpected {:?}", other),
    }
    match parse(words("export b.tsv")) {
        Ok(Op::Export(p)) => assert_eq!(p, "b.tsv"),
        other => panic!("unexpected {:?}", other),
    }
    assert!(matches!(parse(words("chpswd")), Ok(Op::ChangePswd)));
    assert!(matches!(parse(words("q")), Ok(Op::Quit)));
}

#[test]
fn wrong_argument_counts_are_reported() {
    assert_eq!(parse(words("add x")).unwrap_err(), "Too many arguments. See usage.");
    assert_eq!(parse(words("del")).unwrap_err(), "Too few arguments");
    assert_eq!(parse(words("del 1 2")).unwrap_err(), "Too many arguments. See usage.");
    assert_eq!(parse(words("ls a b")).unwrap_err(), "Too many arguments. See usage.");
    assert_eq!(parse(words("mod")).unwrap_err(), "Too few arguments");
    assert_eq!(parse(words("mod 1 -x")).unwrap_err(), "Too many arguments. See usage.");
    assert_eq!(parse(words("import")).unwrap_err(), "Too few arguments");
    assert_eq!(parse(words("export a b")).unwrap_err(), "Too many arguments. See usage.");
    assert_eq!(parse(words("q now")).unwrap_err(), "Too many arguments. See usage.");
    assert_eq!(parse(words("frobnicate")).unwrap_err(), "Unknown command");
}

#[test]
fn bad_index_is_an_error_not_a_panic() {
    assert_eq!(parse(words("del x")).unwrap_err(), "Invalid index");
    assert_eq!(parse(words("mod -1 -e")).unwrap_err(), "Invalid index");
}

#[test]
fn index_parsing_matches_std() {
    for s in ["0", "7", "+5", "", "+", "-1", "12a", "007", "18446744073709551615", "18446744073709551616", "99999999999999999999999"] {
        assert_eq!(parse_index(&s.to_string()), s.parse::<usize>().ok(), "input {:?}", s);
    }
}
