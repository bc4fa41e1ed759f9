use aram_brawl::input::{normalize_input, parse_command, parse_usize, trim, Command};

#[test]
fn input_is_trimmed_and_lowered() {
    assert_eq!(normalize_input("  Q \n"), "q");
    assert_eq!(normalize_input("R2\r\n"), "r2");
    assert_eq!(normalize_input("\t"), "");
    assert_eq!(trim("  a b  "), "a b");
    assert_eq!(trim("\u{3000}가\u{3000}"), "가");
}

#[test]
fn usize_parsing_follows_std() {
    assert_eq!(parse_usize("12"), Some(12));
    assert_eq!(parse_usize("+3"), Some(3));
    assert_eq!(parse_usize("007"), Some(7));
    assert_eq!(parse_usize(""), None);
    assert_eq!(parse_usize("+"), None);
    assert_eq!(parse_usize("-1"), None);
    assert_eq!(parse_usize("1a"), None);
    assert_eq!(parse_usize("18446744073709551615"), Some(usize::MAX));
    assert_eq!(parse_usize("18446744073709551616"), None);
    for s in ["0", "42", "+9", "x", "99999999999999999999"] {
        assert_eq!(parse_usize(s), s.parse::<usize>().ok());
    }
}

#[test]
fn commands() {
    assert_eq!(parse_command("q"), Command::Quit);
    assert_eq!(parse_command("1"), Command::Pick(1));
    assert_eq!(parse_command("+3"), Command::Pick(3));
    assert_eq!(parse_command("r2"), Command::Reroll(2));
    assert_eq!(parse_command("r+1"), Command::Reroll(1));
    assert_eq!(parse_command("4"), Command::Invalid);
    assert_eq!(parse_command("0"), Command::Invalid);
    assert_eq!(parse_command("r0"), Command::Invalid);
    assert_eq!(parse_command("r4"), Command::Invalid);
    assert_eq!(parse_command("qq"), Command::Invalid);
    assert_eq!(parse_command(""), Command::Invalid);
    assert_eq!(parse_command("r"), Command::Invalid);
}

#[test]
fn trim_drops_wide_spaces() {
    assert_eq!(trim("\u{3000} r2 \u{2003}\n"), "r2");
}
