use session_switch::action::{handle_command, resolve, Layout, SwitchAction};
use session_switch::args::Arg;
use session_switch::command::{
    flag_of, is_reserved_word, parse, parse_index, parse_words, split_command, Flag,
    ParsedCommand,
};
use session_switch::roster::SessionRegistry;

fn roster_of(list: &[&str]) -> SessionRegistry {
    let mut r = SessionRegistry::new();
    r.reconcile(&list.iter().map(|s| s.to_string()).collect());
    r
}

fn some(s: &str) -> Option<String> {
    Some(s.to_string())
}

#[test]
fn reserved_word_is_no_target() {
    let c = parse("session-select --layout foo").unwrap();
    assert_eq!(c.target, None);
    assert_eq!(c.layout, some("foo"));
    assert_eq!(c.cwd, None);
}

#[test]
fn index_with_layout_and_cwd() {
    let r = roster_of(&["a", "b", "c"]);
    let action = handle_command("1 --layout work --cwd /tmp", &r);
    assert_eq!(
        action,
        Some(SwitchAction {
            name: "b".to_string(),
            layout: Layout::Named("work".to_string()),
            cwd: some("/tmp"),
        })
    );
}

#[test]
fn index_past_empty_roster_is_no_op() {
    let r = SessionRegistry::new();
    assert_eq!(handle_command("2", &r), None);
}

#[test]
fn explicit_target_by_name() {
    let r = SessionRegistry::new();
    assert_eq!(
        handle_command("--target myroom", &r),
        Some(SwitchAction { name: "myroom".to_string(), layout: Layout::Default, cwd: None })
    );
}

#[test]
fn flag_without_value_is_no_op() {
    let r = roster_of(&["a", "b"]);
    assert!(parse("--layout").is_err());
    assert_eq!(handle_command("--layout", &r), None);
    assert_eq!(r.names(), vec!["a".to_string(), "b".to_string()]);
}

#[test]
fn short_flags_take_values() {
    let c = parse("-l work -c /srv name").unwrap();
    assert_eq!(c, ParsedCommand { target: some("name"), cwd: some("/srv"), layout: some("work") });
}

#[test]
fn first_bare_word_wins() {
    let c = parse("alpha beta").unwrap();
    assert_eq!(c.target, some("alpha"));
}

#[test]
fn target_flag_overrides_bare_word() {
    let c = parse("alpha --target beta").unwrap();
    assert_eq!(c.target, some("beta"));
}

#[test]
fn reserved_index_word_is_skipped() {
    let c = parse("session-index 2").unwrap();
    assert_eq!(c.target, some("2"));
}

#[test]
fn unknown_flags_are_ignored() {
    let c = parse("--verbose -x room").unwrap();
    assert_eq!(c.target, some("room"));
}

#[test]
fn quoted_words_stay_whole() {
    let c = parse("'my room' --cwd \"/a b\"").unwrap();
    assert_eq!(c.target, some("my room"));
    assert_eq!(c.cwd, some("/a b"));
}

#[test]
fn unclosed_quote_gives_no_words() {
    assert_eq!(split_command("'open"), Vec::<String>::new());
    let c = parse("'open").unwrap();
    assert_eq!(c, ParsedCommand::new());
    assert_eq!(handle_command("'open", &SessionRegistry::new()), None);
}

#[test]
fn split_command_cuts_words() {
    assert_eq!(split_command("a 'b c'  d"), vec!["a".to_string(), "b c".to_string(), "d".to_string()]);
    assert_eq!(split_command(""), Vec::<String>::new());
}

#[test]
fn parse_words_reads_given_words() {
    let c = parse_words(vec!["--cwd".to_string(), "/x".to_string(), "room".to_string()]).unwrap();
    assert_eq!(c, ParsedCommand { target: some("room"), cwd: some("/x"), layout: None });
    assert!(parse_words(vec!["-c".to_string()]).is_err());
}

#[test]
fn joined_values_are_read() {
    let c = parse("--layout=work -c/tmp room").unwrap();
    assert_eq!(c, ParsedCommand { target: some("room"), cwd: some("/tmp"), layout: some("work") });
}

#[test]
fn joined_value_on_unknown_long_flag_is_dropped() {
    let c = parse("--verbose=yes room").unwrap();
    assert_eq!(c, ParsedCommand { target: some("room"), cwd: None, layout: None });
}

#[test]
fn joined_value_on_unknown_short_flag_is_error() {
    assert!(parse("-x=1 room").is_err());
}

#[test]
fn reserved_then_first_word_wins() {
    let c = parse("session-index a b").unwrap();
    assert_eq!(c, ParsedCommand { target: some("a"), cwd: None, layout: None });
}

#[test]
fn target_flag_overrides_and_later_words_ignored() {
    let c = parse("a --target b c").unwrap();
    assert_eq!(c.target, some("b"));
}

#[test]
fn double_dash_makes_words_positional() {
    let c = parse("-- -c x").unwrap();
    assert_eq!(c, ParsedCommand { target: some("-c"), cwd: None, layout: None });
}

#[test]
fn short_group_value_is_rest_of_group() {
    let c = parse("-lwork -cl x").unwrap();
    assert_eq!(c, ParsedCommand { target: some("x"), cwd: some("l"), layout: some("work") });
}

#[test]
fn no_words_give_empty_command() {
    assert_eq!(parse_words(Vec::new()).unwrap(), ParsedCommand::new());
    assert_eq!(parse("").unwrap(), ParsedCommand::new());
}

#[test]
fn plain_word_gives_action_for_it() {
    let r = roster_of(&["a"]);
    assert_eq!(
        handle_command("elsewhere", &r),
        Some(SwitchAction { name: "elsewhere".to_string(), layout: Layout::Default, cwd: None })
    );
}

#[test]
fn index_payload_picks_roster_name() {
    let r = roster_of(&["a", "b", "c"]);
    assert_eq!(handle_command("2", &r).map(|a| a.name), some("c"));
    assert_eq!(handle_command("3", &r), None);
    assert_eq!(handle_command("session-select --layout foo", &r), None);
}

#[test]
fn index_text_readings() {
    assert_eq!(parse_index("0"), Some(0));
    assert_eq!(parse_index("42"), Some(42));
    assert_eq!(parse_index("+7"), Some(7));
    assert_eq!(parse_index("007"), Some(7));
    assert_eq!(parse_index("18446744073709551615"), Some(usize::MAX));
    assert_eq!(parse_index("18446744073709551616"), None);
    assert_eq!(parse_index("-1"), None);
    assert_eq!(parse_index("+"), None);
    assert_eq!(parse_index(""), None);
    assert_eq!(parse_index("1a"), None);
    assert_eq!(parse_index(" 1"), None);
}

#[test]
fn index_reading_agrees_with_std() {
    for s in ["0", "9", "+12", "-3", "", "+", "12x", "99999999999999999999", "0042"] {
        assert_eq!(parse_index(s), s.parse::<usize>().ok());
    }
}

#[test]
fn flags_are_recognised() {
    assert_eq!(flag_of(&Arg::Long("target".to_string())), Some(Flag::Target));
    assert_eq!(flag_of(&Arg::Long("cwd".to_string())), Some(Flag::Cwd));
    assert_eq!(flag_of(&Arg::Long("layout".to_string())), Some(Flag::Layout));
    assert_eq!(flag_of(&Arg::Short('c')), Some(Flag::Cwd));
    assert_eq!(flag_of(&Arg::Short('l')), Some(Flag::Layout));
    assert_eq!(flag_of(&Arg::Short('t')), None);
    assert_eq!(flag_of(&Arg::Long("other".to_string())), None);
    assert_eq!(flag_of(&Arg::Value("cwd".to_string())), None);
}

#[test]
fn reserved_words() {
    assert!(is_reserved_word(&"session-select".to_string()));
    assert!(is_reserved_word(&"session-index".to_string()));
    assert!(!is_reserved_word(&"session".to_string()));
}

#[test]
fn set_flag_and_add_word() {
    let mut c = ParsedCommand::new();
    c.add_word("session-select".to_string());
    assert_eq!(c.target, None);
    c.add_word("one".to_string());
    c.add_word("two".to_string());
    assert_eq!(c.target, some("one"));
    c.set_flag(Flag::Target, "three".to_string());
    c.set_flag(Flag::Layout, "l".to_string());
    c.set_flag(Flag::Cwd, "/d".to_string());
    assert_eq!(c, ParsedCommand { target: some("three"), cwd: some("/d"), layout: some("l") });
}

#[test]
fn resolve_without_target_is_none() {
    let r = roster_of(&["a"]);
    assert_eq!(resolve(&ParsedCommand::new(), &r), None);
}

#[test]
fn resolve_name_not_in_roster_is_taken_as_is() {
    let r = roster_of(&["a"]);
    let c = ParsedCommand { target: some("zz"), cwd: None, layout: some("dev") };
    assert_eq!(
        resolve(&c, &r),
        Some(SwitchAction { name: "zz".to_string(), layout: Layout::Named("dev".to_string()), cwd: None })
    );
}

#[test]
fn layout_file_names() {
    assert_eq!(Layout::Default.file_name(), "default".to_string());
    assert_eq!(Layout::Named("work".to_string()).file_name(), "work.kdl".to_string());
}
