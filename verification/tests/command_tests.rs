use rusty_anna::commands::{Command, CommandError, CommandSet, ConfigError};

const CONFIG: &str = r#"
commands:
    greet:
        description: "says hi"
        regex: "^hi$"
        replies:
            - "hello"
            - "hey"
    nothing:
        regex: "^nothing$"
    act:
        regex: "^\\.act$"
        execute: "run"
"#;

fn set(config: &str) -> CommandSet {
    CommandSet::init(Some(config.to_string())).unwrap().unwrap()
}

fn listing_line(name: &str, pattern: &str, description: &str) -> String {
    format!(
        "[b]{:?}[/b]  [code]{:?}[/code]\n{:?}\n",
        name.to_string(),
        regex::Regex::new(pattern).unwrap(),
        description.to_string()
    )
}

#[test]
fn command_needs_replies_or_action() {
    match Command::init(None, "^x$".to_string(), None, None, None, None) {
        Err(CommandError::Incomplete(text)) => {
            assert_eq!(text, "Command ^x$ does not provide either of replies or executor")
        }
        Ok(_) => panic!("a command without replies or action was made"),
    }
}

#[test]
fn command_answers_with_its_replies() {
    let replies = vec!["a".to_string(), "b".to_string()];
    let c = Command::init(
        Some("ab".to_string()),
        "^go".to_string(),
        Some("picks a or b".to_string()),
        Some(replies.clone()),
        None,
        None,
    )
    .unwrap();
    for _ in 0..10 {
        let r = c.check_against("go now".to_string()).unwrap();
        assert!(replies.contains(&r));
        assert!(replies.contains(&c.get_reply()));
    }
    assert_eq!(c.check_against("stop".to_string()), None);
    assert_eq!(c.get_description(), "picks a or b");
    assert_eq!(c.name(), &Some("ab".to_string()));
    assert_eq!(c.regex(), "^go");
}

#[test]
fn command_with_action_is_not_implemented() {
    let c = Command::init(None, "x".to_string(), None, None, Some("hangman.play".to_string()), None)
        .unwrap();
    assert_eq!(c.check_against("xyz".to_string()), Some("not implemented".to_string()));
    assert_eq!(c.check_against("abc".to_string()), None);
    assert_eq!(c.get_description(), "No description specified");
}

#[test]
fn no_configuration_means_no_commands() {
    let s = CommandSet::init(None).unwrap().unwrap();
    assert!(s.commands().is_empty());
    assert_eq!(s.check_against_commands(".help".to_string()), Some(String::new()));
    assert_eq!(s.check_against_commands("hi".to_string()), None);
}

#[test]
fn configuration_is_read_in_order() {
    let s = set(CONFIG);
    let names: Vec<Option<String>> = s.commands().iter().map(|c| c.name().clone()).collect();
    assert_eq!(names, vec![Some("greet".to_string()), Some("act".to_string())]);
    assert_eq!(s.commands()[1].regex(), "^\\.act$");
    assert_eq!(s.commands()[1].execute(), &Some("run".to_string()));
    assert_eq!(
        s.commands()[0].replies(),
        &Some(vec!["hello".to_string(), "hey".to_string()])
    );
}

#[test]
fn help_lists_every_command() {
    let s = set(CONFIG);
    let expected = listing_line("greet", "^hi$", "says hi")
        + &listing_line("act", "^\\.act$", "No description specified");
    assert_eq!(s.check_against_commands(".help".to_string()), Some(expected));
    assert!(s.check_against_commands(".help me".to_string()).is_none());
}

#[test]
fn first_matching_command_answers() {
    let s = set(CONFIG);
    let r = s.check_against_commands("hi".to_string()).unwrap();
    assert!(r == "hello" || r == "hey");
    assert_eq!(s.check_against_commands(".act".to_string()), Some("not implemented".to_string()));
    assert_eq!(s.check_against_commands("nothing".to_string()), None);
    assert!(s.can_answer(&"hi".to_string()));
    assert!(s.can_answer(&".help".to_string()));
}

#[test]
fn not_yaml_is_an_error() {
    match CommandSet::init(Some("commands: [unclosed".to_string())) {
        Err(ConfigError::Yaml(_)) => {}
        _ => panic!("expected a YAML error"),
    }
}

#[test]
fn unusable_configurations_are_refused() {
    let bad_regex = "commands:\n  c:\n    regex: \"(\"\n    replies: [\"x\"]\n";
    assert!(CommandSet::init(Some(bad_regex.to_string())).unwrap().is_none());
    let no_regex = "commands:\n  c:\n    replies: [\"x\"]\n";
    assert!(CommandSet::init(Some(no_regex.to_string())).unwrap().is_none());
    let hangman = "commands:\n  h:\n    regex: \"^.h$\"\n    execute: \"hangman.play\"\n";
    assert!(CommandSet::init(Some(hangman.to_string())).unwrap().is_none());
    let not_a_list = "commands:\n  c:\n    regex: \"x\"\n    replies: \"x\"\n";
    assert!(CommandSet::init(Some(not_a_list.to_string())).unwrap().is_none());
    let no_commands = "other: 1\n";
    assert!(CommandSet::init(Some(no_commands.to_string())).unwrap().is_none());
    // without replies or action an invalid pattern is never compiled
    let skipped = "commands:\n  c:\n    regex: \"(\"\n";
    assert!(set(skipped).commands().is_empty());
}

#[test]
fn unanswerable_texts_are_detected() {
    let nameless = "commands:\n  7:\n    regex: \"^x$\"\n    replies: [\"y\"]\n";
    let s = set(nameless);
    assert_eq!(s.commands()[0].name(), &None);
    assert!(!s.can_answer(&".help".to_string()));
    assert!(s.can_answer(&"x".to_string()));
    assert_eq!(s.check_against_commands("x".to_string()), Some("y".to_string()));
    let empty = "commands:\n  e:\n    regex: \"^x$\"\n    replies: []\n";
    let s2 = set(empty);
    assert!(!s2.can_answer(&"x".to_string()));
    assert!(s2.can_answer(&"z".to_string()));
    assert_eq!(s2.check_against_commands("z".to_string()), None);
}
