use kvs::error::KvsError;
use kvs::network::{ErrorCode, Response};
use kvs::repl_helper::{
    line_action, local_get, local_rm, local_set, parse_command, read_command, remote_get,
    remote_rm, remote_set, LineAction, Mistake, ReplCommand, Saying,
};
use kvs::text::{chars_of, is_whitespace, same_text, trim};

#[test]
fn parses_valid_commands() {
    assert_eq!(
        parse_command("set k v"),
        Some(ReplCommand::Put {
            key: "k",
            value: "v"
        })
    );
    assert_eq!(parse_command("get k"), Some(ReplCommand::Get { key: "k" }));
    assert_eq!(parse_command("rm k"), Some(ReplCommand::Rm { key: "k" }));
    assert_eq!(
        parse_command("  set   k   v  "),
        Some(ReplCommand::Put {
            key: "k",
            value: "v"
        })
    );
}

#[test]
fn rejects_missing_args_and_unknown_commands() {
    assert_eq!(parse_command(""), None);
    assert_eq!(parse_command("set"), None);
    assert_eq!(parse_command("set k"), None);
    assert_eq!(parse_command("get"), None);
    assert_eq!(parse_command("rm"), None);
    assert_eq!(parse_command("nope k"), None);
}

#[test]
fn mistakes_are_named() {
    assert_eq!(read_command(" \t "), Err(Mistake::Nothing));
    assert_eq!(
        read_command("set k"),
        Err(Mistake::Usage("Usage: set <KEY> <VALUE>"))
    );
    assert_eq!(read_command("get"), Err(Mistake::Usage("Usage: get <KEY>")));
    assert_eq!(read_command("rm"), Err(Mistake::Usage("Usage: rm <KEY>")));
    assert_eq!(read_command("nope k"), Err(Mistake::Unknown("nope")));
}

#[test]
fn extra_words_do_not_matter() {
    assert_eq!(
        parse_command("set k v w x"),
        Some(ReplCommand::Put {
            key: "k",
            value: "v"
        })
    );
    assert_eq!(
        parse_command("get k set"),
        Some(ReplCommand::Get { key: "k" })
    );
}

#[test]
fn words_are_split_at_any_white_space() {
    assert_eq!(
        parse_command("\u{3000}set\tключ\u{a0}значение\n"),
        Some(ReplCommand::Put {
            key: "ключ",
            value: "значение"
        })
    );
}

#[test]
fn white_space_is_what_unicode_says() {
    for code in 0..=0x10_ffffu32 {
        if let Some(c) = char::from_u32(code) {
            assert_eq!(is_whitespace(c), c.is_whitespace(), "{code:x}");
        }
    }
}

#[test]
fn text_is_trimmed_at_both_ends() {
    for s in ["", " ", "a", " a", "a ", " \ta b\u{2003}", "\n\n", "ы \u{85}"] {
        assert_eq!(trim(s), s.trim());
        assert_eq!(chars_of(s), s.chars().collect::<Vec<char>>());
    }
    assert!(same_text("ключ", "ключ"));
    assert!(!same_text("ключ", "клич"));
}

#[test]
fn lines_at_the_prompt() {
    assert_eq!(line_action("   "), LineAction::Skip);
    assert_eq!(line_action(" quit\n"), LineAction::Quit);
    assert_eq!(line_action("exit"), LineAction::Quit);
    assert_eq!(line_action("help"), LineAction::Help);
    assert_eq!(
        line_action(" get k "),
        LineAction::Run(ReplCommand::Get { key: "k" })
    );
    assert_eq!(
        line_action("quit now"),
        LineAction::Complain(Mistake::Unknown("quit"))
    );
}

fn line(saying: Saying) -> String {
    match saying {
        Saying::Line(text) => text,
        other => panic!("expected a line, got {other:?}"),
    }
}

#[test]
fn outcomes_of_local_commands() {
    assert_eq!(line(local_set("k", "v", Ok(()))), "SET k = v");
    assert_eq!(line(local_get(Ok(Some("v".to_owned())))), "v");
    assert_eq!(line(local_get(Ok(None))), "Key not found");
    assert_eq!(line(local_rm("k", Ok(()))), "Removed key: k");
    assert!(matches!(
        local_rm("k", Err(KvsError::KeyNotFound)),
        Saying::Failed(KvsError::KeyNotFound)
    ));
    assert!(matches!(
        local_set("k", "v", Err(KvsError::Corruption)),
        Saying::Failed(KvsError::Corruption)
    ));
    assert!(matches!(
        local_get(Err(KvsError::KeyNotFound)),
        Saying::Failed(KvsError::KeyNotFound)
    ));
}

#[test]
fn outcomes_of_remote_commands() {
    assert_eq!(line(remote_set("k", "v", Ok(Response::Done))), "SET k = v");
    assert_eq!(
        line(remote_get(Ok(Response::Value("v".to_owned())))),
        "v"
    );
    assert_eq!(line(remote_get(Err(KvsError::KeyNotFound))), "Key not found");
    assert_eq!(line(remote_rm("k", Ok(Response::Done))), "Removed key: k");
    assert!(matches!(
        remote_rm("k", Err(KvsError::KeyNotFound)),
        Saying::Failed(KvsError::KeyNotFound)
    ));
    assert!(matches!(
        remote_get(Ok(Response::Done)),
        Saying::Unexpected(Response::Done)
    ));
    assert!(matches!(
        remote_set("k", "v", Ok(Response::Error(ErrorCode::Internal))),
        Saying::Unexpected(Response::Error(ErrorCode::Internal))
    ));
}
