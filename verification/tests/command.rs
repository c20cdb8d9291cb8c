use stickercord::command::{
    is_whitespace, parse_discord, parse_telegram, width_of, Argument, DiscordCommand,
    TelegramCommand,
};

/// The name of the command as the standard library finds it.
fn name_by_the_standard_library(content: &str, prefix: char) -> Option<String> {
    let trimmed = content.trim();
    if trimmed.starts_with(prefix) {
        trimmed.split_whitespace().next().map(|x| String::from(&x[1..]))
    } else {
        None
    }
}

/// The rest of the trimmed message from `n` bytes on, where there is one.
fn tail_by_the_standard_library(content: &str, n: usize) -> Option<String> {
    content.trim().get(n..).map(String::from)
}

fn given(argument: &Argument) -> Option<String> {
    match argument {
        Argument::Given(rest) => Some(rest.clone()),
        _ => None,
    }
}

const MESSAGES: [&str; 40] = [
    "", " ", ".", "/", ".s", ".set", ".sticker", ".verify", ".verify abc", "  .verify abc  ",
    ".verify\tabc", ".verify\u{a0}abc", ".verify\u{3000}abc", ".verify  abc def ",
    ".verifyabc", ".verify é", ".sets", ".S", ". s", "s", "..s", ".s extra", "\n.set\n",
    "/help", "/start", "/register", "/register Name#0001", "/register  Name#0001",
    "/register\u{a0}Name#0001", "/register N", "/register é", "/unregister", "/unregister now",
    "/registers", "/helpme", "hello", " /help ", "\u{2003}/start\u{2003}", "/Register x",
    "/register\nName#0001",
];

#[test]
fn white_space_is_what_the_standard_library_calls_so() {
    for code in 0..0x11_0000u32 {
        if let Some(c) = char::from_u32(code) {
            assert_eq!(is_whitespace(c), c.is_whitespace(), "{:x}", code);
        }
    }
}

#[test]
fn width_is_the_length_in_bytes() {
    for code in 0..0x11_0000u32 {
        if let Some(c) = char::from_u32(code) {
            assert_eq!(width_of(c), c.len_utf8(), "{:x}", code);
        }
    }
}

#[test]
fn discord_commands_are_told_apart() {
    assert!(matches!(parse_discord(".set"), DiscordCommand::StickerSet));
    assert!(matches!(parse_discord(".s"), DiscordCommand::Sticker));
    assert!(matches!(parse_discord("  .sticker  "), DiscordCommand::Sticker));
    assert!(matches!(parse_discord(".s and more"), DiscordCommand::Sticker));
    assert!(matches!(parse_discord(".sets"), DiscordCommand::Other));
    assert!(matches!(parse_discord("set"), DiscordCommand::Other));
    assert!(matches!(parse_discord(""), DiscordCommand::Other));
    assert!(matches!(parse_discord("/s"), DiscordCommand::Other));
}

#[test]
fn verify_takes_the_word_behind_it() {
    match parse_discord("  .verify abcDEF123 ") {
        DiscordCommand::Verify(Argument::Given(word)) => assert_eq!(word, "abcDEF123"),
        other => panic!("unexpected command {:?}", other),
    }
    match parse_discord(".verify\ttwo words") {
        DiscordCommand::Verify(Argument::Given(word)) => assert_eq!(word, "two words"),
        other => panic!("unexpected command {:?}", other),
    }
}

#[test]
fn verify_without_a_word_is_broken() {
    assert!(matches!(parse_discord(".verify"), DiscordCommand::Verify(Argument::Broken)));
    assert!(matches!(parse_discord(" .verify "), DiscordCommand::Verify(Argument::Broken)));
    assert!(matches!(
        parse_discord(".verify\u{a0}abc"),
        DiscordCommand::Verify(Argument::Broken)
    ));
}

#[test]
fn telegram_commands_are_told_apart() {
    assert!(matches!(parse_telegram("/help"), TelegramCommand::Help));
    assert!(matches!(parse_telegram(" /start "), TelegramCommand::Help));
    assert!(matches!(parse_telegram("/unregister"), TelegramCommand::Unregister));
    assert!(matches!(parse_telegram("/unregister please"), TelegramCommand::Unregister));
    assert!(matches!(parse_telegram("/helpme"), TelegramCommand::Unknown));
    assert!(matches!(parse_telegram("help"), TelegramCommand::Unknown));
    assert!(matches!(parse_telegram(""), TelegramCommand::Unknown));
    assert!(matches!(parse_telegram(".help"), TelegramCommand::Unknown));
}

#[test]
fn register_takes_the_tag_behind_it() {
    match parse_telegram("/register Name#0001") {
        TelegramCommand::Register(Argument::Given(tag)) => assert_eq!(tag, "Name#0001"),
        other => panic!("unexpected command {:?}", other),
    }
    match parse_telegram("/register N") {
        TelegramCommand::Register(Argument::Given(tag)) => assert_eq!(tag, "N"),
        other => panic!("unexpected command {:?}", other),
    }
    match parse_telegram("/register  Name") {
        TelegramCommand::Register(Argument::Given(tag)) => assert_eq!(tag, " Name"),
        other => panic!("unexpected command {:?}", other),
    }
}

#[test]
fn register_without_a_tag_is_missing_it() {
    assert!(matches!(parse_telegram("/register"), TelegramCommand::Register(Argument::Missing)));
    assert!(matches!(parse_telegram("/register  "), TelegramCommand::Register(Argument::Missing)));
    assert!(matches!(
        parse_telegram("/register\u{a0}Name"),
        TelegramCommand::Register(Argument::Broken)
    ));
    assert!(matches!(
        parse_telegram("/register\u{3000}N"),
        TelegramCommand::Register(Argument::Broken)
    ));
}

#[test]
fn discord_parsing_agrees_with_the_standard_library() {
    for content in MESSAGES {
        let command = parse_discord(content);
        let name = name_by_the_standard_library(content, '.');
        match name.as_deref() {
            Some("set") => assert!(matches!(command, DiscordCommand::StickerSet), "{:?}", content),
            Some("s") | Some("sticker") => {
                assert!(matches!(command, DiscordCommand::Sticker), "{:?}", content)
            },
            Some("verify") => match command {
                DiscordCommand::Verify(argument) => {
                    assert_eq!(given(&argument), tail_by_the_standard_library(content, 8));
                    assert!(!matches!(argument, Argument::Missing));
                },
                other => panic!("unexpected command {:?} for {:?}", other, content),
            },
            _ => assert!(matches!(command, DiscordCommand::Other), "{:?}", content),
        }
    }
}

#[test]
fn telegram_parsing_agrees_with_the_standard_library() {
    for content in MESSAGES {
        let command = parse_telegram(content);
        let name = name_by_the_standard_library(content, '/');
        match name.as_deref() {
            Some("help") | Some("start") => {
                assert!(matches!(command, TelegramCommand::Help), "{:?}", content)
            },
            Some("register") => match command {
                TelegramCommand::Register(argument) => {
                    if content.trim().len() <= 10 {
                        assert!(matches!(argument, Argument::Missing), "{:?}", content);
                    } else {
                        assert!(!matches!(argument, Argument::Missing), "{:?}", content);
                        assert_eq!(given(&argument), tail_by_the_standard_library(content, 10));
                    }
                },
                other => panic!("unexpected command {:?} for {:?}", other, content),
            },
            Some("unregister") => {
                assert!(matches!(command, TelegramCommand::Unregister), "{:?}", content)
            },
            _ => assert!(matches!(command, TelegramCommand::Unknown), "{:?}", content),
        }
    }
}
