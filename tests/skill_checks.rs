use ligmir::character_sheet::{parse_skill_list, CharacterSheet, ExtractError};
use ligmir::command::{
    character_sheet_url, interpret, BotCommand, CharacterId, InboundMessage, ReferenceError,
    RequestSource, DEFAULT_CHARACTER_ID,
};
use ligmir::orchestrator::{advance, begin, choose_character, Action, Event, Stage, StoreError};
use ligmir::resolver::{check_with_roll, closest_index, resolve, roll_d20, ResolveError};
use ligmir::text::{parse_i32, push_decimal, split_on, split_words};

fn source() -> RequestSource {
    RequestSource { chat_id: 10, message_id: 20, user_id: 30 }
}

fn private(text: &str) -> InboundMessage {
    InboundMessage { source: source(), is_private: true, text: Some(text.to_string()) }
}

fn group(text: &str) -> InboundMessage {
    InboundMessage { source: source(), is_private: false, text: Some(text.to_string()) }
}

fn sheet(entries: &[(&str, i32)]) -> CharacterSheet {
    let mut s = CharacterSheet::new();
    for (name, m) in entries {
        s.insert(name.to_string(), *m);
    }
    s
}

#[test]
fn parse_character_id_from_str() {
    let url = "https://www.dndbeyond.com/characters/36535842/";
    assert_eq!(CharacterId::try_from(url).unwrap(), CharacterId(36535842));
}

#[test]
fn character_id_from_profile_url() {
    let url = "https://www.dndbeyond.com/profile/someone42/characters/123";
    assert_eq!(CharacterId::try_from(url), Ok(CharacterId(123)));
}

#[test]
fn character_id_rejects_other_text() {
    assert_eq!(CharacterId::try_from("not-a-url"), Err(ReferenceError::NotASheetUrl));
    assert_eq!(CharacterId::try_from("http://host/characters/1"), Err(ReferenceError::NotASheetUrl));
    assert_eq!(CharacterId::try_from("https://host/characters/"), Err(ReferenceError::NotASheetUrl));
    assert_eq!(CharacterId::try_from("https:///characters/1"), Err(ReferenceError::NotASheetUrl));
    assert_eq!(
        CharacterId::try_from("https://host/profile//characters/1"),
        Err(ReferenceError::NotASheetUrl)
    );
}

#[test]
fn character_id_too_large() {
    let url = "https://host/characters/9223372036854775808";
    assert_eq!(CharacterId::try_from(url), Err(ReferenceError::IdTooLarge));
    let url = "https://host/characters/9223372036854775807";
    assert_eq!(CharacterId::try_from(url), Ok(CharacterId(i64::MAX)));
}

#[test]
fn reference_error_messages() {
    assert_eq!(ReferenceError::NotASheetUrl.message(), "Expected a character sheet URL.");
    assert_eq!(ReferenceError::IdTooLarge.message(), "number too large to fit in target type");
}

#[test]
fn exact_name_resolves_to_itself() {
    let s = sheet(&[("Stealthy", 1), ("Stealth", 4), ("Insight", 2)]);
    assert_eq!(resolve(&s, "Stealth"), Ok(("Stealth".to_string(), 4)));
}

#[test]
fn resolve_returns_a_listed_skill() {
    let s = sheet(&[("Acrobatics", 2), ("Arcana", 0), ("Athletics", 5)]);
    let (name, m) = resolve(&s, "zzz").unwrap();
    assert_eq!(s.get(&name), Some(m));
}

#[test]
fn resolve_is_case_sensitive() {
    let s = sheet(&[("stealth", 1), ("Stealth", 4)]);
    assert_eq!(resolve(&s, "Stealth"), Ok(("Stealth".to_string(), 4)));
    assert_eq!(resolve(&s, "stealth"), Ok(("stealth".to_string(), 1)));
}

#[test]
fn ties_go_to_the_first_listed() {
    let s = sheet(&[("abd", 1), ("abe", 2)]);
    assert_eq!(resolve(&s, "abc"), Ok(("abd".to_string(), 1)));
    let s = sheet(&[("abe", 2), ("abd", 1)]);
    assert_eq!(resolve(&s, "abc"), Ok(("abe".to_string(), 2)));
}

#[test]
fn empty_sheet_fails() {
    let s = CharacterSheet::new();
    assert_eq!(resolve(&s, "Stealth"), Err(ResolveError::EmptySkillList));
    assert_eq!(resolve(&s, ""), Err(ResolveError::EmptySkillList));
}

#[test]
fn transposition_costs_one() {
    // "ab" is two edits from "abcd"; against "ba" a transposition is one edit.
    let s = sheet(&[("abcd", 2), ("ba", 1)]);
    assert_eq!(resolve(&s, "ab"), Ok(("ba".to_string(), 1)));
}

#[test]
fn misspelled_skill_resolves() {
    let s = sheet(&[("Acrobatics", 2), ("Perception", 3), ("Persuasion", -1)]);
    assert_eq!(resolve(&s, "preception"), Ok(("Perception".to_string(), 3)));
}

#[test]
fn closest_index_takes_first_minimum() {
    assert_eq!(closest_index(&vec![]), None);
    assert_eq!(closest_index(&vec![3, 1, 2, 1]), Some(1));
    assert_eq!(closest_index(&vec![0]), Some(0));
}

#[test]
fn check_reply_text() {
    let s = sheet(&[("Stealth", -1)]);
    let c = check_with_roll(&s, "Stelth", 5).unwrap();
    assert_eq!(c.to_reply(), "Stealth check: 🎲5 + -1 = 4");
    let s = sheet(&[("Perception", 3)]);
    let c = check_with_roll(&s, "Perception", 20).unwrap();
    assert_eq!(c.to_reply(), "Perception check: 🎲20 + 3 = 23");
}

#[test]
fn die_roll_covers_one_to_twenty() {
    let mut seen = [false; 20];
    for _ in 0..10_000 {
        let d = roll_d20();
        assert!((1..=20).contains(&d));
        seen[(d - 1) as usize] = true;
    }
    assert!(seen.iter().all(|s| *s));
}

#[test]
fn extraction_text_parses() {
    let s = parse_skill_list("Acrobatics,+2;Stealth,-1").unwrap();
    assert_eq!(s.len(), 2);
    assert_eq!(s.get("Acrobatics"), Some(2));
    assert_eq!(s.get("Stealth"), Some(-1));
    assert_eq!(s.get("Insight"), None);
}

#[test]
fn extraction_row_without_modifier_fails() {
    assert_eq!(parse_skill_list("Acrobatics;Stealth,-1").err(), Some(ExtractError::Parse));
}

#[test]
fn extraction_bad_modifier_fails() {
    assert_eq!(parse_skill_list("Acrobatics,two").err(), Some(ExtractError::Parse));
    assert_eq!(parse_skill_list("Acrobatics,+").err(), Some(ExtractError::Parse));
    assert_eq!(parse_skill_list("Acrobatics, 2").err(), Some(ExtractError::Parse));
    assert_eq!(parse_skill_list("").err(), Some(ExtractError::Parse));
    assert_eq!(parse_skill_list("Acrobatics,2;").err(), Some(ExtractError::Parse));
}

#[test]
fn extraction_extra_fields_are_ignored() {
    let s = parse_skill_list("Stealth,+3,DEX").unwrap();
    assert_eq!(s.get("Stealth"), Some(3));
}

#[test]
fn extraction_later_duplicate_wins() {
    let s = parse_skill_list("Stealth,1;Arcana,0;Stealth,4").unwrap();
    assert_eq!(s.len(), 2);
    assert_eq!(s.get("Stealth"), Some(4));
    assert_eq!(s.name_at(0), "Stealth");
}

#[test]
fn i32_parsing_bounds() {
    assert_eq!(parse_i32("2147483647"), Some(i32::MAX));
    assert_eq!(parse_i32("-2147483648"), Some(i32::MIN));
    assert_eq!(parse_i32("2147483648"), None);
    assert_eq!(parse_i32("+0"), Some(0));
    assert_eq!(parse_i32("-"), None);
    assert_eq!(parse_i32(""), None);
    assert_eq!(parse_i32("1a"), None);
}

#[test]
fn decimal_rendering() {
    let mut s = String::from("x");
    push_decimal(&mut s, i64::MIN);
    assert_eq!(s, "x-9223372036854775808");
    let mut s = String::new();
    push_decimal(&mut s, 0);
    assert_eq!(s, "0");
}

#[test]
fn splitting() {
    assert_eq!(split_on("a,,b", ','), vec!["a", "", "b"]);
    assert_eq!(split_on("", ','), vec![""]);
    assert_eq!(split_words("  /skill \t Sleight  of\nHand "), vec!["/skill", "Sleight", "of", "Hand"]);
    assert!(split_words("   ").is_empty());
}

fn skill_request(cmd: BotCommand) -> (String, Option<CharacterId>) {
    match cmd {
        BotCommand::SkillCheck(q) => {
            assert_eq!(q.source, source());
            (q.skill, q.character)
        },
        other => panic!("expected a skill check, got {:?}", other),
    }
}

#[test]
fn skill_command() {
    let (skill, character) = skill_request(interpret(&private("/skill Stealth"), "@ligmir_bot"));
    assert_eq!(skill, "Stealth");
    assert_eq!(character, None);
}

#[test]
fn skill_command_defaults_to_perception() {
    let (skill, character) = skill_request(interpret(&private("/skill"), "@ligmir_bot"));
    assert_eq!(skill, "Perception");
    assert_eq!(character, None);
}

#[test]
fn skill_command_with_reference() {
    let msg = private("/skill Sleight of Hand https://host/characters/77");
    let (skill, character) = skill_request(interpret(&msg, "@ligmir_bot"));
    assert_eq!(skill, "Sleight of Hand");
    assert_eq!(character, Some(CharacterId(77)));
    let msg = private("/skill https://host/characters/77");
    let (skill, character) = skill_request(interpret(&msg, "@ligmir_bot"));
    assert_eq!(skill, "Perception");
    assert_eq!(character, Some(CharacterId(77)));
}

#[test]
fn group_messages_need_the_handle() {
    assert!(matches!(interpret(&group("/skill Stealth"), "@ligmir_bot"), BotCommand::Unknown));
    let (skill, _) = skill_request(interpret(&group("@ligmir_bot /skill Stealth"), "@ligmir_bot"));
    assert_eq!(skill, "Stealth");
    let (skill, _) = skill_request(interpret(&group("/skill @ligmir_bot Stealth"), "@ligmir_bot"));
    assert_eq!(skill, "Stealth");
}

#[test]
fn character_command() {
    let msg = private("/character https://host/characters/123");
    match interpret(&msg, "@ligmir_bot") {
        BotCommand::SetCharacter(q) => {
            assert_eq!(q.character_id, CharacterId(123));
            assert_eq!(q.source, source());
        },
        other => panic!("unexpected {:?}", other),
    }
}

#[test]
fn character_command_malformed() {
    match interpret(&private("/character not-a-url"), "@ligmir_bot") {
        BotCommand::Error { source: s, error } => {
            assert_eq!(s, source());
            assert!(!error.is_empty());
            assert_eq!(error, "Expected a character sheet URL.");
        },
        other => panic!("unexpected {:?}", other),
    }
    match interpret(&private("/character"), "@ligmir_bot") {
        BotCommand::Error { error, .. } => assert_eq!(error, "Expected a character sheet URL."),
        other => panic!("unexpected {:?}", other),
    }
}

#[test]
fn unrelated_text_is_unknown() {
    assert!(matches!(interpret(&private("hello there"), "@ligmir_bot"), BotCommand::Unknown));
    assert!(matches!(interpret(&private(""), "@ligmir_bot"), BotCommand::Unknown));
    let msg = InboundMessage { source: source(), is_private: true, text: None };
    assert!(matches!(interpret(&msg, "@ligmir_bot"), BotCommand::Unknown));
}

#[test]
fn sheet_url_of_id() {
    assert_eq!(character_sheet_url(CharacterId(36535842)), "https://www.dndbeyond.com/characters/36535842");
}

#[test]
fn sheet_url_reads_back() {
    for id in [0, 7, 36535842, i64::MAX] {
        let url = character_sheet_url(CharacterId(id));
        assert_eq!(CharacterId::try_from(&url), Ok(CharacterId(id)));
    }
}

#[test]
fn character_choice() {
    let stored = Some(CharacterId(5));
    assert_eq!(choose_character(Some(CharacterId(1)), Ok(stored)), CharacterId(1));
    assert_eq!(choose_character(None, Ok(stored)), CharacterId(5));
    assert_eq!(choose_character(None, Ok(None)), CharacterId(DEFAULT_CHARACTER_ID));
    assert_eq!(choose_character(None, Err(StoreError)), CharacterId(DEFAULT_CHARACTER_ID));
}

fn reply_text(action: Action) -> String {
    match action {
        Action::Reply { source: s, text } => {
            assert_eq!(s, source());
            text
        },
        other => panic!("expected a reply, got {:?}", other),
    }
}

fn digits(s: &str) -> i32 {
    s.parse().unwrap()
}

#[test]
fn end_to_end_with_explicit_reference() {
    let cmd = interpret(&private("/skill preception https://host/characters/123"), "@ligmir_bot");
    let (stage, action) = begin(cmd);
    match action {
        Action::Download { url } => assert_eq!(url, "https://www.dndbeyond.com/characters/123"),
        other => panic!("unexpected {:?}", other),
    }
    let page = parse_skill_list("Perception,+3").unwrap();
    let (stage, action) = advance(stage, Event::SheetDownloaded(Ok(page)));
    assert!(matches!(stage, Stage::Finished));
    let text = reply_text(action);
    let rest = text.strip_prefix("Perception check: 🎲").unwrap();
    let (die, rest) = rest.split_once(" + 3 = ").unwrap();
    let (die, total) = (digits(die), digits(rest));
    assert!((1..=20).contains(&die));
    assert_eq!(total, die + 3);
}

#[test]
fn stored_preference_is_used() {
    let (stage, action) = begin(interpret(&private("/skill Stealth"), "@ligmir_bot"));
    assert!(matches!(action, Action::LookUpPreference { user_id: 30 }));
    let (stage, action) = advance(stage, Event::PreferenceRead(Ok(Some(CharacterId(9)))));
    match action {
        Action::Download { url } => assert_eq!(url, "https://www.dndbeyond.com/characters/9"),
        other => panic!("unexpected {:?}", other),
    }
    assert!(matches!(stage, Stage::AwaitingSheet { .. }));
}

#[test]
fn failed_preference_read_falls_back_to_default() {
    let (stage, _) = begin(interpret(&private("/skill Stealth"), "@ligmir_bot"));
    let (_, action) = advance(stage, Event::PreferenceRead(Err(StoreError)));
    match action {
        Action::Download { url } => assert_eq!(url, "https://www.dndbeyond.com/characters/36535842"),
        other => panic!("unexpected {:?}", other),
    }
}

#[test]
fn download_timeout_replies_once() {
    let stage = Stage::AwaitingSheet { source: source(), skill: "Stealth".to_string() };
    let (stage, action) = advance(stage, Event::SheetDownloaded(Err(ExtractError::Timeout)));
    assert!(reply_text(action).starts_with("Failed to download modifiers"));
    let (_, action) = advance(stage, Event::SheetDownloaded(Err(ExtractError::Timeout)));
    assert!(matches!(action, Action::Nothing));
}

#[test]
fn every_download_failure_has_a_reply() {
    for e in [ExtractError::Connection, ExtractError::Timeout, ExtractError::Script, ExtractError::Parse] {
        let stage = Stage::AwaitingSheet { source: source(), skill: "Stealth".to_string() };
        let (_, action) = advance(stage, Event::SheetDownloaded(Err(e)));
        assert!(reply_text(action).starts_with("Failed to download modifiers"));
    }
}

#[test]
fn empty_sheet_reply() {
    let stage = Stage::AwaitingSheet { source: source(), skill: "Stealth".to_string() };
    let (_, action) = advance(stage, Event::SheetDownloaded(Ok(CharacterSheet::new())));
    assert_eq!(reply_text(action), "Sorry, boss, the character sheet lists no skills.");
}

#[test]
fn set_character_flow() {
    let cmd = interpret(&private("/character https://host/characters/123"), "@ligmir_bot");
    let (stage, action) = begin(cmd);
    assert!(matches!(
        action,
        Action::SavePreference { user_id: 30, character_id: CharacterId(123) }
    ));
    let (_, action) = advance(stage, Event::PreferenceSaved(Ok(())));
    assert_eq!(reply_text(action), "Will do!");
    let (stage, _) = begin(interpret(&private("/character https://host/characters/1"), "@b"));
    let (_, action) = advance(stage, Event::PreferenceSaved(Err(StoreError)));
    assert_eq!(reply_text(action), "Sorry, boss, I can't do that.");
}

#[test]
fn malformed_and_unknown_commands() {
    let (stage, action) = begin(interpret(&private("/character nope"), "@b"));
    assert!(matches!(stage, Stage::Finished));
    assert_eq!(reply_text(action), "Expected a character sheet URL.");
    let (stage, action) = begin(interpret(&private("good morning"), "@b"));
    assert!(matches!(stage, Stage::Finished));
    assert!(matches!(action, Action::Nothing));
}

#[test]
fn health_is_ok() {
    assert_eq!(ligmir::health(), "OK");
}
