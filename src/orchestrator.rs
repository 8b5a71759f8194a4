//! The life of one request, as a state machine: each step takes what the
//! outside world reported and says what to do next. Whoever runs it performs
//! the actions (store lookups, page downloads, replies) and feeds back events.
use vstd::prelude::*;

use crate::character_sheet::{CharacterSheet, Entries, ExtractError};
use crate::command::{
    character_sheet_url, sheet_url, BotCommand, CharacterId, CommandView, RequestSource,
    DEFAULT_CHARACTER_ID,
};
use crate::resolver::{check_text, resolved, skill_check, ResolveError, SkillCheckResponse};
use vstd::string::StringExecFns;

verus! {

/// The preference store could not be read or written.
#[derive(Clone, Copy, Debug, PartialEq, Eq, Structural)]
pub struct StoreError;

/// The character a skill check is for: the one the request names, else the
/// one its user stored, else the default. A failed read counts as nothing stored.
pub open spec fn effective_character(
    explicit: Option<CharacterId>,
    stored: Result<Option<CharacterId>, StoreError>,
) -> CharacterId {
    match explicit {
        Some(id) => id,
        None => match stored {
            Ok(Some(id)) => id,
            _ => CharacterId(DEFAULT_CHARACTER_ID),
        },
    }
}

/// Picks the character for a skill check; see `effective_character`.
pub fn choose_character(
    explicit: Option<CharacterId>,
    stored: Result<Option<CharacterId>, StoreError>,
) -> (r: CharacterId)
    ensures
        r == effective_character(explicit, stored),
{
    match explicit {
        Some(id) => id,
        None => match stored {
            Ok(Some(id)) => id,
            _ => CharacterId(DEFAULT_CHARACTER_ID),
        },
    }
}

pub open spec fn download_failure_text(e: ExtractError) -> Seq<char> {
    match e {
        ExtractError::Connection => "Failed to download modifiers: the browser could not be reached."@,
        ExtractError::Timeout => "Failed to download modifiers: the character sheet took too long to load."@,
        ExtractError::Script => "Failed to download modifiers: the page returned no skill list."@,
        ExtractError::Parse => "Failed to download modifiers: the skill list could not be read."@,
    }
}

/// The reply to a sheet that could not be downloaded.
pub fn download_failure_reply(e: ExtractError) -> (r: String)
    ensures
        r@ == download_failure_text(e),
{
    match e {
        ExtractError::Connection => String::from_str(
            "Failed to download modifiers: the browser could not be reached.",
        ),
        ExtractError::Timeout => String::from_str(
            "Failed to download modifiers: the character sheet took too long to load.",
        ),
        ExtractError::Script => String::from_str(
            "Failed to download modifiers: the page returned no skill list.",
        ),
        ExtractError::Parse => String::from_str(
            "Failed to download modifiers: the skill list could not be read.",
        ),
    }
}

pub open spec fn empty_sheet_text() -> Seq<char> {
    "Sorry, boss, the character sheet lists no skills."@
}

pub open spec fn acknowledgement_text() -> Seq<char> {
    "Will do!"@
}

pub open spec fn failure_text() -> Seq<char> {
    "Sorry, boss, I can't do that."@
}

/// The reply to the outcome of a skill check.
pub fn skill_check_reply(outcome: &Result<SkillCheckResponse, ResolveError>) -> (r: String)
    ensures
        r@ == match outcome {
            Ok(c) => check_text(c.skill@, c.modifier as int, c.d20 as int),
            Err(_) => empty_sheet_text(),
        },
{
    match outcome {
        Ok(c) => c.to_reply(),
        Err(_) => String::from_str("Sorry, boss, the character sheet lists no skills."),
    }
}

/// `text` is a reply that a check of `skill` against `sheet` may give: the
/// resolved skill with some roll from 1 to 20, or the empty-sheet reply.
pub open spec fn is_check_reply(sheet: Entries, skill: Seq<char>, text: Seq<char>) -> bool {
    match resolved(sheet, skill) {
        Some(e) => exists|d: int| 1 <= d <= 20 && text == check_text(e.0, e.1 as int, d),
        None => text == empty_sheet_text(),
    }
}

/// Where a request stands.
#[derive(Debug)]
pub enum Stage {
    /// Waiting for the stored default character of the user.
    AwaitingPreference { source: RequestSource, skill: String },
    /// Waiting for the character sheet.
    AwaitingSheet { source: RequestSource, skill: String },
    /// Waiting for the store to keep the user's default character.
    AwaitingStore { source: RequestSource },
    /// Nothing more to do.
    Finished,
}

/// What the runner of a request is to do next.
#[derive(Debug)]
pub enum Action {
    LookUpPreference { user_id: i64 },
    Download { url: String },
    SavePreference { user_id: i64, character_id: CharacterId },
    Reply { source: RequestSource, text: String },
    Nothing,
}

/// What the runner reports back.
#[derive(Debug)]
pub enum Event {
    PreferenceRead(Result<Option<CharacterId>, StoreError>),
    SheetDownloaded(Result<CharacterSheet, ExtractError>),
    PreferenceSaved(Result<(), StoreError>),
}

pub enum StageView {
    AwaitingPreference { source: RequestSource, skill: Seq<char> },
    AwaitingSheet { source: RequestSource, skill: Seq<char> },
    AwaitingStore { source: RequestSource },
    Finished,
}

pub enum ActionView {
    LookUpPreference { user_id: i64 },
    Download { url: Seq<char> },
    SavePreference { user_id: i64, character_id: CharacterId },
    Reply { source: RequestSource, text: Seq<char> },
    Nothing,
}

pub enum EventView {
    PreferenceRead(Result<Option<CharacterId>, StoreError>),
    SheetDownloaded(Result<Entries, ExtractError>),
    PreferenceSaved(Result<(), StoreError>),
}

impl View for Stage {
    type V = StageView;

    open spec fn view(&self) -> StageView {
        match self {
            Stage::AwaitingPreference { source, skill } => StageView::AwaitingPreference {
                source: *source,
                skill: skill@,
            },
            Stage::AwaitingSheet { source, skill } => StageView::AwaitingSheet {
                source: *source,
                skill: skill@,
            },
            Stage::AwaitingStore { source } => StageView::AwaitingStore { source: *source },
            Stage::Finished => StageView::Finished,
        }
    }
}

impl View for Action {
    type V = ActionView;

    open spec fn view(&self) -> ActionView {
        match self {
            Action::LookUpPreference { user_id } => ActionView::LookUpPreference { user_id: *user_id },
            Action::Download { url } => ActionView::Download { url: url@ },
            Action::SavePreference { user_id, character_id } => ActionView::SavePreference {
                user_id: *user_id,
                character_id: *character_id,
            },
            Action::Reply { source, text } => ActionView::Reply { source: *source, text: text@ },
            Action::Nothing => ActionView::Nothing,
        }
    }
}

impl View for Event {
    type V = EventView;

    open spec fn view(&self) -> EventView {
        match self {
            Event::PreferenceRead(p) => EventView::PreferenceRead(*p),
            Event::SheetDownloaded(Ok(sheet)) => EventView::SheetDownloaded(Ok(sheet@)),
            Event::SheetDownloaded(Err(e)) => EventView::SheetDownloaded(Err(*e)),
            Event::PreferenceSaved(s) => EventView::PreferenceSaved(*s),
        }
    }
}

/// The first stage and action of a command.
pub open spec fn start_of(c: CommandView) -> (StageView, ActionView) {
    match c {
        CommandView::SkillCheck { source, skill, character } => match character {
            Some(id) => (
                StageView::AwaitingSheet { source, skill },
                ActionView::Download { url: sheet_url(id) },
            ),
            None => (
                StageView::AwaitingPreference { source, skill },
                ActionView::LookUpPreference { user_id: source.user_id },
            ),
        },
        CommandView::SetCharacter { source, character_id } => (
            StageView::AwaitingStore { source },
            ActionView::SavePreference { user_id: source.user_id, character_id },
        ),
        CommandView::Unknown => (StageView::Finished, ActionView::Nothing),
        CommandView::Error { source, error } => (
            StageView::Finished,
            ActionView::Reply { source, text: error },
        ),
    }
}

/// Starts handling a command.
pub fn begin(cmd: BotCommand) -> (r: (Stage, Action))
    ensures
        (r.0@, r.1@) == start_of(cmd@),
{
    match cmd {
        BotCommand::SkillCheck(q) => match q.character {
            Some(id) => {
                let url = character_sheet_url(id);
                (Stage::AwaitingSheet { source: q.source, skill: q.skill }, Action::Download { url })
            },
            None => {
                let user_id = q.source.user_id;
                (
                    Stage::AwaitingPreference { source: q.source, skill: q.skill },
                    Action::LookUpPreference { user_id },
                )
            },
        },
        BotCommand::SetCharacter(q) => (
            Stage::AwaitingStore { source: q.source },
            Action::SavePreference { user_id: q.source.user_id, character_id: q.character_id },
        ),
        BotCommand::Unknown => (Stage::Finished, Action::Nothing),
        BotCommand::Error { source, error } => (Stage::Finished, Action::Reply { source, text: error }),
    }
}

/// `(s2, a)` is what follows stage `s` on event `e`. An event that the stage
/// does not wait for ends the request without a reply.
pub open spec fn advances_to(s: StageView, e: EventView, s2: StageView, a: ActionView) -> bool {
    match (s, e) {
        (StageView::AwaitingPreference { source, skill }, EventView::PreferenceRead(p)) => {
            &&& s2 == StageView::AwaitingSheet { source, skill }
            &&& a == ActionView::Download { url: sheet_url(effective_character(None, p)) }
        },
        (StageView::AwaitingSheet { source, skill }, EventView::SheetDownloaded(d)) => {
            &&& s2 == StageView::Finished
            &&& a matches ActionView::Reply { source: to, text }
            &&& to == source
            &&& match d {
                Ok(sheet) => is_check_reply(sheet, skill, text),
                Err(err) => text == download_failure_text(err),
            }
        },
        (StageView::AwaitingStore { source }, EventView::PreferenceSaved(w)) => {
            &&& s2 == StageView::Finished
            &&& a == ActionView::Reply {
                source,
                text: if w is Ok { acknowledgement_text() } else { failure_text() },
            }
        },
        _ => s2 == StageView::Finished && a == ActionView::Nothing,
    }
}

/// Takes the next step of a request.
pub fn advance(stage: Stage, event: Event) -> (r: (Stage, Action))
    ensures
        advances_to(stage@, event@, r.0@, r.1@),
{
    match (stage, event) {
        (Stage::AwaitingPreference { source, skill }, Event::PreferenceRead(p)) => {
            let url = character_sheet_url(choose_character(None, p));
            (Stage::AwaitingSheet { source, skill }, Action::Download { url })
        },
        (Stage::AwaitingSheet { source, skill }, Event::SheetDownloaded(d)) => {
            let text = match d {
                Ok(sheet) => {
                    let outcome = skill_check(&sheet, skill.as_str());
                    let t = skill_check_reply(&outcome);
                    proof {
                        if let Ok(c) = outcome {
                            let e = resolved(sheet@, skill@)->0;
                            assert(e == (c.skill@, c.modifier));
                            assert(1 <= c.d20 as int <= 20 && t@ == check_text(e.0, e.1 as int, c.d20 as int));
                        }
                        assert(is_check_reply(sheet@, skill@, t@));
                    }
                    t
                },
                Err(e) => download_failure_reply(e),
            };
            (Stage::Finished, Action::Reply { source, text })
        },
        (Stage::AwaitingStore { source }, Event::PreferenceSaved(w)) => {
            let text = match w {
                Ok(()) => String::from_str("Will do!"),
                Err(_) => String::from_str("Sorry, boss, I can't do that."),
            };
            (Stage::Finished, Action::Reply { source, text })
        },
        _ => (Stage::Finished, Action::Nothing),
    }
}

} // verus!
