//! Reading chat messages: character-sheet references and bot commands.
use vstd::prelude::*;

use crate::text::{
    chars_of, decimal, digits_of, digits_value, has_prefix_at, lemma_digits_round_trip, lemma_run_len,
    push_decimal, read_i64_digits, run_end, run_len, same_text,
    split_words, starts_with, string_views, words, CharClass,
};
use vstd::string::StringExecFns;

verus! {

/// The numeric identifier of a character sheet.
#[derive(Clone, Copy, Debug, PartialEq, Eq, Structural)]
pub struct CharacterId(pub i64);

/// The character used when a request names none and its user stored none.
pub const DEFAULT_CHARACTER_ID: i64 = 36535842;

/// Why a text is not a character-sheet reference.
#[derive(Clone, Copy, Debug, PartialEq, Eq, Structural)]
pub enum ReferenceError {
    /// The text is not a character-sheet URL.
    NotASheetUrl,
    /// The identifier in the URL does not fit an `i64`.
    IdTooLarge,
}

impl ReferenceError {
    pub open spec fn spec_message(self) -> Seq<char> {
        match self {
            ReferenceError::NotASheetUrl => "Expected a character sheet URL."@,
            ReferenceError::IdTooLarge => "number too large to fit in target type"@,
        }
    }

    /// The text shown to the user.
    pub fn message(&self) -> (r: String)
        ensures
            r@ == self.spec_message(),
    {
        match self {
            ReferenceError::NotASheetUrl => String::from_str("Expected a character sheet URL."),
            ReferenceError::IdTooLarge => String::from_str("number too large to fit in target type"),
        }
    }
}

/// What follows the host part of a sheet URL, up to the identifier:
/// `characters/`, or `profile/<name>/characters/` with an ASCII letter-and-digit
/// name. Gives the text after it.
pub open spec fn after_characters(path: Seq<char>) -> Option<Seq<char>> {
    if starts_with(path, "characters/"@) {
        Some(path.skip("characters/"@.len() as int))
    } else if starts_with(path, "profile/"@) {
        let q = path.skip("profile/"@.len() as int);
        let a = run_len(q, CharClass::Alnum) as int;
        if a > 0 && starts_with(q.skip(a), "/characters/"@) {
            Some(q.skip(a + "/characters/"@.len()))
        } else {
            None
        }
    } else {
        None
    }
}

/// The digits of the identifier in a character-sheet URL:
/// `https://<host>/[profile/<name>/]characters/<digits>`, with anything after
/// the digits. The host is not empty and holds no `/`.
pub open spec fn sheet_id_digits(u: Seq<char>) -> Option<Seq<char>> {
    if !starts_with(u, "https://"@) {
        None
    } else {
        let rest = u.skip("https://"@.len() as int);
        let h = run_len(rest, CharClass::NotSlash) as int;
        if h == 0 || h >= rest.len() {
            None
        } else {
            match after_characters(rest.skip(h + 1)) {
                Some(tail) => {
                    let n = run_len(tail, CharClass::Digit) as int;
                    if n > 0 {
                        Some(tail.take(n))
                    } else {
                        None
                    }
                },
                None => None,
            }
        }
    }
}

/// The reference that the text `u` gives.
pub open spec fn reference_of(u: Seq<char>) -> Result<CharacterId, ReferenceError> {
    match sheet_id_digits(u) {
        Some(d) => if digits_value(d) <= i64::MAX {
            Ok(CharacterId(digits_value(d) as i64))
        } else {
            Err(ReferenceError::IdTooLarge)
        },
        None => Err(ReferenceError::NotASheetUrl),
    }
}

impl CharacterId {
    /// Reads the character identifier out of a character-sheet URL.
    pub fn try_from(url: &str) -> (r: Result<CharacterId, ReferenceError>)
        ensures
            r == reference_of(url@),
    {
        let cs = chars_of(url);
        let n = cs.len();
        proof {
            reveal_strlit("https://");
            reveal_strlit("characters/");
            reveal_strlit("profile/");
            reveal_strlit("/characters/");
        }
        if !has_prefix_at(&cs, 0, "https://") {
            proof {
                assert(cs@.skip(0) =~= url@);
            }
            return Err(ReferenceError::NotASheetUrl);
        }
        let ghost u = url@;
        let ghost rest = u.skip(8);
        assert(cs@.skip(0) =~= u);
        let h = run_end(&cs, 8, CharClass::NotSlash);
        if h == 8 || h >= n {
            return Err(ReferenceError::NotASheetUrl);
        }
        let p = h + 1;
        proof {
            assert(rest.skip(h - 8 + 1) =~= cs@.skip(p as int));
        }
        let ghost path = cs@.skip(p as int);
        let t: usize;
        if has_prefix_at(&cs, p, "characters/") {
            t = p + 11;
            assert(path.skip(11) =~= cs@.skip(t as int));
        } else if has_prefix_at(&cs, p, "profile/") {
            let q = p + 8;
            let a = run_end(&cs, q, CharClass::Alnum);
            proof {
                assert(path.skip(8) =~= cs@.skip(q as int));
                assert(path.skip(8).skip(a - q) =~= cs@.skip(a as int));
            }
            if a > q && has_prefix_at(&cs, a, "/characters/") {
                t = a + 12;
                assert(path.skip(8).skip(a - q + 12) =~= cs@.skip(t as int));
            } else {
                return Err(ReferenceError::NotASheetUrl);
            }
        } else {
            return Err(ReferenceError::NotASheetUrl);
        }
        let e = run_end(&cs, t, CharClass::Digit);
        if e == t {
            return Err(ReferenceError::NotASheetUrl);
        }
        proof {
            assert(cs@.skip(t as int).take(e - t) =~= cs@.subrange(t as int, e as int));
        }
        match read_i64_digits(&cs, t, e) {
            Some(v) => Ok(CharacterId(v)),
            None => {
                proof {
                    let d = cs@.subrange(t as int, e as int);
                    assert forall|j: int| 0 <= j < d.len() implies crate::text::is_digit(#[trigger] d[j]) by {
                        crate::text::lemma_run_prefix(cs@.skip(t as int), CharClass::Digit, j);
                        assert(d[j] == cs@.skip(t as int)[j]);
                    }
                }
                Err(ReferenceError::IdTooLarge)
            },
        }
    }
}

/// The page of a character sheet.
pub open spec fn sheet_url(id: CharacterId) -> Seq<char> {
    "https://www.dndbeyond.com/characters/"@ + decimal(id.0 as int)
}

/// The address of the page of character `id`.
pub fn character_sheet_url(id: CharacterId) -> (r: String)
    ensures
        r@ == sheet_url(id),
{
    let mut out = String::from_str("https://www.dndbeyond.com/characters/");
    push_decimal(&mut out, id.0);
    out
}

/// The page address of a character reads back as that character.
pub proof fn lemma_sheet_url_round_trip(id: CharacterId)
    requires
        id.0 >= 0,
    ensures
        reference_of(sheet_url(id)) == Ok::<CharacterId, ReferenceError>(id),
{
    let d = digits_of(id.0 as nat);
    lemma_digits_round_trip(id.0 as nat);
    reveal_strlit("https://www.dndbeyond.com/characters/");
    reveal_strlit("https://");
    reveal_strlit("characters/");
    let p = "https://www.dndbeyond.com/characters/"@;
    let u = sheet_url(id);
    assert(u == p + d);
    assert(u.take(8) =~= "https://"@);
    let rest = u.skip(8);
    assert forall|t: int| 0 <= t < 17 implies CharClass::NotSlash.spec_has(#[trigger] rest[t]) by {
        assert(rest[t] == p[8 + t]);
    }
    assert(rest[17] == '/');
    lemma_run_len(rest, CharClass::NotSlash, 17);
    let path = rest.skip(18);
    assert(path =~= "characters/"@ + d);
    assert(path.take(11) =~= "characters/"@);
    let tail = path.skip(11);
    assert(tail =~= d);
    lemma_run_len(tail, CharClass::Digit, d.len() as int);
    assert(tail.take(d.len() as int) =~= d);
}

/// Where a reply goes: the chat, the message it answers, and the user whose
/// stored preference applies.
#[derive(Clone, Copy, Debug, PartialEq, Eq, Structural)]
pub struct RequestSource {
    pub chat_id: i64,
    pub message_id: i64,
    pub user_id: i64,
}

/// An inbound chat message, as plain values.
#[derive(Debug)]
pub struct InboundMessage {
    pub source: RequestSource,
    /// Sent in a private chat with the bot.
    pub is_private: bool,
    /// The text of the message; none for a message that is not text.
    pub text: Option<String>,
}

impl InboundMessage {
    pub open spec fn text_view(&self) -> Option<Seq<char>> {
        match self.text {
            Some(t) => Some(t@),
            None => None,
        }
    }
}

/// A request for a skill check.
#[derive(Debug)]
pub struct SkillCheckRequest {
    pub source: RequestSource,
    pub skill: String,
    /// The character named in the request itself, if any.
    pub character: Option<CharacterId>,
}

/// A request to store a user's default character.
#[derive(Clone, Copy, Debug)]
pub struct SetCharacterRequest {
    pub source: RequestSource,
    pub character_id: CharacterId,
}

/// What an inbound message asks for.
#[derive(Debug)]
pub enum BotCommand {
    SkillCheck(SkillCheckRequest),
    SetCharacter(SetCharacterRequest),
    /// Not a command for this bot: nothing is answered.
    Unknown,
    /// A command that could not be read; `error` is the reply.
    Error { source: RequestSource, error: String },
}

/// A command as plain mathematical values.
pub enum CommandView {
    SkillCheck { source: RequestSource, skill: Seq<char>, character: Option<CharacterId> },
    SetCharacter { source: RequestSource, character_id: CharacterId },
    Unknown,
    Error { source: RequestSource, error: Seq<char> },
}

impl View for BotCommand {
    type V = CommandView;

    open spec fn view(&self) -> CommandView {
        match self {
            BotCommand::SkillCheck(q) => CommandView::SkillCheck {
                source: q.source,
                skill: q.skill@,
                character: q.character,
            },
            BotCommand::SetCharacter(q) => CommandView::SetCharacter {
                source: q.source,
                character_id: q.character_id,
            },
            BotCommand::Unknown => CommandView::Unknown,
            BotCommand::Error { source, error } => CommandView::Error {
                source: *source,
                error: error@,
            },
        }
    }
}

/// Words joined with single spaces.
pub open spec fn join_words(ws: Seq<Seq<char>>) -> Seq<char>
    decreases ws.len(),
{
    if ws.len() == 0 {
        Seq::empty()
    } else if ws.len() == 1 {
        ws[0]
    } else {
        join_words(ws.drop_last()) + seq![' '] + ws.last()
    }
}

/// The words of a message, without the bot's handle.
pub open spec fn command_words(t: Seq<char>, handle: Seq<char>) -> Seq<Seq<char>> {
    words(t).filter(|w: Seq<char>| w != handle)
}

/// A skill check with arguments `args`: a last argument that is a sheet URL
/// names the character; the words before it name the skill, "Perception"
/// when there are none.
pub open spec fn skill_check_view(source: RequestSource, args: Seq<Seq<char>>) -> CommandView {
    let explicit = args.len() > 0 && reference_of(args.last()) is Ok;
    let rest = if explicit { args.drop_last() } else { args };
    CommandView::SkillCheck {
        source,
        skill: if rest.len() == 0 { "Perception"@ } else { join_words(rest) },
        character: if explicit { Some(reference_of(args.last())->Ok_0) } else { None },
    }
}

/// A request to store the character named by the first argument.
pub open spec fn set_character_view(source: RequestSource, args: Seq<Seq<char>>) -> CommandView {
    if args.len() == 0 {
        CommandView::Error { source, error: ReferenceError::NotASheetUrl.spec_message() }
    } else {
        match reference_of(args[0]) {
            Ok(id) => CommandView::SetCharacter { source, character_id: id },
            Err(e) => CommandView::Error { source, error: e.spec_message() },
        }
    }
}

/// The command that a message asks for. A message counts when it is private
/// or names the bot's handle as a word; its first other word is the command.
pub open spec fn command_of(
    source: RequestSource,
    is_private: bool,
    text: Option<Seq<char>>,
    handle: Seq<char>,
) -> CommandView {
    match text {
        None => CommandView::Unknown,
        Some(t) => {
            let ws = command_words(t, handle);
            if !(is_private || words(t).contains(handle)) || ws.len() == 0 {
                CommandView::Unknown
            } else if ws[0] == "/skill"@ {
                skill_check_view(source, ws.skip(1))
            } else if ws[0] == "/character"@ {
                set_character_view(source, ws.skip(1))
            } else {
                CommandView::Unknown
            }
        },
    }
}

/// `ws[from..to]` joined with single spaces.
fn join_range(ws: &Vec<String>, from: usize, to: usize) -> (r: String)
    requires
        from < to <= ws@.len(),
    ensures
        r@ == join_words(string_views(ws@).subrange(from as int, to as int)),
{
    let ghost v = string_views(ws@);
    let mut out = ws[from].clone();
    proof {
        assert(v.subrange(from as int, from as int + 1).len() == 1);
    }
    let mut i: usize = from + 1;
    while i < to
        invariant
            v == string_views(ws@),
            from < i <= to <= ws@.len(),
            out@ == join_words(v.subrange(from as int, i as int)),
        decreases to - i,
    {
        proof {
            reveal_strlit(" ");
            let s = v.subrange(from as int, i as int + 1);
            assert(s.drop_last() =~= v.subrange(from as int, i as int));
        }
        out.append(" ");
        out.append(ws[i].as_str());
        i = i + 1;
    }
    out
}

/// Reads an inbound message as a command for the bot whose handle is
/// `bot_handle`.
pub fn interpret(msg: &InboundMessage, bot_handle: &str) -> (r: BotCommand)
    ensures
        r@ == command_of(msg.source, msg.is_private, msg.text_view(), bot_handle@),
{
    let text = match &msg.text {
        None => {
            return BotCommand::Unknown;
        },
        Some(t) => t,
    };
    let all = split_words(text.as_str());
    let ghost av = string_views(all@);
    let ghost keep = |w: Seq<char>| w != bot_handle@;
    let mut addressed = msg.is_private;
    let mut ws: Vec<String> = Vec::new();
    let mut i: usize = 0;
    while i < all.len()
        invariant
            av == string_views(all@),
            av == crate::text::words(text@),
            keep == (|w: Seq<char>| w != bot_handle@),
            i <= all@.len(),
            string_views(ws@) == av.take(i as int).filter(keep),
            addressed == (msg.is_private || av.take(i as int).contains(bot_handle@)),
        decreases all@.len() - i,
    {
        let ghost before = ws@;
        proof {
            let t = av.take(i as int + 1);
            assert(t.drop_last() =~= av.take(i as int));
            assert(t.last() == all@[i as int]@);
            reveal(Seq::filter);
            assert(t.filter(keep) == if keep(t.last()) {
                t.drop_last().filter(keep).push(t.last())
            } else {
                t.drop_last().filter(keep)
            });
            if av.take(i as int).contains(bot_handle@) {
                let j = choose|j: int| 0 <= j < i && av.take(i as int)[j] == bot_handle@;
                assert(t[j] == bot_handle@);
            }
            if t.contains(bot_handle@) && t.last() != bot_handle@ {
                let j = choose|j: int| 0 <= j < i + 1 && t[j] == bot_handle@;
                assert(av.take(i as int)[j] == bot_handle@);
            }
        }
        if same_text(all[i].as_str(), bot_handle) {
            addressed = true;
            proof {
                assert(av.take(i as int + 1)[i as int] == bot_handle@);
            }
        } else {
            ws.push(all[i].clone());
            proof {
                assert(string_views(ws@) =~= string_views(before).push(all@[i as int]@));
            }
        }
        i = i + 1;
    }
    proof {
        assert(av.take(i as int) =~= av);
    }
    let ghost wv = string_views(ws@);
    if !addressed || ws.len() == 0 {
        return BotCommand::Unknown;
    }
    let source = msg.source;
    let n = ws.len();
    proof {
        reveal_strlit("/skill");
        reveal_strlit("/character");
        reveal_strlit("Perception");
        assert(wv[0] == ws@[0]@);
    }
    if same_text(ws[0].as_str(), "/skill") {
        let ghost args = wv.skip(1);
        let mut character: Option<CharacterId> = None;
        let mut last = n;
        if n > 1 {
            proof {
                assert(args.last() == ws@[n - 1]@);
            }
            match CharacterId::try_from(ws[n - 1].as_str()) {
                Ok(id) => {
                    character = Some(id);
                    last = n - 1;
                },
                Err(_) => {},
            }
        }
        let skill = if last > 1 {
            let s = join_range(&ws, 1, last);
            proof {
                if last == n - 1 {
                    assert(wv.subrange(1, last as int) =~= args.drop_last());
                } else {
                    assert(wv.subrange(1, last as int) =~= args);
                }
            }
            s
        } else {
            String::from_str("Perception")
        };
        BotCommand::SkillCheck(SkillCheckRequest { source, skill, character })
    } else if same_text(ws[0].as_str(), "/character") {
        if n < 2 {
            let e = ReferenceError::NotASheetUrl;
            return BotCommand::Error { source, error: e.message() };
        }
        proof {
            assert(wv.skip(1)[0] == ws@[1]@);
        }
        match CharacterId::try_from(ws[1].as_str()) {
            Ok(id) => BotCommand::SetCharacter(SetCharacterRequest { source, character_id: id }),
            Err(e) => BotCommand::Error { source, error: e.message() },
        }
    } else {
        BotCommand::Unknown
    }
}

} // verus!
