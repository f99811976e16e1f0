//! Command extraction: locating the leading bot command through the entity
//! list's UTF-16 ranges, taking the argument text after the command token,
//! and splitting the `/add` argument into keyword and reply content.

use vstd::prelude::*;
use vstd::string::StrSliceExecFns;
use vstd::string::StringExecFns;
use crate::codec::lemma_char_idx_monotone;
use crate::codec::utf16_to_char_idx;
use crate::codec::utf16_to_char_idx_spec;
use crate::message::Entity;
use crate::message::EntityKind;
use crate::message::InboundMessage;
use crate::message::MessageView;
use crate::message::msg_text;
use crate::text::find_first;
use crate::text::first_match;
use crate::text::lemma_first_match_is_match;
use crate::text::str_eq;
use crate::text::trim_start;
use crate::text::trim_start_spec;

verus! {

/// The command token carried by the first bot-command entity whose resolved
/// start still lies inside the text; entities whose range resolves past the
/// end are passed over, and a message without such an entity carries no
/// command even if its text starts with '/'.
pub open spec fn command_entity_token(text: Seq<char>, ents: Seq<Entity>) -> Option<Seq<char>>
    decreases ents.len(),
{
    if ents.len() == 0 {
        None
    } else if ents[0].kind == EntityKind::BotCommand && utf16_to_char_idx_spec(
        text,
        ents[0].offset as int,
    ) < text.len() {
        Some(
            text.subrange(
                utf16_to_char_idx_spec(text, ents[0].offset as int),
                utf16_to_char_idx_spec(text, ents[0].offset + ents[0].length),
            ),
        )
    } else {
        command_entity_token(text, ents.drop_first())
    }
}

/// Scans the entity list for the first bot-command entity and slices the
/// command token out of the text via the offset codec.
pub fn bot_command_from_entities(text: &str, entities: &Vec<Entity>) -> (r: Option<String>)
    ensures
        r matches Some(t) ==> command_entity_token(text@, entities@) == Some(t@),
        r is None ==> command_entity_token(text@, entities@) is None,
{
    let n: usize = text.unicode_len();
    let len: usize = entities.len();
    let mut i: usize = 0;
    proof {
        assert(entities@.skip(0) =~= entities@);
    }
    while i < len
        invariant
            0 <= i <= len,
            len == entities@.len(),
            n == text@.len(),
            command_entity_token(text@, entities@) == command_entity_token(
                text@,
                entities@.skip(i as int),
            ),
        decreases len - i,
    {
        let e = entities[i];
        proof {
            assert(entities@.skip(i as int)[0] == entities@[i as int]);
            assert(entities@.skip(i as int).drop_first() =~= entities@.skip(i + 1));
        }
        if matches!(e.kind, EntityKind::BotCommand) {
            let cs = utf16_to_char_idx(text, e.offset as u64);
            if cs < n {
                let ce = utf16_to_char_idx(text, e.offset as u64 + e.length as u64);
                proof {
                    lemma_char_idx_monotone(text@, e.offset as int, e.offset + e.length);
                }
                let sub = text.substring_char(cs, ce);
                return Some(String::from_str(sub));
            }
        }
        i = i + 1;
    }
    None
}

/// The argument text: everything after the first occurrence of the command
/// token in the message text, leading whitespace removed; empty when the
/// token cannot be located in the text.
pub open spec fn content_after_spec(text: Seq<char>, token: Seq<char>) -> Seq<char> {
    match first_match(text, token) {
        Some(p) => trim_start_spec(text.skip(p + token.len())),
        None => Seq::empty(),
    }
}

/// Extracts the argument text after the command token.
pub fn content_after_command(text: &str, token: &str) -> (r: String)
    ensures
        r@ == content_after_spec(text@, token@),
{
    let n: usize = text.unicode_len();
    let m: usize = token.unicode_len();
    match find_first(text, token) {
        Some(p) => {
            proof {
                lemma_first_match_is_match(text@, token@);
                assert(text@.subrange(p + m, n as int) =~= text@.skip(p + m));
            }
            let sub = text.substring_char(p + m, n);
            trim_start(sub)
        },
        None => String::new(),
    }
}

/// Character index of the first space or newline, the delimiter the `/add`
/// argument is split on.
pub open spec fn is_delim(c: char) -> bool {
    c == ' ' || c == '\n'
}

pub open spec fn first_delim_from(s: Seq<char>, i: int) -> Option<int>
    decreases s.len() - i + 1,
{
    if i < 0 || i >= s.len() {
        None
    } else if is_delim(s[i]) {
        Some(i)
    } else {
        first_delim_from(s, i + 1)
    }
}

pub open spec fn first_delim(s: Seq<char>) -> Option<int> {
    first_delim_from(s, 0)
}

/// The `/add` split: keyword before the first delimiter, reply content
/// after it; `None` when there is no delimiter or either side is empty, in
/// which case the command is malformed and only a usage notice is sent.
pub open spec fn add_args_spec(content: Seq<char>) -> Option<(Seq<char>, Seq<char>)> {
    match first_delim(content) {
        Some(p) => {
            if p == 0 || p + 1 == content.len() {
                None
            } else {
                Some((content.take(p), content.skip(p + 1)))
            }
        },
        None => None,
    }
}

/// Splits the `/add` argument text into keyword and reply content.
pub fn split_add_args(content: &str) -> (r: Option<(String, String)>)
    ensures
        r matches Some(kr) ==> add_args_spec(content@) == Some((kr.0@, kr.1@)),
        r is None ==> add_args_spec(content@) is None,
{
    let n: usize = content.unicode_len();
    let mut i: usize = 0;
    while i < n && !is_delim_exec(content.get_char(i))
        invariant
            n == content@.len(),
            0 <= i <= n,
            first_delim(content@) == first_delim_from(content@, i as int),
        decreases n - i,
    {
        i = i + 1;
    }
    if i >= n {
        return None;
    }
    if i == 0 || i + 1 == n {
        return None;
    }
    proof {
        assert(content@.subrange(0, i as int) =~= content@.take(i as int));
        assert(content@.subrange(i + 1, n as int) =~= content@.skip(i + 1));
    }
    let kw = content.substring_char(0, i);
    let rep = content.substring_char(i + 1, n);
    Some((String::from_str(kw), String::from_str(rep)))
}

fn is_delim_exec(c: char) -> (b: bool)
    ensures
        b == is_delim(c),
{
    c == ' ' || c == '\n'
}

/// A parsed command: the token as sliced from the text, and the argument
/// text after it.
pub struct CommandInvocation {
    pub command: String,
    pub args: String,
}

/// The invocation derived from a message, when its entity list carries a
/// bot command.
pub open spec fn invocation_spec(m: MessageView) -> Option<(Seq<char>, Seq<char>)> {
    match command_entity_token(msg_text(m), m.entities) {
        Some(tok) => Some((tok, content_after_spec(msg_text(m), tok))),
        None => None,
    }
}

/// Parses a message into a command invocation, or `None` when no
/// bot-command entity is present.
pub fn parse_invocation(msg: &InboundMessage) -> (r: Option<CommandInvocation>)
    ensures
        r matches Some(inv) ==> invocation_spec(msg@) == Some((inv.command@, inv.args@)),
        r is None ==> invocation_spec(msg@) is None,
{
    let text: &str = match &msg.text {
        Some(t) => t.as_str(),
        None => empty_str(),
    };
    proof {
        assert(text@ == msg_text(msg@));
    }
    match bot_command_from_entities(text, &msg.entities) {
        Some(tok) => {
            let args = content_after_command(text, tok.as_str());
            Some(CommandInvocation { command: tok, args })
        },
        None => None,
    }
}

pub(crate) fn empty_str() -> (r: &'static str)
    ensures
        r@ == Seq::<char>::empty(),
{
    proof {
        reveal_strlit("");
        assert(""@ =~= Seq::<char>::empty());
    }
    ""
}

/// The closed set of commands the dispatcher recognises.
#[derive(Clone, Copy, PartialEq, Eq, Structural, Debug)]
pub enum Command {
    Add,
    Del,
    DelAll,
    All,
    Help,
    Unrecognized,
}

/// Which command a token names; any other token is unrecognized and the
/// dispatcher stays silent on it.
pub open spec fn classify_spec(t: Seq<char>) -> Command {
    if t == "/add"@ {
        Command::Add
    } else if t == "/del"@ {
        Command::Del
    } else if t == "/del_all"@ {
        Command::DelAll
    } else if t == "/all"@ {
        Command::All
    } else if t == "/help"@ {
        Command::Help
    } else {
        Command::Unrecognized
    }
}

/// Executable form of [`classify_spec`].
pub fn classify(token: &str) -> (c: Command)
    ensures
        c == classify_spec(token@),
{
    if str_eq(token, "/add") {
        Command::Add
    } else if str_eq(token, "/del") {
        Command::Del
    } else if str_eq(token, "/del_all") {
        Command::DelAll
    } else if str_eq(token, "/all") {
        Command::All
    } else if str_eq(token, "/help") {
        Command::Help
    } else {
        Command::Unrecognized
    }
}

} // verus!
