//! Data model of an inbound chat message: formatting entities with their
//! UTF-16 ranges, the sender's role, and the update stream's elements.

use vstd::prelude::*;

verus! {

/// The entity tags the dispatch core distinguishes; every other platform tag
/// is folded into `Other`.
#[derive(Clone, Copy, PartialEq, Eq, Structural, Debug)]
pub enum EntityKind {
    BotCommand,
    Code,
    Other,
}

/// A tagged span within a message, located by a UTF-16 code-unit offset and
/// length as the message source supplies them.
#[derive(Clone, Copy, PartialEq, Eq, Structural, Debug)]
pub struct Entity {
    pub kind: EntityKind,
    pub offset: u32,
    pub length: u32,
}

/// An inbound message: group identifier, sender, raw text and the source's
/// entity list in source order.
pub struct InboundMessage {
    pub chat_id: i64,
    pub sender_id: Option<i64>,
    pub text: Option<String>,
    pub entities: Vec<Entity>,
}

/// Mathematical image of an [`InboundMessage`].
pub struct MessageView {
    pub chat_id: i64,
    pub sender_id: Option<i64>,
    pub text: Option<Seq<char>>,
    pub entities: Seq<Entity>,
}

impl View for InboundMessage {
    type V = MessageView;

    open spec fn view(&self) -> MessageView {
        MessageView {
            chat_id: self.chat_id,
            sender_id: self.sender_id,
            text: match self.text {
                Some(t) => Some(t@),
                None => None,
            },
            entities: self.entities@,
        }
    }
}

/// The message text the scanning steps operate on: absent text reads as
/// empty.
pub open spec fn msg_text(m: MessageView) -> Seq<char> {
    match m.text {
        Some(t) => t,
        None => Seq::empty(),
    }
}

/// The sender's membership role in the group, as the membership lookup
/// reports it.
#[derive(Clone, Copy, PartialEq, Eq, Structural, Debug)]
pub enum MemberRole {
    Creator,
    Administrator,
    Member,
    Restricted,
    Left,
    Kicked,
}

/// Only the creator and administrators may run the state-changing commands.
pub open spec fn role_is_authorized(r: MemberRole) -> bool {
    r == MemberRole::Creator || r == MemberRole::Administrator
}

/// Authorization decision from the membership lookup's outcome: a failed
/// lookup or an absent sender is never authorized.
pub open spec fn sender_is_authorized_spec(role: Option<MemberRole>) -> bool {
    match role {
        Some(r) => role_is_authorized(r),
        None => false,
    }
}

/// Executable form of [`sender_is_authorized_spec`].
pub fn sender_is_authorized(role: Option<MemberRole>) -> (b: bool)
    ensures
        b == sender_is_authorized_spec(role),
{
    match role {
        Some(MemberRole::Creator) => true,
        Some(MemberRole::Administrator) => true,
        _ => false,
    }
}

/// One element of the update stream: an identifier and, for message-type
/// updates, the message itself.
pub struct Update {
    pub update_id: i64,
    pub message: Option<InboundMessage>,
}

} // verus!
