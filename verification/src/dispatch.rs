//! Per-message dispatch: route an inbound message to command handling or
//! keyword matching, mutate the store accordingly, and produce at most one
//! outbound reply text. A '/'-prefixed text whose entity list carries no
//! bot command is not a command: it still goes through keyword matching.
//!
//! The decision is split so that a caller whose store lives elsewhere can
//! run it step by step: [`plan_command`] turns a message into the command's
//! plan (argument checks included, so a malformed command only draws its
//! usage notice), [`plan_requires_admin`] says whether the plan's store
//! operation is administrator-gated, and [`outcome_notice`] renders the
//! reply the operation's outcome owes. [`dispatch`] composes exactly these
//! steps against the in-memory store. Whether the sender holds an elevated
//! role comes in as an input: the membership lookup is the application's
//! business, and a failed lookup counts as not authorized.

use vstd::prelude::*;
use vstd::string::StrSliceExecFns;
use crate::formatter::format_reply;
use crate::formatter::format_reply_spec;
use crate::message::InboundMessage;
use crate::message::MessageView;
use crate::message::msg_text;
use crate::notices::added_notice;
use crate::notices::added_text;
use crate::notices::admins_only;
use crate::notices::admins_only_text;
use crate::notices::all_list_notice;
use crate::notices::all_list_text;
use crate::notices::deleted_count_notice;
use crate::notices::deleted_count_text;
use crate::notices::deleted_notice;
use crate::notices::deleted_text;
use crate::notices::help_notice;
use crate::notices::help_text;
use crate::notices::no_keywords_notice;
use crate::notices::no_keywords_text;
use crate::notices::no_replies_notice;
use crate::notices::no_replies_text;
use crate::notices::not_found_notice;
use crate::notices::not_found_text;
use crate::notices::try_again_notice;
use crate::notices::try_again_text;
use crate::notices::updated_notice;
use crate::notices::updated_text;
use crate::notices::usage_add;
use crate::notices::usage_add_text;
use crate::notices::usage_del;
use crate::notices::usage_del_text;
use crate::parser::Command;
use crate::parser::add_args_spec;
use crate::parser::bot_command_from_entities;
use crate::parser::classify;
use crate::parser::classify_spec;
use crate::parser::command_entity_token;
use crate::parser::content_after_command;
use crate::parser::content_after_spec;
use crate::parser::split_add_args;
use crate::store::KeywordStore;
use crate::store::RowView;
use crate::store::first_group_match;
use crate::store::group_count;
use crate::store::group_keywords;
use crate::store::has_key;
use crate::store::lemma_remove_model_absent;
use crate::store::remove_model;
use crate::store::retain_other_groups;
use crate::store::upsert_model;
use crate::text::trim_both;
use crate::text::trim_spec;

verus! {

/// What a recognised command asks of the keyword store, after the argument
/// checks that precede the authorization gate.
pub enum CommandPlan {
    /// An unrecognized command: stay silent.
    NoOp,
    /// No store work: a usage or help text to send as it stands.
    Notice(String),
    /// `/add`: store this keyword→reply pair (administrator-gated).
    Upsert { keywords: String, reply: String },
    /// `/del`: remove this keyword (administrator-gated).
    Remove { keywords: String },
    /// `/del_all`: remove the group's rows (administrator-gated).
    Clear,
    /// `/all`: list the group's keywords.
    List,
}

/// Mathematical image of a [`CommandPlan`].
pub enum PlanView {
    NoOp,
    Notice(Seq<char>),
    Upsert { keywords: Seq<char>, reply: Seq<char> },
    Remove { keywords: Seq<char> },
    Clear,
    List,
}

impl View for CommandPlan {
    type V = PlanView;

    open spec fn view(&self) -> PlanView {
        match self {
            CommandPlan::NoOp => PlanView::NoOp,
            CommandPlan::Notice(s) => PlanView::Notice(s@),
            CommandPlan::Upsert { keywords, reply } => PlanView::Upsert {
                keywords: keywords@,
                reply: reply@,
            },
            CommandPlan::Remove { keywords } => PlanView::Remove { keywords: keywords@ },
            CommandPlan::Clear => PlanView::Clear,
            CommandPlan::List => PlanView::List,
        }
    }
}

/// The plan a command token and its argument text demand. For `/add` the
/// reply content is already formatted here: code spans of the message are
/// rewrapped before anything is stored.
pub open spec fn plan_spec(m: MessageView, tok: Seq<char>) -> PlanView {
    let content = content_after_spec(msg_text(m), tok);
    match classify_spec(tok) {
        Command::Add => {
            if content.len() == 0 {
                PlanView::Notice(usage_add_text())
            } else {
                match add_args_spec(content) {
                    None => PlanView::Notice(usage_add_text()),
                    Some(kr) => PlanView::Upsert {
                        keywords: kr.0,
                        reply: format_reply_spec(kr.1, msg_text(m), m.entities),
                    },
                }
            }
        },
        Command::Del => {
            if content.len() == 0 {
                PlanView::Notice(usage_del_text())
            } else {
                PlanView::Remove { keywords: trim_spec(content) }
            }
        },
        Command::DelAll => PlanView::Clear,
        Command::All => PlanView::List,
        Command::Help => PlanView::Notice(help_text()),
        Command::Unrecognized => PlanView::NoOp,
    }
}

/// Derives the command's plan from a message, or `None` when its entity
/// list carries no bot command.
pub fn plan_command(msg: &InboundMessage) -> (r: Option<CommandPlan>)
    ensures
        r matches Some(p) ==> (command_entity_token(msg_text(msg@), msg@.entities) matches Some(
            tok,
        ) && p@ == plan_spec(msg@, tok)),
        r is None ==> command_entity_token(msg_text(msg@), msg@.entities) is None,
{
    let text: &str = match &msg.text {
        Some(t) => t.as_str(),
        None => crate::parser::empty_str(),
    };
    proof {
        assert(text@ == msg_text(msg@));
    }
    let tok = match bot_command_from_entities(text, &msg.entities) {
        Some(t) => t,
        None => {
            return None;
        },
    };
    let content = content_after_command(text, tok.as_str());
    let p = match classify(tok.as_str()) {
        Command::Add => {
            if content.as_str().unicode_len() == 0 {
                CommandPlan::Notice(usage_add())
            } else {
                match split_add_args(content.as_str()) {
                    None => CommandPlan::Notice(usage_add()),
                    Some(kr) => {
                        let processed = format_reply(kr.1.as_str(), text, &msg.entities);
                        CommandPlan::Upsert { keywords: kr.0, reply: processed }
                    },
                }
            }
        },
        Command::Del => {
            if content.as_str().unicode_len() == 0 {
                CommandPlan::Notice(usage_del())
            } else {
                CommandPlan::Remove { keywords: trim_both(content.as_str()) }
            }
        },
        Command::DelAll => CommandPlan::Clear,
        Command::All => CommandPlan::List,
        Command::Help => CommandPlan::Notice(help_notice()),
        Command::Unrecognized => CommandPlan::NoOp,
    };
    Some(p)
}

/// The plans whose store operation only an administrator may run.
pub open spec fn plan_requires_admin_spec(p: PlanView) -> bool {
    p is Upsert || p is Remove || p is Clear
}

/// Executable form of [`plan_requires_admin_spec`].
pub fn plan_requires_admin(p: &CommandPlan) -> (b: bool)
    ensures
        b == plan_requires_admin_spec(p@),
{
    matches!(p, CommandPlan::Upsert { .. } | CommandPlan::Remove { .. } | CommandPlan::Clear)
}

/// How a plan's store operation went. `Failed` stands for a persistence
/// failure, which a command surfaces as a generic try-again notice rather
/// than an error.
pub enum StoreOutcome {
    Upserted { keywords: String, updated: bool },
    Removed { keywords: String, existed: bool },
    Cleared { count: u64 },
    Listed { keywords: Vec<String> },
    Failed,
}

/// Mathematical image of a [`StoreOutcome`].
pub enum OutcomeView {
    Upserted { keywords: Seq<char>, updated: bool },
    Removed { keywords: Seq<char>, existed: bool },
    Cleared { count: int },
    Listed { keywords: Seq<Seq<char>> },
    Failed,
}

impl View for StoreOutcome {
    type V = OutcomeView;

    open spec fn view(&self) -> OutcomeView {
        match self {
            StoreOutcome::Upserted { keywords, updated } => OutcomeView::Upserted {
                keywords: keywords@,
                updated: *updated,
            },
            StoreOutcome::Removed { keywords, existed } => OutcomeView::Removed {
                keywords: keywords@,
                existed: *existed,
            },
            StoreOutcome::Cleared { count } => OutcomeView::Cleared { count: *count as int },
            StoreOutcome::Listed { keywords } => OutcomeView::Listed {
                keywords: keywords.deep_view(),
            },
            StoreOutcome::Failed => OutcomeView::Failed,
        }
    }
}

/// The reply a store outcome owes the sender.
pub open spec fn outcome_notice_spec(o: OutcomeView) -> Seq<char> {
    match o {
        OutcomeView::Upserted { keywords, updated } => if updated {
            updated_text(keywords)
        } else {
            added_text(keywords)
        },
        OutcomeView::Removed { keywords, existed } => if existed {
            deleted_text(keywords)
        } else {
            not_found_text(keywords)
        },
        OutcomeView::Cleared { count } => if count > 0 {
            deleted_count_text(count)
        } else {
            no_keywords_text()
        },
        OutcomeView::Listed { keywords } => if keywords.len() == 0 {
            no_replies_text()
        } else {
            all_list_text(keywords)
        },
        OutcomeView::Failed => try_again_text(),
    }
}

/// Renders the reply a store outcome owes.
pub fn outcome_notice(o: &StoreOutcome) -> (s: String)
    ensures
        s@ == outcome_notice_spec(o@),
{
    match o {
        StoreOutcome::Upserted { keywords, updated } => {
            if *updated {
                updated_notice(keywords.as_str())
            } else {
                added_notice(keywords.as_str())
            }
        },
        StoreOutcome::Removed { keywords, existed } => {
            if *existed {
                deleted_notice(keywords.as_str())
            } else {
                not_found_notice(keywords.as_str())
            }
        },
        StoreOutcome::Cleared { count } => {
            if *count > 0 {
                deleted_count_notice(*count)
            } else {
                no_keywords_notice()
            }
        },
        StoreOutcome::Listed { keywords } => {
            if keywords.len() == 0 {
                no_replies_notice()
            } else {
                all_list_notice(keywords)
            }
        },
        StoreOutcome::Failed => try_again_notice(),
    }
}

/// The command branch: the plan's notice when there is no store work, the
/// admins-only notice when a gated plan meets an unauthorized sender, and
/// otherwise the store operation's effect with its outcome's reply.
pub open spec fn command_spec(rows: Seq<RowView>, m: MessageView, admin: bool, tok: Seq<char>) -> (
    Seq<RowView>,
    Option<Seq<char>>,
) {
    match plan_spec(m, tok) {
        PlanView::NoOp => (rows, None),
        PlanView::Notice(s) => (rows, Some(s)),
        PlanView::Upsert { keywords, reply } => {
            if !admin {
                (rows, Some(admins_only_text()))
            } else {
                (
                    upsert_model(rows, m.chat_id, keywords, reply),
                    Some(
                        outcome_notice_spec(
                            OutcomeView::Upserted {
                                keywords,
                                updated: has_key(rows, m.chat_id, keywords),
                            },
                        ),
                    ),
                )
            }
        },
        PlanView::Remove { keywords } => {
            if !admin {
                (rows, Some(admins_only_text()))
            } else if has_key(rows, m.chat_id, keywords) {
                (
                    remove_model(rows, m.chat_id, keywords),
                    Some(
                        outcome_notice_spec(OutcomeView::Removed { keywords, existed: true }),
                    ),
                )
            } else {
                (
                    rows,
                    Some(
                        outcome_notice_spec(OutcomeView::Removed { keywords, existed: false }),
                    ),
                )
            }
        },
        PlanView::Clear => {
            if !admin {
                (rows, Some(admins_only_text()))
            } else {
                (
                    retain_other_groups(rows, m.chat_id),
                    Some(
                        outcome_notice_spec(
                            OutcomeView::Cleared { count: group_count(rows, m.chat_id) },
                        ),
                    ),
                )
            }
        },
        PlanView::List => (
            rows,
            Some(
                outcome_notice_spec(
                    OutcomeView::Listed { keywords: group_keywords(rows, m.chat_id) },
                ),
            ),
        ),
    }
}

/// The keyword branch: the first stored reply whose keyword the text
/// contains, if any; the store is never changed.
pub open spec fn keyword_reply_spec(rows: Seq<RowView>, g: i64, t: Seq<char>) -> (
    Seq<RowView>,
    Option<Seq<char>>,
) {
    match first_group_match(rows, g, t) {
        Some(row) => (rows, Some(row.reply)),
        None => (rows, None),
    }
}

/// The whole per-message decision: absent text is a no-op; text starting
/// with '/' goes to command handling only when the entity list carries a
/// bot command — without one the text is no command, even though it starts
/// with '/', and keyword matching still runs, as it does for every other
/// text.
pub open spec fn dispatch_spec(rows: Seq<RowView>, m: MessageView, admin: bool) -> (
    Seq<RowView>,
    Option<Seq<char>>,
) {
    match m.text {
        None => (rows, None),
        Some(t) => {
            if t.len() > 0 && t[0] == '/' {
                match command_entity_token(msg_text(m), m.entities) {
                    Some(tok) => command_spec(rows, m, admin, tok),
                    None => keyword_reply_spec(rows, m.chat_id, t),
                }
            } else {
                keyword_reply_spec(rows, m.chat_id, t)
            }
        },
    }
}

/// Routes one inbound message: updates the store as the command demands and
/// returns the single reply text to send, if any.
pub fn dispatch(store: &mut KeywordStore, msg: &InboundMessage, sender_is_admin: bool) -> (reply:
    Option<String>)
    requires
        old(store).wf(),
    ensures
        final(store).wf(),
        final(store)@ == dispatch_spec(old(store)@, msg@, sender_is_admin).0,
        reply matches Some(s) ==> dispatch_spec(old(store)@, msg@, sender_is_admin).1 == Some(s@),
        reply is None ==> dispatch_spec(old(store)@, msg@, sender_is_admin).1 is None,
{
    let text: &str = match &msg.text {
        Some(t) => t.as_str(),
        None => {
            return None;
        },
    };
    let n: usize = text.unicode_len();
    let starts_with_slash = n > 0 && text.get_char(0) == '/';
    if !starts_with_slash {
        return store.find_match(msg.chat_id, text);
    }
    let plan = match plan_command(msg) {
        Some(p) => p,
        None => {
            return store.find_match(msg.chat_id, text);
        },
    };
    if plan_requires_admin(&plan) && !sender_is_admin {
        return Some(admins_only());
    }
    match plan {
        CommandPlan::NoOp => None,
        CommandPlan::Notice(s) => Some(s),
        CommandPlan::Upsert { keywords, reply } => {
            let updated = store.upsert(msg.chat_id, keywords.as_str(), reply.as_str());
            Some(outcome_notice(&StoreOutcome::Upserted { keywords, updated }))
        },
        CommandPlan::Remove { keywords } => {
            let existed = store.delete(msg.chat_id, keywords.as_str());
            proof {
                if !existed {
                    lemma_remove_model_absent(old(store)@, msg.chat_id, keywords@);
                }
            }
            Some(outcome_notice(&StoreOutcome::Removed { keywords, existed }))
        },
        CommandPlan::Clear => {
            let count = store.delete_all(msg.chat_id);
            Some(outcome_notice(&StoreOutcome::Cleared { count }))
        },
        CommandPlan::List => {
            let kws = store.list_keywords(msg.chat_id);
            Some(outcome_notice(&StoreOutcome::Listed { keywords: kws }))
        },
    }
}

/// A sender without the elevated role never changes the store, whatever the
/// message says.
pub proof fn lemma_non_admin_preserves_store(rows: Seq<RowView>, m: MessageView)
    ensures
        dispatch_spec(rows, m, false).0 == rows,
{
}

/// A non-admin `/del` with an argument draws the admins-only notice and
/// removes nothing.
pub proof fn lemma_non_admin_del_refused(rows: Seq<RowView>, m: MessageView)
    requires
        m.text matches Some(t) && t.len() > 0 && t[0] == '/',
        command_entity_token(msg_text(m), m.entities) matches Some(tok) && classify_spec(tok)
            == Command::Del && content_after_spec(msg_text(m), tok).len() > 0,
    ensures
        dispatch_spec(rows, m, false) == (rows, Some(admins_only_text())),
{
}

} // verus!
