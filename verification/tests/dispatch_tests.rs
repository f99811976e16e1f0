use keywords_reply_bot::dispatch::dispatch;
use keywords_reply_bot::message::Entity;
use keywords_reply_bot::message::EntityKind;
use keywords_reply_bot::message::InboundMessage;
use keywords_reply_bot::message::MemberRole;
use keywords_reply_bot::message::sender_is_authorized;
use keywords_reply_bot::store::KeywordStore;

fn command_entity(offset: u32, length: u32) -> Entity {
    Entity { kind: EntityKind::BotCommand, offset, length }
}

fn msg(chat: i64, text: &str, entities: Vec<Entity>) -> InboundMessage {
    InboundMessage {
        chat_id: chat,
        sender_id: Some(1),
        text: Some(text.to_string()),
        entities,
    }
}

const ADMINS_ONLY: &str = "Only administrators can use this command";

#[test]
fn add_stores_and_confirms() {
    let mut s = KeywordStore::new();
    let m = msg(1, "/add foo bar baz", vec![command_entity(0, 4)]);
    let reply = dispatch(&mut s, &m, true).expect("a confirmation");
    assert_eq!(reply, "Keyword <code>foo</code> added successfully!");
    assert_eq!(s.find_match(1, "xx foo yy").unwrap(), "bar baz");

    let m2 = msg(1, "/add foo new reply", vec![command_entity(0, 4)]);
    let reply2 = dispatch(&mut s, &m2, true).expect("a confirmation");
    assert_eq!(reply2, "Keyword <code>foo</code> updated successfully!");
    assert_eq!(s.find_match(1, "foo").unwrap(), "new reply");
}

#[test]
fn add_wraps_code_spans_of_the_original_message() {
    let mut s = KeywordStore::new();
    let m = msg(
        1,
        "/add kw see func()",
        vec![
            command_entity(0, 4),
            Entity { kind: EntityKind::Code, offset: 12, length: 6 },
        ],
    );
    dispatch(&mut s, &m, true).expect("a confirmation");
    assert_eq!(s.find_match(1, "kw").unwrap(), "see <code>func()</code>");
}

#[test]
fn add_without_arguments_draws_the_usage_notice() {
    let mut s = KeywordStore::new();
    let m = msg(1, "/add", vec![command_entity(0, 4)]);
    assert_eq!(dispatch(&mut s, &m, true).unwrap(), "Usage: /add &lt;keyword&gt; &lt;reply&gt;");
    let m2 = msg(1, "/add onlykeyword", vec![command_entity(0, 4)]);
    assert_eq!(dispatch(&mut s, &m2, true).unwrap(), "Usage: /add &lt;keyword&gt; &lt;reply&gt;");
    assert!(s.find_match(1, "onlykeyword").is_none());
}

#[test]
fn non_admin_add_is_refused() {
    let mut s = KeywordStore::new();
    let m = msg(1, "/add foo bar", vec![command_entity(0, 4)]);
    assert_eq!(dispatch(&mut s, &m, false).unwrap(), ADMINS_ONLY);
    assert!(s.find_match(1, "foo").is_none());
}

#[test]
fn non_admin_del_is_refused_and_the_row_stays() {
    let mut s = KeywordStore::new();
    s.upsert(1, "ip", "addr");
    let m = msg(1, "/del ip", vec![command_entity(0, 4)]);
    assert_eq!(dispatch(&mut s, &m, false).unwrap(), ADMINS_ONLY);
    assert_eq!(s.find_match(1, "ip").unwrap(), "addr");
}

#[test]
fn del_removes_or_reports_missing() {
    let mut s = KeywordStore::new();
    s.upsert(1, "ip", "addr");
    let m = msg(1, "/del ip", vec![command_entity(0, 4)]);
    assert_eq!(dispatch(&mut s, &m, true).unwrap(), "Keyword <code>ip</code> deleted successfully!");
    assert!(s.find_match(1, "ip").is_none());
    let m2 = msg(1, "/del ip", vec![command_entity(0, 4)]);
    assert_eq!(dispatch(&mut s, &m2, true).unwrap(), "Keyword <code>ip</code> not found");
    let m3 = msg(1, "/del", vec![command_entity(0, 4)]);
    assert_eq!(dispatch(&mut s, &m3, true).unwrap(), "Usage: /del &lt;keyword&gt;");
}

#[test]
fn del_trims_the_keyword_on_both_ends() {
    let mut s = KeywordStore::new();
    s.upsert(1, "ip", "addr");
    let m = msg(1, "/del  ip  ", vec![command_entity(0, 4)]);
    assert_eq!(dispatch(&mut s, &m, true).unwrap(), "Keyword <code>ip</code> deleted successfully!");
}

#[test]
fn del_all_reports_the_count() {
    let mut s = KeywordStore::new();
    s.upsert(1, "a", "ra");
    s.upsert(1, "b", "rb");
    let m = msg(1, "/del_all", vec![command_entity(0, 8)]);
    assert_eq!(dispatch(&mut s, &m, true).unwrap(), "Deleted 2 keywords!");
    let m2 = msg(1, "/del_all", vec![command_entity(0, 8)]);
    assert_eq!(dispatch(&mut s, &m2, true).unwrap(), "No keywords are set for this group");
    let m3 = msg(1, "/del_all", vec![command_entity(0, 8)]);
    assert_eq!(dispatch(&mut s, &m3, false).unwrap(), ADMINS_ONLY);
}

#[test]
fn all_lists_the_keywords() {
    let mut s = KeywordStore::new();
    let m0 = msg(1, "/all", vec![command_entity(0, 4)]);
    assert_eq!(
        dispatch(&mut s, &m0, false).unwrap(),
        "No keyword replies are set for this group yet."
    );
    s.upsert(1, "one", "r1");
    s.upsert(1, "two", "r2");
    let m = msg(1, "/all", vec![command_entity(0, 4)]);
    assert_eq!(
        dispatch(&mut s, &m, false).unwrap(),
        "<b>Keywords for this group:</b>\n\n<code>one</code>\n<code>two</code>\n"
    );
}

#[test]
fn help_is_always_answered() {
    let mut s = KeywordStore::new();
    let m = msg(1, "/help", vec![command_entity(0, 5)]);
    let reply = dispatch(&mut s, &m, false).unwrap();
    assert!(reply.starts_with("Available commands:"));
}

#[test]
fn unknown_command_is_silently_ignored() {
    let mut s = KeywordStore::new();
    let m = msg(1, "/frobnicate", vec![command_entity(0, 11)]);
    assert!(dispatch(&mut s, &m, true).is_none());
}

#[test]
fn slash_text_without_entity_goes_to_keyword_matching() {
    // A '/'-prefixed text with no bot-command entity is not a command:
    // keyword matching still runs.
    let mut s = KeywordStore::new();
    s.upsert(1, "ip", "addr");
    let m = msg(1, "/my ip", vec![]);
    assert_eq!(dispatch(&mut s, &m, true).unwrap(), "addr");
    let m2 = msg(1, "/nothing known", vec![]);
    assert!(dispatch(&mut s, &m2, true).is_none());
    // With the entity present, the same text is a command, not a keyword.
    s.upsert(1, "/add", "matched only without the entity");
    let m3 = msg(1, "/add foo bar", vec![command_entity(0, 4)]);
    assert_eq!(
        dispatch(&mut s, &m3, true).unwrap(),
        "Keyword <code>foo</code> added successfully!"
    );
    let m4 = msg(1, "/add foo bar", vec![]);
    assert_eq!(
        dispatch(&mut s, &m4, true).unwrap(),
        "matched only without the entity"
    );
}

#[test]
fn keyword_containment_triggers_a_reply() {
    let mut s = KeywordStore::new();
    s.upsert(9, "ip", "your address");
    let m = msg(9, "what is my ip address", vec![]);
    assert_eq!(dispatch(&mut s, &m, false).unwrap(), "your address");
    let m2 = msg(9, "no match here", vec![]);
    assert!(dispatch(&mut s, &m2, false).is_none());
    // Another group's keywords do not answer.
    let m3 = msg(8, "what is my ip address", vec![]);
    assert!(dispatch(&mut s, &m3, false).is_none());
}

#[test]
fn absent_text_is_a_no_op() {
    let mut s = KeywordStore::new();
    let m = InboundMessage { chat_id: 1, sender_id: None, text: None, entities: vec![] };
    assert!(dispatch(&mut s, &m, true).is_none());
}

#[test]
fn only_elevated_roles_are_authorized() {
    assert!(sender_is_authorized(Some(MemberRole::Creator)));
    assert!(sender_is_authorized(Some(MemberRole::Administrator)));
    assert!(!sender_is_authorized(Some(MemberRole::Member)));
    assert!(!sender_is_authorized(Some(MemberRole::Restricted)));
    assert!(!sender_is_authorized(Some(MemberRole::Left)));
    assert!(!sender_is_authorized(Some(MemberRole::Kicked)));
    assert!(!sender_is_authorized(None));
}

#[test]
fn del_all_renders_multi_digit_counts() {
    let mut s = KeywordStore::new();
    for i in 0..12 {
        s.upsert(1, &format!("kw{i}"), "r");
    }
    let m = msg(1, "/del_all", vec![command_entity(0, 8)]);
    assert_eq!(dispatch(&mut s, &m, true).unwrap(), "Deleted 12 keywords!");
}

#[test]
fn empty_text_matches_no_keyword() {
    let mut s = KeywordStore::new();
    s.upsert(1, "ip", "addr");
    let m = msg(1, "", vec![]);
    assert!(dispatch(&mut s, &m, true).is_none());
}

#[test]
fn del_trims_ideographic_space() {
    // U+3000 is white space; the /del argument sheds it like ASCII spaces.
    let mut s = KeywordStore::new();
    s.upsert(1, "ip", "addr");
    let m = msg(1, "/del\u{3000}ip\u{3000}", vec![command_entity(0, 4)]);
    assert_eq!(dispatch(&mut s, &m, true).unwrap(), "Keyword <code>ip</code> deleted successfully!");
}
