use keywords_reply_bot::config::Config;
use keywords_reply_bot::cursor::UpdateCursor;
use keywords_reply_bot::message::InboundMessage;
use keywords_reply_bot::message::Update;

fn upd(id: i64, text: Option<&str>) -> Update {
    Update {
        update_id: id,
        message: text.map(|t| InboundMessage {
            chat_id: 1,
            sender_id: Some(2),
            text: Some(t.to_string()),
            entities: vec![],
        }),
    }
}

#[test]
fn cursor_advances_past_the_largest_update_id() {
    let mut c = UpdateCursor::new();
    assert!(c.offset.is_none());
    let batch = vec![upd(5, Some("a")), upd(6, None), upd(9, Some("b"))];
    let msgs = c.process_batch(batch);
    // The cursor advance does not depend on what dispatch does with them.
    assert_eq!(c.offset, Some(10));
    let texts: Vec<String> = msgs.into_iter().map(|m| m.text.unwrap()).collect();
    assert_eq!(texts, vec!["a".to_string(), "b".to_string()]);
}

#[test]
fn cursor_takes_the_maximum_not_the_last_id() {
    let mut c = UpdateCursor::new();
    c.process_batch(vec![upd(9, None), upd(5, None), upd(6, None)]);
    assert_eq!(c.offset, Some(10));
}

#[test]
fn empty_batch_leaves_the_cursor_unchanged() {
    let mut c = UpdateCursor::new();
    c.process_batch(vec![upd(3, None)]);
    assert_eq!(c.offset, Some(4));
    let msgs = c.process_batch(vec![]);
    assert!(msgs.is_empty());
    assert_eq!(c.offset, Some(4));
}

#[test]
fn config_rejects_an_empty_token() {
    assert!(Config::from_parts("", "sqlite:db").is_none());
    assert!(Config::from_parts("  \n ", "sqlite:db").is_none());
    assert!(Config::from_parts("\u{00A0}\u{3000}", "sqlite:db").is_none());
    let c = Config::from_parts("  tok123  ", "sqlite:x.db").unwrap();
    assert_eq!(c.bot_token, "tok123");
    assert_eq!(c.database_url, "sqlite:x.db");
    let c2 = Config::from_parts("\u{00A0}tok\u{2003}", "sqlite:x.db").unwrap();
    assert_eq!(c2.bot_token, "tok");
}

#[test]
fn config_extracts_the_sqlite_path() {
    let c = Config::from_parts("t", "sqlite:keywords_reply_bot.db").unwrap();
    assert_eq!(c.sqlite_path().unwrap(), "keywords_reply_bot.db");
    let c2 = Config::from_parts("t", "postgres://h/db").unwrap();
    assert!(c2.sqlite_path().is_none());
    let c3 = Config::from_parts("t", "sq").unwrap();
    assert!(c3.sqlite_path().is_none());
}
