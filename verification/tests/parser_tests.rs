use keywords_reply_bot::formatter::format_reply;
use keywords_reply_bot::message::Entity;
use keywords_reply_bot::message::EntityKind;
use keywords_reply_bot::message::InboundMessage;
use keywords_reply_bot::parser::bot_command_from_entities;
use keywords_reply_bot::parser::content_after_command;
use keywords_reply_bot::parser::parse_invocation;
use keywords_reply_bot::parser::split_add_args;

fn command_entity(offset: u32, length: u32) -> Entity {
    Entity { kind: EntityKind::BotCommand, offset, length }
}

fn msg(text: &str, entities: Vec<Entity>) -> InboundMessage {
    InboundMessage {
        chat_id: 77,
        sender_id: Some(1),
        text: Some(text.to_string()),
        entities,
    }
}

#[test]
fn add_command_splits_keyword_and_reply() {
    let m = msg("/add foo bar baz", vec![command_entity(0, 4)]);
    let inv = parse_invocation(&m).expect("a command invocation");
    assert_eq!(inv.command, "/add");
    assert_eq!(inv.args, "foo bar baz");
    let (kw, reply) = split_add_args(&inv.args).expect("a well-formed /add argument");
    assert_eq!(kw, "foo");
    assert_eq!(reply, "bar baz");
}

#[test]
fn no_command_entity_means_no_command() {
    // Text that looks like a command is not one without the entity.
    let m = msg("/add foo bar", vec![]);
    assert!(parse_invocation(&m).is_none());
    let m2 = msg("/add foo bar", vec![Entity { kind: EntityKind::Other, offset: 0, length: 4 }]);
    assert!(parse_invocation(&m2).is_none());
}

#[test]
fn entity_past_the_text_is_passed_over() {
    let m = msg("hi", vec![command_entity(10, 4), command_entity(0, 2)]);
    let inv = parse_invocation(&m).expect("the in-range entity");
    assert_eq!(inv.command, "hi");
}

#[test]
fn command_token_with_utf16_offsets() {
    // The emoji takes two UTF-16 units, so the command starts at offset 3.
    let text = "\u{1f600} /add k v";
    let m = msg(text, vec![command_entity(3, 4)]);
    let inv = parse_invocation(&m).expect("a command invocation");
    assert_eq!(inv.command, "/add");
    assert_eq!(inv.args, "k v");
}

#[test]
fn argument_keeps_trailing_whitespace() {
    let token = bot_command_from_entities("/del  ip  ", &vec![command_entity(0, 4)]).unwrap();
    assert_eq!(token, "/del");
    let content = content_after_command("/del  ip  ", &token);
    assert_eq!(content, "ip  ");
}

#[test]
fn argument_is_located_at_first_occurrence_of_the_token() {
    // The token's text occurs before the entity's own span; the argument is
    // taken after the first occurrence, an ambiguity kept as it stands.
    let text = "see/add x /add y";
    let token = bot_command_from_entities(text, &vec![command_entity(10, 4)]).unwrap();
    assert_eq!(token, "/add");
    let content = content_after_command(text, &token);
    assert_eq!(content, "x /add y");
}

#[test]
fn malformed_add_arguments() {
    assert!(split_add_args("justone").is_none());
    assert!(split_add_args("trailing ").is_none());
    assert!(split_add_args(" leading").is_none());
    assert!(split_add_args("").is_none());
    let (kw, reply) = split_add_args("k\nmultiline reply").unwrap();
    assert_eq!(kw, "k");
    assert_eq!(reply, "multiline reply");
}

#[test]
fn code_span_is_rewrapped() {
    // The code entity exactly covers "func()" inside the reply content.
    let text = "/add kw see func()";
    let entities = vec![
        command_entity(0, 4),
        Entity { kind: EntityKind::Code, offset: 12, length: 6 },
    ];
    let out = format_reply("see func()", text, &entities);
    assert_eq!(out, "see <code>func()</code>");
}

#[test]
fn two_code_spans_are_rewrapped_right_to_left() {
    let text = "/add kw a() and b()";
    let entities = vec![
        command_entity(0, 4),
        Entity { kind: EntityKind::Code, offset: 8, length: 3 },
        Entity { kind: EntityKind::Code, offset: 16, length: 3 },
    ];
    let out = format_reply("a() and b()", text, &entities);
    assert_eq!(out, "<code>a()</code> and <code>b()</code>");
}

#[test]
fn partially_overlapping_code_span_is_ignored() {
    // The entity starts before the reply window, so it is silently dropped.
    let text = "/add kw see func()";
    let entities = vec![
        command_entity(0, 4),
        Entity { kind: EntityKind::Code, offset: 6, length: 8 },
    ];
    let out = format_reply("see func()", text, &entities);
    assert_eq!(out, "see func()");
}

#[test]
fn reply_not_found_falls_back_to_offset_zero() {
    // The reply content does not occur in the text; the window starts at 0.
    let text = "abcdef";
    let entities = vec![Entity { kind: EntityKind::Code, offset: 0, length: 2 }];
    let out = format_reply("xy", text, &entities);
    assert_eq!(out, "<code>xy</code>");
}

#[test]
fn code_span_with_non_ascii_reply() {
    let text = "/add k see \u{4e16}\u{754c}!";
    let entities = vec![
        command_entity(0, 4),
        Entity { kind: EntityKind::Code, offset: 11, length: 2 },
    ];
    let out = format_reply("see \u{4e16}\u{754c}!", text, &entities);
    assert_eq!(out, "see <code>\u{4e16}\u{754c}</code>!");
}

#[test]
fn argument_trim_covers_unicode_whitespace() {
    // Vertical tab, no-break space and ideographic space are all removed
    // before the argument, like str::trim_start would remove them.
    let content = content_after_command("/del\u{000B}\u{00A0}\u{3000}ip", "/del");
    assert_eq!(content, "ip");
}
