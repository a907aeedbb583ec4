use rusty_anna::commands::CommandSet;
use rusty_anna::connection::{BotConfiguration, ChanConnection};
use rusty_anna::message::InboundMessage;

const CONFIG: &str = "commands:\n  greet:\n    regex: \"^hi$\"\n    replies: [\"hello\"]\n";

fn inbound(count: u32, body: &str) -> InboundMessage {
    InboundMessage {
        _id: format!("id{}", count),
        body: body.to_string(),
        chat: "int".to_string(),
        convo: "General".to_string(),
        count,
        country: None,
        country_name: None,
        date: "2020-01-01".to_string(),
        identifier: "x".to_string(),
        name: "anon".to_string(),
        trip: None,
        thumb: None,
        image_height: None,
        image_width: None,
        image_filesize: None,
        image_filename: None,
        image: None,
        replied_to: None,
    }
}

fn connection() -> ChanConnection {
    let commands = CommandSet::init(Some(CONFIG.to_string())).unwrap().unwrap();
    ChanConnection::init(
        "secret".to_string(),
        "https://kotchan.fun/last/int/".to_string(),
        "https://kotchan.fun/chat/int/".to_string(),
        "salobot".to_string(),
        "trip".to_string(),
        commands,
    )
}

#[test]
fn bot_configuration_keeps_identity() {
    let c = BotConfiguration::init("n".to_string(), "t".to_string());
    assert_eq!(c.name, "n");
    assert_eq!(c.trip, "t");
}

#[test]
fn url_counts_from_last_post() {
    let mut c = connection();
    assert_eq!(c.lastpost, 0);
    assert_eq!(c.get_url(), "https://kotchan.fun/last/int/?limit=5");
    c.add_to_queue(inbound(42, "nothing to see"));
    assert_eq!(c.lastpost, 42);
    assert_eq!(c.get_url(), "https://kotchan.fun/last/int/?limit=5&count=42");
}

#[test]
fn reply_text_quotes_the_post() {
    let mut c = connection();
    assert_eq!(c.construct_reply_text("yo".to_string(), Some(7)), ">>7\nyo");
    assert_eq!(c.construct_reply_text("yo".to_string(), None), ">>0\nyo");
    c.add_to_queue(inbound(12, "x"));
    assert_eq!(c.construct_reply_text("yo".to_string(), None), ">>12\nyo");
}

#[test]
fn construct_reply_fills_the_fields() {
    let c = connection();
    let r = c.construct_reply(inbound(5, "hi"), "hello".to_string());
    assert_eq!(r.chat, "int");
    assert_eq!(r.name, Some("salobot".to_string()));
    assert_eq!(r.trip, Some("trip".to_string()));
    assert_eq!(r.body, ">>5\nhello");
    assert_eq!(r.convo, "General");
    assert_eq!(r.reply_to, Some(5));
}

#[test]
fn matching_post_gets_one_reply() {
    let mut c = connection();
    c.add_to_queue(inbound(10, "hi"));
    assert_eq!(c.queue().outbound_messages().len(), 1);
    let reply = &c.queue().outbound_messages()[0];
    assert_eq!(reply.body, ">>10\nhello");
    assert_eq!(reply.reply_to, Some(10));
    // reading the same post again adds nothing
    c.add_to_queue(inbound(10, "hi"));
    assert_eq!(c.queue().outbound_messages().len(), 1);
    assert_eq!(c.queue().messages().len(), 1);
}

#[test]
fn replied_posts_are_not_answered() {
    let mut c = connection();
    let mut m = inbound(11, "hi");
    m.replied_to = Some(true);
    c.add_to_queue(m);
    assert!(c.queue().outbound_messages().is_empty());
    assert_eq!(c.queue().messages().len(), 1);
}

#[test]
fn sending_and_echo() {
    let mut c = connection();
    c.add_to_queue(inbound(10, "hi"));
    // the board refuses: the reply stays first in line
    let reply = c.attempt_sending_outbound().unwrap();
    assert!(c.queue().outbound_messages().is_empty());
    c.finish_sending(reply, true);
    assert_eq!(c.queue().outbound_messages().len(), 1);
    // the board accepts: the post is marked and the reply recorded
    let reply = c.attempt_sending_outbound().unwrap();
    c.finish_sending(reply, false);
    assert!(c.queue().outbound_messages().is_empty());
    assert_eq!(c.queue().outbound_messages_history().len(), 1);
    assert_eq!(c.queue().messages()[0].replied_to, Some(true));
    assert!(c.attempt_sending_outbound().is_none());
    // the reply read back is the bot's own post and gets no answer
    c.add_to_queue(inbound(13, ">>10\nhello"));
    assert_eq!(c.queue().bot_messages().len(), 1);
    assert_eq!(c.queue().messages().len(), 1);
    assert!(c.queue().outbound_messages().is_empty());
}

#[test]
fn batches_are_read_oldest_first() {
    let mut c = connection();
    c.process_messages(vec![inbound(3, "hi"), inbound(2, "x")]);
    assert_eq!(c.lastpost, 3);
    let counts: Vec<u32> = c.queue().messages().iter().map(|m| m.count).collect();
    assert_eq!(counts, vec![2, 3]);
    assert_eq!(c.queue().outbound_messages().len(), 1);
    c.process_messages(vec![]);
    assert_eq!(c.lastpost, 3);
}

#[test]
fn headers_carry_the_cookie() {
    let c = connection();
    let h = c.headers();
    let values: Vec<String> = h
        .get_all(http::header::COOKIE)
        .iter()
        .map(|v| v.to_str().unwrap().to_string())
        .collect();
    assert_eq!(values, vec!["nolimitcookie=secret".to_string()]);
    assert_eq!(h.len(), 1);
}

#[test]
fn can_process_looks_only_at_consulted_posts() {
    let config = "commands:\n  e:\n    regex: \"^x$\"\n    replies: []\n";
    let commands = CommandSet::init(Some(config.to_string())).unwrap().unwrap();
    let mut c = ChanConnection::init(
        "secret".to_string(),
        "u".to_string(),
        "p".to_string(),
        "n".to_string(),
        "t".to_string(),
        commands,
    );
    assert!(!c.can_process(&vec![inbound(1, "x")]));
    assert!(c.can_process(&vec![inbound(1, "y")]));
    let mut replied = inbound(2, "x");
    replied.replied_to = Some(true);
    assert!(c.can_process(&vec![replied.clone()]));
    c.process_messages(vec![replied]);
    // the same post again is not new, so the commands are not consulted
    assert!(c.can_process(&vec![inbound(2, "x")]));
    // within one batch the older post is read first
    assert!(c.can_process(&vec![inbound(3, "y"), inbound(3, "y")]));
    assert!(!c.can_process(&vec![inbound(5, "x"), inbound(4, "y")]));
}

#[test]
fn can_process_accepts_ordinary_batches() {
    let c = connection();
    assert!(c.can_process(&vec![inbound(3, "hi"), inbound(2, "x"), inbound(1, ".help")]));
    assert!(c.can_process(&vec![]));
}
