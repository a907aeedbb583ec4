use rusty_anna::message::{InboundMessage, MessageQueue, OutboundMessage, PostResult};

fn inbound(count: u32, body: &str, convo: &str) -> InboundMessage {
    InboundMessage {
        _id: format!("id{}", count),
        body: body.to_string(),
        chat: "int".to_string(),
        convo: convo.to_string(),
        count,
        country: None,
        country_name: None,
        date: "2020-01-01".to_string(),
        identifier: "x".to_string(),
        name: "anon".to_string(),
        trip: None,
        thumb: None,
        image_height: None,
        image_width: None,
        image_filesize: None,
        image_filename: None,
        image: None,
        replied_to: None,
    }
}

fn outbound(body: &str, convo: &str, reply_to: Option<u32>) -> OutboundMessage {
    OutboundMessage {
        chat: "int".to_string(),
        name: Some("bot".to_string()),
        trip: None,
        body: body.to_string(),
        convo: convo.to_string(),
        reply_to,
    }
}

fn counts(v: &Vec<InboundMessage>) -> Vec<u32> {
    v.iter().map(|m| m.count).collect()
}

#[test]
fn post_result_reports_success() {
    let ok = PostResult { success: Some("success_posting".to_string()), failure: None, id: Some(3) };
    assert!(ok.is_successful());
    assert!(!ok.failed_to_send());
    let empty = PostResult { success: None, failure: None, id: None };
    assert!(!empty.is_successful());
    assert!(!empty.failed_to_send());
}

#[test]
fn post_result_countdown_means_retry() {
    let retry = PostResult { success: None, failure: Some("countdown_violation".to_string()), id: None };
    assert!(retry.failed_to_send());
    let broken = PostResult { success: None, failure: Some("database_update_error".to_string()), id: None };
    assert!(!broken.failed_to_send());
}

#[test]
fn messages_compare_as_documented() {
    assert!(inbound(1, "a", "General") == inbound(1, "b", "Other"));
    assert!(inbound(1, "a", "General") != inbound(2, "a", "General"));
    assert!(outbound("x", "General", Some(4)) == outbound("y", "General", Some(4)));
    assert!(outbound("x", "General", Some(4)) != outbound("x", "General", Some(5)));
    assert!(outbound("x", "General", None) != outbound("x", "Other", None));
    assert!(inbound(7, "x", "General") == outbound("x", "General", None));
    assert!(outbound("x", "General", None) == inbound(7, "x", "General"));
    assert!(inbound(7, "x", "General") != outbound("x", "Other", None));
}

#[test]
fn fresh_queue_is_empty() {
    let q = MessageQueue::init();
    assert!(q.messages().is_empty());
    assert!(q.bot_messages().is_empty());
    assert!(q.outbound_messages().is_empty());
    assert!(q.outbound_messages_history().is_empty());
}

#[test]
fn add_to_queue_refuses_known_counts() {
    let mut q = MessageQueue::init();
    assert!(q.add_to_queue(inbound(1, "a", "General"), false));
    assert!(!q.add_to_queue(inbound(1, "other body", "General"), false));
    assert_eq!(counts(q.messages()), vec![1]);
    // the bot's own posts are kept apart
    assert!(q.add_to_queue(inbound(1, "a", "General"), true));
    assert_eq!(counts(q.bot_messages()), vec![1]);
    assert!(!q.add_to_queue(inbound(1, "a", "General"), true));
}

#[test]
fn add_to_queue_keeps_at_most_twenty_one() {
    let mut q = MessageQueue::init();
    for c in 1..=25u32 {
        assert!(q.add_to_queue(inbound(c, "a", "General"), false));
    }
    assert_eq!(counts(q.messages()), (5..=25).collect::<Vec<u32>>());
    // an evicted post is accepted again
    assert!(q.add_to_queue(inbound(1, "a", "General"), false));
    assert_eq!(q.messages().len(), 21);
    assert_eq!(q.messages()[20].count, 1);
}

#[test]
fn outbound_queue_order_and_requeue() {
    let mut q = MessageQueue::init();
    assert!(q.first_to_send().is_none());
    q.add_to_outbound_queue(outbound("first", "General", Some(1)));
    q.add_to_outbound_queue(outbound("second", "General", Some(2)));
    let first = q.first_to_send().unwrap();
    assert_eq!(first.body, "first");
    assert_eq!(q.outbound_messages().len(), 1);
    q.append_as_first(first);
    let bodies: Vec<String> = q.outbound_messages().iter().map(|m| m.body.clone()).collect();
    assert_eq!(bodies, vec!["first".to_string(), "second".to_string()]);
}

#[test]
fn contains_looks_at_queue_and_history() {
    let mut q = MessageQueue::init();
    let m = outbound("hi", "General", Some(9));
    assert!(!q.contains(m.clone()));
    q.add_to_outbound_queue(m.clone());
    assert!(q.contains(outbound("other text", "General", Some(9))));
    let mut q2 = MessageQueue::init();
    q2.add_to_outbound_history(m.clone());
    assert!(q2.contains(m));
    assert!(!q2.contains(outbound("hi", "General", Some(10))));
}

#[test]
fn mark_as_replied_to_marks_matching_posts() {
    let mut q = MessageQueue::init();
    q.add_to_history(inbound(3, "a", "General"));
    q.add_to_history(inbound(4, "b", "General"));
    q.add_to_history(inbound(3, "c", "General"));
    q.mark_as_replied_to(3);
    let marks: Vec<Option<bool>> = q.messages().iter().map(|m| m.replied_to).collect();
    assert_eq!(marks, vec![Some(true), None, Some(true)]);
    q.mark_as_replied_to(0);
    q.mark_as_replied_to(3);
    let marks2: Vec<Option<bool>> = q.messages().iter().map(|m| m.replied_to).collect();
    assert_eq!(marks2, marks);
}

#[test]
fn mark_zero_marks_nothing() {
    let mut q = MessageQueue::init();
    q.add_to_history(inbound(0, "a", "General"));
    q.mark_as_replied_to(0);
    assert_eq!(q.messages()[0].replied_to, None);
}

#[test]
fn cleanup_trims_to_limits() {
    let mut q = MessageQueue::init();
    for c in 1..=25u32 {
        q.add_to_history(inbound(c, "a", "General"));
    }
    for c in 1..=35u32 {
        q.add_to_queue(inbound(c, "a", "General"), true);
    }
    for c in 1..=22u32 {
        q.add_to_outbound_history(outbound("x", "General", Some(c)));
    }
    q.cleanup();
    assert_eq!(counts(q.messages()), (6..=25).collect::<Vec<u32>>());
    // the bounded insertion already kept 21 bot posts, within the limit of 30
    assert_eq!(q.bot_messages().len(), 21);
    assert_eq!(q.outbound_messages_history().len(), 20);
    assert_eq!(q.outbound_messages_history()[0].reply_to, Some(3));
    // a second clean-up changes nothing
    q.cleanup();
    assert_eq!(q.messages().len(), 20);
    assert_eq!(q.outbound_messages_history().len(), 20);
}

#[test]
fn cleanup_counts_length_modulo_256() {
    let mut q = MessageQueue::init();
    for c in 1..=300u32 {
        q.add_to_history(inbound(c, "a", "General"));
    }
    q.cleanup();
    // 300 taken modulo 256 is 44, so 24 entries go and 276 stay
    assert_eq!(q.messages().len(), 276);
    assert_eq!(q.messages()[0].count, 25);
    let mut q2 = MessageQueue::init();
    for c in 1..=270u32 {
        q2.add_to_history(inbound(c, "a", "General"));
    }
    q2.cleanup();
    // 270 taken modulo 256 is 14, within the limit of 20
    assert_eq!(q2.messages().len(), 270);
}

#[test]
fn check_if_outbound_recognises_echoes() {
    let mut q = MessageQueue::init();
    assert!(!q.check_if_outbound(inbound(5, "hello", "General")));
    q.add_to_outbound_history(outbound("hello", "General", Some(1)));
    assert!(q.check_if_outbound(inbound(5, "hello", "General")));
    assert!(!q.check_if_outbound(inbound(5, "hello", "Other")));
    assert!(!q.check_if_outbound(inbound(5, "bye", "General")));
}
