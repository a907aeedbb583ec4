//! The bot's connection to a board: its settings, the URL it polls, and
//! the decisions it takes on each post read and each reply sent. The
//! network exchange itself happens outside this crate.
use vstd::prelude::*;
use crate::commands::{opt_text, CommandSet, CommandSetView};
use crate::message::{
    lemma_add_message_idempotent, lemma_known_any_reply, lemma_outbound_any_sent_reply,
    lemma_queued_reply_known, lemma_requeue_restores, InboundMessage,
    MessageQueue,
    OutboundMessage, QueueView,
};
use crate::text::{join_text, decimal, decimal_string};
use http::header::InvalidHeaderValue;
use http::{HeaderMap, HeaderValue};

verus! {

#[verifier::external_type_specification]
#[verifier::external_body]
#[verifier::reject_recursive_types(T)]
pub struct ExHeaderMap<T>(HeaderMap<T>);

#[verifier::external_type_specification]
#[verifier::external_body]
pub struct ExHeaderValue(HeaderValue);

#[verifier::external_type_specification]
#[verifier::external_body]
pub struct ExInvalidHeaderValue(InvalidHeaderValue);

/// What a header map holds: for each header name (in lower case) the texts
/// of its values, in order.
pub uninterp spec fn header_entries(map: HeaderMap<HeaderValue>) -> Map<Seq<char>, Seq<Seq<char>>>;

/// A character that a header value may hold: a tab, or anything from the
/// space on except DEL (every non-ASCII character is encoded in bytes of
/// 128 and more, which are allowed).
pub open spec fn header_char(c: char) -> bool {
    c == '\t' || (c as u32 >= 32 && c as u32 != 127)
}

/// Every character of `s` may stand in a header value.
pub open spec fn header_text(s: Seq<char>) -> bool {
    forall|i: int| 0 <= i < s.len() ==> header_char(#[trigger] s[i])
}

/// `HeaderMap::new`: an empty map.
#[verifier::external_body]
fn new_header_map() -> (map: HeaderMap)
    ensures
        header_entries(map) == (Map::<Seq<char>, Seq<Seq<char>>>::empty()),
{
    HeaderMap::new()
}

/// `HeaderMap::insert` under the `cookie` header (`http::header::COOKIE`)
/// of the value `HeaderValue::from_str(value)`: it fails, leaving the map
/// as it was, when `value` holds a character that a header value may not
/// hold, and otherwise replaces all earlier values of the header. The map
/// must hold no other header, so it cannot outgrow its capacity.
#[verifier::external_body]
fn insert_cookie(map: &mut HeaderMap, value: &str) -> (r: Result<(), InvalidHeaderValue>)
    requires
        header_entries(*old(map)).dom().subset_of(set!["cookie"@]),
    ensures
        r is Ok <==> header_text(value@),
        r is Ok ==> header_entries(*final(map)) == header_entries(*old(map)).insert(
            "cookie"@,
            seq![value@],
        ),
        r is Err ==> header_entries(*final(map)) == header_entries(*old(map)),
{
    match HeaderValue::from_str(value) {
        Ok(v) => {
            map.insert(http::header::COOKIE, v);
            Ok(())
        },
        Err(e) => Err(e),
    }
}

proof fn lemma_header_text_concat(a: Seq<char>, b: Seq<char>)
    ensures
        header_text(a + b) == (header_text(a) && header_text(b)),
{
    if header_text(a) && header_text(b) {
        assert forall|i: int| 0 <= i < (a + b).len() implies header_char(#[trigger] (a + b)[i]) by {
            if i < a.len() {
                assert(header_char(a[i]));
            } else {
                assert(header_char(b[i - a.len()]));
            }
        }
    }
    if header_text(a + b) {
        assert forall|i: int| 0 <= i < a.len() implies header_char(#[trigger] a[i]) by {
            assert(header_char((a + b)[i]));
        }
        assert forall|i: int| 0 <= i < b.len() implies header_char(#[trigger] b[i]) by {
            assert(header_char((a + b)[i + a.len()]));
        }
    }
}

/// The name and tripcode the bot posts under.
#[derive(Debug)]
pub struct BotConfiguration {
    pub name: String,
    pub trip: String,
}

impl BotConfiguration {
    /// The bot's posting identity.
    pub fn init(name: String, trip: String) -> (c: BotConfiguration)
        ensures
            c.name == name,
            c.trip == trip,
    {
        BotConfiguration { name: name, trip: trip }
    }
}

/// The abstract state of a [`ChanConnection`].
pub struct ConnectionView {
    pub name: String,
    pub trip: String,
    pub lastpost: u32,
    pub limit: u8,
    pub raw_get_url: Seq<char>,
    pub queue: QueueView,
    pub post_url: Seq<char>,
    pub anna_cookie: Seq<char>,
    pub commands: CommandSetView,
}

/// The text of a reply to post `to`: `>>`, the post number, a line break
/// and the text.
pub open spec fn reply_text(to: u32, text: Seq<char>) -> Seq<char> {
    ">>"@ + decimal(to as nat) + "\n"@ + text
}

impl ConnectionView {
    /// The URL that fetches the latest posts: at most `limit` of them, and
    /// once a post has been seen, counted from the last one.
    pub open spec fn url(self) -> Seq<char> {
        let base = self.raw_get_url + "?limit="@ + decimal(self.limit as nat);
        if self.lastpost != 0 {
            base + "&count="@ + decimal(self.lastpost as nat)
        } else {
            base
        }
    }

    /// `out` is the bot's reply to post `m` with text `text`: same chat and
    /// conversation, posted under the bot's name and tripcode, marked as a
    /// reply to `m`.
    pub open spec fn is_reply(self, m: InboundMessage, text: Seq<char>, out: OutboundMessage) -> bool {
        &&& out.chat == m.chat
        &&& out.name == Some(self.name)
        &&& out.trip == Some(self.trip)
        &&& out.body@ == reply_text(m.count, text)
        &&& out.convo == m.convo
        &&& out.reply_to == Some(m.count)
    }

    /// The queue after offering reply `out`: it is queued unless the same
    /// reply is already queued or sent.
    pub open spec fn offer(q: QueueView, out: OutboundMessage) -> QueueView {
        if q.knows_outbound(out) {
            q
        } else {
            q.push_outbound(out)
        }
    }

    /// Post `m` is new, not the bot's own and not yet replied to, so the
    /// commands are consulted on it.
    pub open spec fn consults(self, m: InboundMessage) -> bool {
        let is_bot = self.queue.is_outbound(m);
        self.queue.accepts(m, is_bot) && !is_bot && m.replied_to != Some(true)
    }

    /// The commands give `answer` to post `m`, and `after` holds the queue
    /// that results: with an answer, the reply `out` to `m` carrying it is
    /// offered to the queue of replies.
    pub open spec fn answered(
        self,
        m: InboundMessage,
        answer: Option<Seq<char>>,
        out: OutboundMessage,
        after: ConnectionView,
    ) -> bool {
        let queued = self.queue.add_message(m, self.queue.is_outbound(m));
        &&& self.commands.answers(m.body@, answer)
        &&& match answer {
            Some(text) => self.is_reply(m, text, out) && after.queue == Self::offer(queued, out),
            None => after.queue == queued,
        }
    }

    /// Reading post `m` takes the connection from `self` to `after`: the
    /// post is offered to the queue (as the bot's own post when it echoes a
    /// sent reply), its number becomes the last post seen, and when the
    /// commands are consulted and give an answer, the reply to `m` with
    /// that answer is offered to the queue of replies.
    pub open spec fn received(self, m: InboundMessage, after: ConnectionView) -> bool {
        let is_bot = self.queue.is_outbound(m);
        let queued = self.queue.add_message(m, is_bot);
        &&& after == ConnectionView { lastpost: m.count, queue: after.queue, ..self }
        &&& if self.consults(m) {
            exists|answer: Option<Seq<char>>, out: OutboundMessage|
                #[trigger] self.answered(m, answer, out, after)
        } else {
            after.queue == queued
        }
    }

    /// Reading the posts of `ms` from the last one to the first takes the
    /// connection from `self` to `after`.
    pub open spec fn received_all(self, ms: Seq<InboundMessage>, after: ConnectionView) -> bool
        decreases ms.len(),
    {
        if ms.len() == 0 {
            after == self
        } else {
            exists|mid: ConnectionView|
                #[trigger] self.received(ms.last(), mid) && mid.received_all(ms.drop_last(), after)
        }
    }

    /// The state after taking the next reply out to send it.
    pub open spec fn taken(self) -> ConnectionView {
        ConnectionView { queue: self.queue.pop_outbound(), ..self }
    }

    /// The state after the board's answer to reply `m`: a refused reply
    /// goes back in front of the queue; a reply that went through marks the
    /// post it answers and is recorded as sent.
    pub open spec fn finished(self, m: OutboundMessage, failed_to_send: bool) -> ConnectionView {
        if failed_to_send {
            ConnectionView { queue: self.queue.push_front_outbound(m), ..self }
        } else {
            let marked = match m.reply_to {
                Some(id) => self.queue.marked(id),
                None => self.queue,
            };
            ConnectionView { queue: marked.push_history(m), ..self }
        }
    }
}

/// The posts and bot posts held, and the replies sent: the parts of a
/// queue that decide how a post is read.
pub open spec fn same_inbound(a: QueueView, b: QueueView) -> bool {
    a.messages == b.messages && a.bot_messages == b.bot_messages && a.history == b.history
}

/// Reading the posts of `ms` from the last one to the first, starting from
/// queue `q`, the commands can answer every post they are consulted on.
pub open spec fn batch_answerable(q: QueueView, commands: CommandSetView, ms: Seq<InboundMessage>) -> bool
    decreases ms.len(),
{
    if ms.len() == 0 {
        true
    } else {
        let m = ms.last();
        let is_bot = q.is_outbound(m);
        &&& (q.accepts(m, is_bot) && !is_bot && m.replied_to != Some(true) ==> commands.answerable(
            m.body@,
        ))
        &&& batch_answerable(q.add_message(m, is_bot), commands, ms.drop_last())
    }
}

proof fn lemma_batch_same_inbound(
    q1: QueueView,
    q2: QueueView,
    commands: CommandSetView,
    ms: Seq<InboundMessage>,
)
    requires
        same_inbound(q1, q2),
    ensures
        batch_answerable(q1, commands, ms) == batch_answerable(q2, commands, ms),
    decreases ms.len(),
{
    if ms.len() > 0 {
        let m = ms.last();
        let is_bot = q1.is_outbound(m);
        assert(q2.is_outbound(m) == is_bot);
        lemma_batch_same_inbound(
            q1.add_message(m, is_bot),
            q2.add_message(m, is_bot),
            commands,
            ms.drop_last(),
        );
    }
}

proof fn lemma_received_inbound(v: ConnectionView, m: InboundMessage, after: ConnectionView)
    requires
        v.received(m, after),
    ensures
        same_inbound(after.queue, v.queue.add_message(m, v.queue.is_outbound(m))),
        after.commands == v.commands,
{
    let queued = v.queue.add_message(m, v.queue.is_outbound(m));
    if after.queue != queued {
        let (answer, out) = choose|answer: Option<Seq<char>>, out: OutboundMessage|
            #[trigger] v.answered(m, answer, out, after);
        assert(after.queue == ConnectionView::offer(queued, out));
    }
}

/// `holds_count` seen through the counts of the posts.
proof fn lemma_counts_hold(s: Seq<InboundMessage>, c: u32)
    ensures
        QueueView::holds_count(s, c) == s.map_values(|x: InboundMessage| x.count).contains(c),
{
    let counts = s.map_values(|x: InboundMessage| x.count);
    if QueueView::holds_count(s, c) {
        let i = choose|i: int| 0 <= i < s.len() && s[i].count == c;
        assert(counts[i] == c);
    }
    if counts.contains(c) {
        let i = choose|i: int| 0 <= i < counts.len() && counts[i] == c;
        assert(s[i].count == c);
    }
}

/// The counts after a bounded append.
proof fn lemma_counts_append(s: Seq<InboundMessage>, m: InboundMessage)
    ensures
        QueueView::appended_bounded(s, m).map_values(|x: InboundMessage| x.count) == if s.len() > 20 {
            s.map_values(|x: InboundMessage| x.count).drop_first().push(m.count)
        } else {
            s.map_values(|x: InboundMessage| x.count).push(m.count)
        },
{
    assert(QueueView::appended_bounded(s, m).map_values(|x: InboundMessage| x.count) =~= if s.len()
        > 20 {
        s.map_values(|x: InboundMessage| x.count).drop_first().push(m.count)
    } else {
        s.map_values(|x: InboundMessage| x.count).push(m.count)
    });
}

fn holds_count(counts: &Vec<u32>, c: u32) -> (r: bool)
    ensures
        r == counts@.contains(c),
{
    let mut i: usize = 0;
    while i < counts.len()
        invariant
            i <= counts@.len(),
            forall|j: int| 0 <= j < i ==> counts@[j] != c,
        decreases counts@.len() - i,
    {
        if counts[i] == c {
            assert(counts@[i as int] == c);
            return true;
        }
        i = i + 1;
    }
    false
}

fn push_count_bounded(counts: &mut Vec<u32>, c: u32)
    ensures
        final(counts)@ == if old(counts)@.len() > 20 {
            old(counts)@.drop_first().push(c)
        } else {
            old(counts)@.push(c)
        },
{
    if counts.len() > 20 {
        counts.remove(0);
    }
    counts.push(c);
}

fn counts_of(list: &Vec<InboundMessage>) -> (r: Vec<u32>)
    ensures
        r@ == list@.map_values(|x: InboundMessage| x.count),
{
    let mut r: Vec<u32> = Vec::new();
    let mut i: usize = 0;
    while i < list.len()
        invariant
            i <= list@.len(),
            r@ == list@.take(i as int).map_values(|x: InboundMessage| x.count),
        decreases list@.len() - i,
    {
        r.push(list[i].count);
        i = i + 1;
        assert(r@ =~= list@.take(i as int).map_values(|x: InboundMessage| x.count));
    }
    assert(list@.take(i as int) =~= list@);
    r
}

/// A connection to a board.
#[derive(Debug)]
pub struct ChanConnection {
    config: BotConfiguration,
    pub lastpost: u32,
    limit: u8,
    raw_get_url: String,
    queue: MessageQueue,
    pub post_url: String,
    pub anna_cookie: String,
    commands: CommandSet,
}

impl View for ChanConnection {
    type V = ConnectionView;

    closed spec fn view(&self) -> ConnectionView {
        ConnectionView {
            name: self.config.name,
            trip: self.config.trip,
            lastpost: self.lastpost,
            limit: self.limit,
            raw_get_url: self.raw_get_url@,
            queue: self.queue@,
            post_url: self.post_url@,
            anna_cookie: self.anna_cookie@,
            commands: self.commands@,
        }
    }
}

impl ChanConnection {
    /// A connection that has seen no post yet and fetches 5 posts at a
    /// time.
    pub fn init(
        anna_cookie: String,
        get_url: String,
        post_url: String,
        name: String,
        trip: String,
        commands: CommandSet,
    ) -> (c: ChanConnection)
        ensures
            c@ == (ConnectionView {
                name: name,
                trip: trip,
                lastpost: 0,
                limit: 5,
                raw_get_url: get_url@,
                queue: QueueView::initial(),
                post_url: post_url@,
                anna_cookie: anna_cookie@,
                commands: commands@,
            }),
    {
        let queue = MessageQueue::init();
        let config = BotConfiguration::init(name, trip);
        ChanConnection {
            config: config,
            lastpost: 0u32,
            limit: 5u8,
            queue: queue,
            raw_get_url: get_url,
            post_url: post_url,
            anna_cookie: anna_cookie,
            commands: commands,
        }
    }

    /// The message queue.
    pub fn queue(&self) -> (r: &MessageQueue)
        ensures
            r@ == self@.queue,
    {
        &self.queue
    }

    /// The commands.
    pub fn commands(&self) -> (r: &CommandSet)
        ensures
            r@ == self@.commands,
    {
        &self.commands
    }

    /// The URL that fetches the latest posts.
    pub fn get_url(&self) -> (r: String)
        ensures
            r@ == self@.url(),
    {
        let mut result = self.raw_get_url.clone();
        result.append("?limit=");
        let limit = decimal_string(self.limit as u64);
        result.append(limit.as_str());
        if self.lastpost != 0u32 {
            result.append("&count=");
            let count = decimal_string(self.lastpost as u64);
            result.append(count.as_str());
        }
        result
    }

    /// The text of a reply to post `to`, or to the last post seen.
    pub fn construct_reply_text(&self, text: String, to: Option<u32>) -> (r: String)
        ensures
            r@ == reply_text(
                match to {
                    Some(n) => n,
                    None => self@.lastpost,
                },
                text@,
            ),
    {
        let postnumber = match to {
            Some(number) => number,
            None => self.lastpost,
        };
        let mut result = String::from_str(">>");
        let number = decimal_string(postnumber as u64);
        result.append(number.as_str());
        result.append("\n");
        result.append(text.as_str());
        result
    }

    /// The bot's reply to post `message` with text `raw_text`.
    pub fn construct_reply(&self, message: InboundMessage, raw_text: String) -> (r: OutboundMessage)
        ensures
            self@.is_reply(message, raw_text@, r),
    {
        let body = self.construct_reply_text(raw_text, Some(message.count));
        OutboundMessage {
            chat: message.chat,
            name: Some(self.config.name.clone()),
            trip: Some(self.config.trip.clone()),
            body: body,
            convo: message.convo,
            reply_to: Some(message.count),
        }
    }

    /// Queues reply `message` unless the same reply is queued or sent.
    pub fn add_to_outbound_queue(&mut self, message: OutboundMessage)
        ensures
            final(self)@ == (ConnectionView {
                queue: ConnectionView::offer(old(self)@.queue, message),
                ..old(self)@
            }),
    {
        if !self.queue.contains(message.clone()) {
            self.queue.add_to_outbound_queue(message);
        }
    }

    /// Reads post `message`: see [`ConnectionView::received`].
    pub fn add_to_queue(&mut self, message: InboundMessage)
        requires
            old(self)@.consults(message) ==> old(self)@.commands.answerable(message.body@),
        ensures
            old(self)@.received(message, final(self)@),
    {
        let ghost start = self@;
        let is_bot = self.queue.check_if_outbound(message.clone());
        self.lastpost = message.count;
        let added_to_queue = self.queue.add_to_queue(message.clone(), is_bot);
        if added_to_queue {
            if !is_bot && message.replied_to != Some(true) {
                let body = message.body.clone();
                let answer = self.commands.check_against_commands(body);
                assert(start.commands.answers(message.body@, opt_text(answer)));
                match answer {
                    Some(reply_text) => {
                        let ghost text = reply_text@;
                        assert(opt_text(answer) == Some(text));
                        let ghost m = message;
                        let new_message = self.construct_reply(message, reply_text);
                        let ghost out = new_message;
                        self.add_to_outbound_queue(new_message);
                        proof {
                            assert(start.consults(m));
                            assert(start.is_reply(m, text, out));
                            assert(self@.queue == ConnectionView::offer(
                                start.queue.add_message(m, is_bot),
                                out,
                            ));
                            assert(self@ == (ConnectionView {
                                lastpost: m.count,
                                queue: self@.queue,
                                ..start
                            }));
                            let ans: Option<Seq<char>> = Some(text);
                            assert(start.commands.answers(m.body@, ans));
                            assert(start.answered(m, ans, out, self@));
                            assert(start.received(m, self@));
                        }
                        return;
                    },
                    None => {
                        proof {
                            let o: OutboundMessage = arbitrary();
                            assert(start.answered(message, None, o, self@));
                        }
                    },
                }
            }
        }
    }

    /// Whether [`ChanConnection::process_messages`] can read the batch: the
    /// commands can answer every post of it that they would be consulted on.
    pub fn can_process(&self, messages: &Vec<InboundMessage>) -> (r: bool)
        ensures
            r == batch_answerable(self@.queue, self@.commands, messages@),
    {
        let mut message_counts = counts_of(self.queue.messages());
        let mut bot_counts = counts_of(self.queue.bot_messages());
        let ghost mut q = self@.queue;
        let mut i: usize = messages.len();
        assert(messages@.take(i as int) =~= messages@);
        while i > 0
            invariant
                i <= messages@.len(),
                q.history == self@.queue.history,
                message_counts@ == q.messages.map_values(|x: InboundMessage| x.count),
                bot_counts@ == q.bot_messages.map_values(|x: InboundMessage| x.count),
                batch_answerable(self@.queue, self@.commands, messages@) == batch_answerable(
                    q,
                    self@.commands,
                    messages@.take(i as int),
                ),
            decreases i,
        {
            let m = &messages[i - 1];
            let ghost pending = messages@.take(i as int);
            assert(pending.last() == *m);
            assert(pending.drop_last() == messages@.take(i - 1));
            let is_bot = self.queue.check_if_outbound(m.clone());
            assert(q.is_outbound(*m) == is_bot);
            let known = if is_bot {
                holds_count(&bot_counts, m.count)
            } else {
                holds_count(&message_counts, m.count)
            };
            proof {
                lemma_counts_hold(q.messages, m.count);
                lemma_counts_hold(q.bot_messages, m.count);
                lemma_counts_append(q.messages, *m);
                lemma_counts_append(q.bot_messages, *m);
            }
            assert(known == !q.accepts(*m, is_bot));
            if !known && !is_bot && m.replied_to != Some(true) {
                if !self.commands.can_answer(&m.body) {
                    return false;
                }
            }
            if !known {
                if is_bot {
                    push_count_bounded(&mut bot_counts, m.count);
                } else {
                    push_count_bounded(&mut message_counts, m.count);
                }
            }
            proof {
                q = q.add_message(*m, is_bot);
            }
            i = i - 1;
        }
        true
    }

    /// Reads a batch of posts as the board lists them, newest first: they
    /// are taken oldest first.
    pub fn process_messages(&mut self, messages: Vec<InboundMessage>)
        requires
            batch_answerable(old(self)@.queue, old(self)@.commands, messages@),
        ensures
            old(self)@.received_all(messages@, final(self)@),
    {
        let ghost all = messages@;
        let mut messages = messages;
        while messages.len() > 0
            invariant
                all.len() >= messages@.len(),
                messages@ == all.take(messages@.len() as int),
                batch_answerable(self@.queue, self@.commands, messages@),
                self@.commands == old(self)@.commands,
                forall|after: ConnectionView|
                    #[trigger] self@.received_all(messages@, after) ==> old(self)@.received_all(
                        all,
                        after,
                    ),
            decreases messages@.len(),
        {
            let ghost before = self@;
            let ghost pending = messages@;
            let message = messages.pop().unwrap();
            proof {
                assert(pending.last() == message);
                assert(all[pending.len() - 1] == message);
            }
            self.add_to_queue(message);
            proof {
                assert(pending.drop_last() == messages@);
                lemma_received_inbound(before, message, self@);
                lemma_batch_same_inbound(
                    self@.queue,
                    before.queue.add_message(message, before.queue.is_outbound(message)),
                    self@.commands,
                    messages@,
                );
                assert forall|after: ConnectionView|
                    #[trigger] self@.received_all(messages@, after) implies old(
                        self,
                    )@.received_all(all, after) by {
                    assert(before.received(pending.last(), self@));
                    assert(before.received_all(pending, after));
                }
            }
        }
        proof {
            assert(self@.received_all(messages@, self@));
        }
    }

    /// The request headers: the cookie `nolimitcookie` with the bot's
    /// cookie. (The `password_livechan` cookie is set first and then
    /// replaced, since a header map keeps one value per insert.)
    pub fn headers(&self) -> (r: HeaderMap)
        requires
            header_text(self@.anna_cookie),
        ensures
            header_entries(r) == Map::<Seq<char>, Seq<Seq<char>>>::empty().insert(
                "cookie"@,
                seq!["nolimitcookie="@ + self@.anna_cookie],
            ),
    {
        let mut headers = new_header_map();
        let first = join_text("password_livechan=", self.anna_cookie.as_str());
        let second = join_text("nolimitcookie=", self.anna_cookie.as_str());
        proof {
            reveal_strlit("password_livechan=");
            reveal_strlit("nolimitcookie=");
            assert(header_text("password_livechan="@));
            assert(header_text("nolimitcookie="@));
            lemma_header_text_concat("password_livechan="@, self@.anna_cookie);
            lemma_header_text_concat("nolimitcookie="@, self@.anna_cookie);
        }
        let r1 = insert_cookie(&mut headers, first.as_str());
        proof {
            assert(header_entries(headers).dom() =~= set!["cookie"@]);
        }
        let r2 = insert_cookie(&mut headers, second.as_str());
        proof {
            assert(header_entries(headers) =~= Map::<Seq<char>, Seq<Seq<char>>>::empty().insert(
                "cookie"@,
                seq!["nolimitcookie="@ + self@.anna_cookie],
            ));
        }
        headers
    }

    /// Takes the next reply out of the queue to send it.
    pub fn attempt_sending_outbound(&mut self) -> (r: Option<OutboundMessage>)
        ensures
            r == old(self)@.queue.first_outbound(),
            final(self)@ == old(self)@.taken(),
    {
        self.queue.first_to_send()
    }

    /// Records the board's answer to reply `message`: refused replies go
    /// back in front of the queue, others mark the post they answer and
    /// are recorded as sent.
    pub fn finish_sending(&mut self, message: OutboundMessage, failed_to_send: bool)
        ensures
            final(self)@ == old(self)@.finished(message, failed_to_send),
    {
        if failed_to_send {
            self.queue.append_as_first(message);
        } else {
            if message.reply_to.is_some() {
                self.queue.mark_as_replied_to(message.reply_to.unwrap_or(0u32));
            }
            self.queue.add_to_outbound_history(message);
        }
    }
}

/// A reply whose sending is refused goes back to where it was: taking it
/// out and recording the refusal leaves the connection unchanged.
pub proof fn lemma_refused_send_restores(v: ConnectionView)
    requires
        v.queue.outbound.len() > 0,
    ensures
        v.taken().finished(v.queue.first_outbound().unwrap(), true) == v,
{
    lemma_requeue_restores(v.queue);
}

/// Once a reply has gone through, the post that echoes it is the bot's
/// own, so the commands are never consulted on it.
pub proof fn lemma_own_post_not_answered(v: ConnectionView, out: OutboundMessage, echo: InboundMessage)
    requires
        QueueView::echoes(out, echo),
    ensures
        !v.finished(out, false).consults(echo),
{
    let marked = match out.reply_to {
        Some(id) => v.queue.marked(id),
        None => v.queue,
    };
    assert(QueueView::echoes(marked.push_history(out).history[marked.history.len() as int], echo));
}

/// A post is answered at most once: after it has been read, reading it
/// again does not consult the commands.
pub proof fn lemma_answered_once(v: ConnectionView, m: InboundMessage, after: ConnectionView)
    requires
        v.received(m, after),
    ensures
        !after.consults(m),
        after.lastpost == m.count,
        after.commands == v.commands,
{
    let is_bot = v.queue.is_outbound(m);
    let queued = v.queue.add_message(m, is_bot);
    lemma_add_message_idempotent(v.queue, m, is_bot);
    assert(queued.history == v.queue.history);
    if after.queue != queued {
        let (answer, out) = choose|answer: Option<Seq<char>>, out: OutboundMessage|
            #[trigger] v.answered(m, answer, out, after);
        assert(after.queue == ConnectionView::offer(queued, out));
        assert(after.queue.history == queued.history);
        assert(after.queue.messages == queued.messages);
        assert(after.queue.bot_messages == queued.bot_messages);
    }
    assert(after.queue.is_outbound(m) == is_bot);
    assert(after.queue.target(is_bot) == queued.target(is_bot));
}

/// Offering the same reply twice queues it once.
pub proof fn lemma_offer_idempotent(q: QueueView, out: OutboundMessage)
    ensures
        ConnectionView::offer(ConnectionView::offer(q, out), out) == ConnectionView::offer(q, out),
        ConnectionView::offer(q, out).knows_outbound(out),
{
    if !q.knows_outbound(out) {
        lemma_queued_reply_known(q, out);
    }
}

/// The commands are consulted on a post exactly when no stored post of its
/// list (the bot's own posts when some sent reply has its body and
/// conversation, the others otherwise) has its count, it echoes no sent
/// reply, and it is not marked as replied to.
pub proof fn lemma_consults_exactly(v: ConnectionView, m: InboundMessage)
    ensures
        v.consults(m) <==> {
            &&& forall|i: int|
                0 <= i < v.queue.history.len() ==> !((#[trigger] v.queue.history[i]).body@
                    == m.body@ && v.queue.history[i].convo@ == m.convo@)
            &&& forall|i: int|
                0 <= i < v.queue.messages.len() ==> (#[trigger] v.queue.messages[i]).count
                    != m.count
            &&& m.replied_to != Some(true)
        },
{
    lemma_outbound_any_sent_reply(v.queue, m, arbitrary());
}

/// Offering a reply queues it last, unless a reply with the same
/// conversation and replied-to post is queued or sent; nothing else of the
/// queue changes.
pub proof fn lemma_offer_exactly(q: QueueView, out: OutboundMessage)
    ensures
        ConnectionView::offer(q, out).messages == q.messages,
        ConnectionView::offer(q, out).bot_messages == q.bot_messages,
        ConnectionView::offer(q, out).history == q.history,
        q.knows_outbound(out) ==> ConnectionView::offer(q, out).outbound == q.outbound,
        !q.knows_outbound(out) ==> ConnectionView::offer(q, out).outbound == q.outbound.push(out),
        (forall|i: int|
            0 <= i < q.outbound.len() ==> !((#[trigger] q.outbound[i]).convo@ == out.convo@
                && q.outbound[i].reply_to == out.reply_to)) && (forall|i: int|
            0 <= i < q.history.len() ==> !((#[trigger] q.history[i]).convo@ == out.convo@
                && q.history[i].reply_to == out.reply_to)) ==> ConnectionView::offer(q, out).outbound
            == q.outbound.push(out),
{
    lemma_known_any_reply(q, out, out);
}

/// The polling URL is the base URL, `?limit=` and the limit, followed by
/// `&count=` and the last post's number once a post has been seen.
pub proof fn lemma_url_parts(v: ConnectionView)
    ensures
        v.lastpost == 0 ==> v.url() == v.raw_get_url + "?limit="@ + decimal(v.limit as nat),
        v.lastpost != 0 ==> v.url() == v.raw_get_url + "?limit="@ + decimal(v.limit as nat)
            + "&count="@ + decimal(v.lastpost as nat),
        v.url().take(v.raw_get_url.len() as int) == v.raw_get_url,
{
    let base = v.raw_get_url + "?limit="@ + decimal(v.limit as nat);
    assert(base.take(v.raw_get_url.len() as int) =~= v.raw_get_url);
    assert((base + "&count="@ + decimal(v.lastpost as nat)).take(v.raw_get_url.len() as int)
        =~= v.raw_get_url);
}

/// A reply to post `to` quotes its number: `>>`, the number, a line break,
/// then the text.
pub proof fn lemma_reply_text_parts(to: u32, text: Seq<char>)
    ensures
        reply_text(to, text).take(2) == seq!['>', '>'],
        reply_text(to, text).skip(2).take(decimal(to as nat).len() as int) == decimal(to as nat),
        reply_text(to, text)[2 + decimal(to as nat).len() as int] == '\n',
        reply_text(to, text).skip(3 + decimal(to as nat).len() as int) == text,
{
    reveal_strlit(">>");
    reveal_strlit("\n");
    let d = decimal(to as nat);
    let r = reply_text(to, text);
    assert(r =~= seq!['>', '>'] + d + seq!['\n'] + text);
    assert(r.take(2) =~= seq!['>', '>']);
    assert(r.skip(2).take(d.len() as int) =~= d);
    assert(r.skip(3 + d.len() as int) =~= text);
}

/// After the board's answer the reply is either first in line again
/// (refused) or last among the sent replies with the post it answers
/// marked (accepted); the other parts of the connection do not change.
pub proof fn lemma_finished_exactly(v: ConnectionView, m: OutboundMessage, failed: bool)
    ensures
        failed ==> v.finished(m, failed).queue.outbound == seq![m] + v.queue.outbound,
        failed ==> v.finished(m, failed).queue.history == v.queue.history,
        failed ==> v.finished(m, failed).queue.messages == v.queue.messages,
        !failed ==> v.finished(m, failed).queue.outbound == v.queue.outbound,
        !failed ==> v.finished(m, failed).queue.history == v.queue.history.push(m),
        !failed && m.reply_to is None ==> v.finished(m, failed).queue.messages == v.queue.messages,
        !failed && m.reply_to is Some ==> v.finished(m, failed).queue.messages == v.queue.marked(
            m.reply_to.unwrap(),
        ).messages,
        v.finished(m, failed).lastpost == v.lastpost,
        v.finished(m, failed).commands == v.commands,
        v.taken().queue == v.queue.pop_outbound(),
        v.taken().lastpost == v.lastpost,
{
}

} // verus!
