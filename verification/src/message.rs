//! Chat messages and the bot's message queue: the posts read from the
//! board, the bot's own posts read back, and the replies waiting to be
//! sent together with those already sent.
use vstd::prelude::*;
use vstd::std_specs::cmp::PartialEqSpecImpl;

verus! {

/// A post the bot sends to the board.
#[derive(Debug)]
pub struct OutboundMessage {
    pub chat: String,
    pub name: Option<String>,
    pub trip: Option<String>,
    pub body: String,
    pub convo: String,
    pub reply_to: Option<u32>,
}

/// The board's answer to a post.
/// Known failures: "database_update_error", "countdown_violation";
/// known success: "success_posting".
#[derive(Debug, Clone)]
pub struct PostResult {
    pub success: Option<String>,
    pub failure: Option<String>,
    pub id: Option<u32>,
}

/// A post read from the board. Posts are told apart by their `count`.
#[derive(Debug)]
pub struct InboundMessage {
    pub _id: String,
    pub body: String,
    pub chat: String,
    pub convo: String,
    pub count: u32,
    pub country: Option<String>,
    pub country_name: Option<String>,
    pub date: String,
    pub identifier: String,
    pub name: String,
    pub trip: Option<String>,
    pub thumb: Option<String>,
    pub image_height: Option<u16>,
    pub image_width: Option<u16>,
    pub image_filesize: Option<u32>,
    pub image_filename: Option<String>,
    pub image: Option<String>,
    pub replied_to: Option<bool>,
}

fn clone_text(s: &Option<String>) -> (r: Option<String>)
    ensures
        r == *s,
{
    match s {
        Some(t) => Some(t.clone()),
        None => None,
    }
}

impl Clone for OutboundMessage {
    fn clone(&self) -> (r: Self)
        ensures
            r == *self,
    {
        OutboundMessage {
            chat: self.chat.clone(),
            name: clone_text(&self.name),
            trip: clone_text(&self.trip),
            body: self.body.clone(),
            convo: self.convo.clone(),
            reply_to: self.reply_to,
        }
    }
}

impl Clone for InboundMessage {
    fn clone(&self) -> (r: Self)
        ensures
            r == *self,
    {
        InboundMessage {
            _id: self._id.clone(),
            body: self.body.clone(),
            chat: self.chat.clone(),
            convo: self.convo.clone(),
            count: self.count,
            country: clone_text(&self.country),
            country_name: clone_text(&self.country_name),
            date: self.date.clone(),
            identifier: self.identifier.clone(),
            name: self.name.clone(),
            trip: clone_text(&self.trip),
            thumb: clone_text(&self.thumb),
            image_height: self.image_height,
            image_width: self.image_width,
            image_filesize: self.image_filesize,
            image_filename: clone_text(&self.image_filename),
            image: clone_text(&self.image),
            replied_to: self.replied_to,
        }
    }
}

/// The failure reason that means "posted too soon, try again later".
pub open spec fn countdown_violation() -> Seq<char> {
    "countdown_violation"@
}

impl PostResult {
    /// The board reported success.
    pub fn is_successful(&self) -> (r: bool)
        ensures
            r == self.success is Some,
    {
        self.success.is_some()
    }

    /// The post was refused because of the posting countdown, so it should
    /// be sent again.
    pub fn failed_to_send(&self) -> (r: bool)
        ensures
            r == (self.failure matches Some(reason) && reason@ == countdown_violation()),
    {
        match &self.failure {
            Some(reason) => {
                let expected = String::from_str("countdown_violation");
                *reason == expected
            },
            None => false,
        }
    }
}

impl PartialEq for InboundMessage {
    fn eq(&self, other: &Self) -> (r: bool) {
        self.count == other.count
    }
}

impl PartialEqSpecImpl for InboundMessage {
    open spec fn obeys_eq_spec() -> bool {
        true
    }

    open spec fn eq_spec(&self, other: &Self) -> bool {
        self.count == other.count
    }
}

impl PartialEq for OutboundMessage {
    fn eq(&self, other: &Self) -> (r: bool) {
        self.convo == other.convo && self.reply_to == other.reply_to
    }
}

impl PartialEqSpecImpl for OutboundMessage {
    open spec fn obeys_eq_spec() -> bool {
        true
    }

    open spec fn eq_spec(&self, other: &Self) -> bool {
        QueueView::same_outbound(*self, *other)
    }
}

impl PartialEq<OutboundMessage> for InboundMessage {
    fn eq(&self, other: &OutboundMessage) -> (r: bool) {
        self.body == other.body && self.convo == other.convo
    }
}

impl PartialEqSpecImpl<OutboundMessage> for InboundMessage {
    open spec fn obeys_eq_spec() -> bool {
        true
    }

    open spec fn eq_spec(&self, other: &OutboundMessage) -> bool {
        QueueView::echoes(*other, *self)
    }
}

impl PartialEq<InboundMessage> for OutboundMessage {
    fn eq(&self, other: &InboundMessage) -> (r: bool) {
        self.body == other.body && self.convo == other.convo
    }
}

impl PartialEqSpecImpl<InboundMessage> for OutboundMessage {
    open spec fn obeys_eq_spec() -> bool {
        true
    }

    open spec fn eq_spec(&self, other: &InboundMessage) -> bool {
        QueueView::echoes(*self, *other)
    }
}

/// The abstract state of a [`MessageQueue`].
pub struct QueueView {
    pub messages: Seq<InboundMessage>,
    pub bot_messages: Seq<InboundMessage>,
    pub outbound: Seq<OutboundMessage>,
    pub history: Seq<OutboundMessage>,
    pub limit_messages: u8,
    pub limit_bot_messages: u8,
    pub limit_outbound_messages: u8,
}

impl QueueView {
    /// The state of a fresh queue.
    pub open spec fn initial() -> QueueView {
        QueueView {
            messages: Seq::empty(),
            bot_messages: Seq::empty(),
            outbound: Seq::empty(),
            history: Seq::empty(),
            limit_messages: 20,
            limit_bot_messages: 30,
            limit_outbound_messages: 20,
        }
    }

    /// Two outbound posts are the same when they go to the same
    /// conversation as a reply to the same post.
    pub open spec fn same_outbound(a: OutboundMessage, b: OutboundMessage) -> bool {
        a.convo@ == b.convo@ && a.reply_to == b.reply_to
    }

    /// An inbound post is the echo of an outbound one when body and
    /// conversation agree.
    pub open spec fn echoes(o: OutboundMessage, m: InboundMessage) -> bool {
        o.body@ == m.body@ && o.convo@ == m.convo@
    }

    /// Some post in `s` has this count.
    pub open spec fn holds_count(s: Seq<InboundMessage>, count: u32) -> bool {
        exists|i: int| 0 <= i < s.len() && s[i].count == count
    }

    /// Some post in `s` is the same as `m`.
    pub open spec fn holds_outbound(s: Seq<OutboundMessage>, m: OutboundMessage) -> bool {
        exists|i: int| 0 <= i < s.len() && Self::same_outbound(s[i], m)
    }

    /// `s` with `m` appended, the oldest entry dropped first once `s` has
    /// more than 20 entries.
    pub open spec fn appended_bounded(s: Seq<InboundMessage>, m: InboundMessage) -> Seq<
        InboundMessage,
    > {
        if s.len() > 20 {
            s.drop_first().push(m)
        } else {
            s.push(m)
        }
    }

    /// The list that a post goes to: the bot's own posts or the others.
    pub open spec fn target(self, is_bot: bool) -> Seq<InboundMessage> {
        if is_bot {
            self.bot_messages
        } else {
            self.messages
        }
    }

    /// A post is accepted when no post with its count is stored yet.
    pub open spec fn accepts(self, m: InboundMessage, is_bot: bool) -> bool {
        !Self::holds_count(self.target(is_bot), m.count)
    }

    /// The state after offering post `m` to the queue.
    pub open spec fn add_message(self, m: InboundMessage, is_bot: bool) -> QueueView {
        if !self.accepts(m, is_bot) {
            self
        } else if is_bot {
            QueueView { bot_messages: Self::appended_bounded(self.bot_messages, m), ..self }
        } else {
            QueueView { messages: Self::appended_bounded(self.messages, m), ..self }
        }
    }

    /// The reply that is sent next.
    pub open spec fn first_outbound(self) -> Option<OutboundMessage> {
        if self.outbound.len() > 0 {
            Some(self.outbound[0])
        } else {
            None
        }
    }

    /// The state after taking the next reply out.
    pub open spec fn pop_outbound(self) -> QueueView {
        if self.outbound.len() > 0 {
            QueueView { outbound: self.outbound.drop_first(), ..self }
        } else {
            self
        }
    }

    /// The state after putting `m` in front of the replies.
    pub open spec fn push_front_outbound(self, m: OutboundMessage) -> QueueView {
        QueueView { outbound: seq![m] + self.outbound, ..self }
    }

    /// The state after queueing reply `m` last.
    pub open spec fn push_outbound(self, m: OutboundMessage) -> QueueView {
        QueueView { outbound: self.outbound.push(m), ..self }
    }

    /// The state after recording `m` among the posts read.
    pub open spec fn push_message(self, m: InboundMessage) -> QueueView {
        QueueView { messages: self.messages.push(m), ..self }
    }

    /// The state after recording `m` among the replies sent.
    pub open spec fn push_history(self, m: OutboundMessage) -> QueueView {
        QueueView { history: self.history.push(m), ..self }
    }

    /// `m` with its `replied_to` set when its count is `id`.
    pub open spec fn mark_one(m: InboundMessage, id: u32) -> InboundMessage {
        if m.count == id {
            InboundMessage { replied_to: Some(true), ..m }
        } else {
            m
        }
    }

    /// Every post in `s` with count `id` marked as replied to.
    pub open spec fn mark_all(s: Seq<InboundMessage>, id: u32) -> Seq<InboundMessage> {
        Seq::new(s.len(), |i: int| Self::mark_one(s[i], id))
    }

    /// The state after marking post `id` as replied to; 0 marks nothing.
    pub open spec fn marked(self, id: u32) -> QueueView {
        if id != 0 {
            QueueView { messages: Self::mark_all(self.messages, id), ..self }
        } else {
            self
        }
    }

    /// The reply `m` is already queued or already sent.
    pub open spec fn knows_outbound(self, m: OutboundMessage) -> bool {
        Self::holds_outbound(self.outbound, m) || Self::holds_outbound(self.history, m)
    }

    /// Post `m` is the echo of a reply the bot has sent.
    pub open spec fn is_outbound(self, m: InboundMessage) -> bool {
        exists|i: int| 0 <= i < self.history.len() && Self::echoes(self.history[i], m)
    }

    /// How many entries of a list of `len` entries the clean-up drops: it
    /// drops from the front while the length taken modulo 256 exceeds the
    /// limit.
    pub open spec fn excess(len: nat, limit: u8) -> nat {
        if len % 256 > limit {
            (len % 256 - limit) as nat
        } else {
            0
        }
    }

    /// The state after the clean-up of the three bounded lists.
    pub open spec fn cleaned(self) -> QueueView {
        QueueView {
            messages: self.messages.skip(
                Self::excess(self.messages.len(), self.limit_messages) as int,
            ),
            bot_messages: self.bot_messages.skip(
                Self::excess(self.bot_messages.len(), self.limit_bot_messages) as int,
            ),
            history: self.history.skip(
                Self::excess(self.history.len(), self.limit_outbound_messages) as int,
            ),
            ..self
        }
    }
}

/// The posts the bot has seen and the replies it has queued and sent.
#[derive(Debug)]
pub struct MessageQueue {
    messages: Vec<InboundMessage>,
    bot_messages: Vec<InboundMessage>,
    outbound_messages: Vec<OutboundMessage>,
    outbound_messages_history: Vec<OutboundMessage>,
    limit_messages: u8,
    limit_bot_messages: u8,
    limit_outbound_messages: u8,
}

impl View for MessageQueue {
    type V = QueueView;

    closed spec fn view(&self) -> QueueView {
        QueueView {
            messages: self.messages@,
            bot_messages: self.bot_messages@,
            outbound: self.outbound_messages@,
            history: self.outbound_messages_history@,
            limit_messages: self.limit_messages,
            limit_bot_messages: self.limit_bot_messages,
            limit_outbound_messages: self.limit_outbound_messages,
        }
    }
}

fn holds_message(list: &Vec<InboundMessage>, message: &InboundMessage) -> (r: bool)
    ensures
        r == QueueView::holds_count(list@, message.count),
{
    let mut i: usize = 0;
    while i < list.len()
        invariant
            i <= list.len(),
            forall|j: int| 0 <= j < i ==> list@[j].count != message.count,
        decreases list.len() - i,
    {
        if list[i] == *message {
            return true;
        }
        i = i + 1;
    }
    false
}

fn holds_outbound(list: &Vec<OutboundMessage>, message: &OutboundMessage) -> (r: bool)
    ensures
        r == QueueView::holds_outbound(list@, *message),
{
    let mut i: usize = 0;
    while i < list.len()
        invariant
            i <= list.len(),
            forall|j: int| 0 <= j < i ==> !QueueView::same_outbound(#[trigger] list@[j], *message),
        decreases list.len() - i,
    {
        if list[i] == *message {
            return true;
        }
        i = i + 1;
    }
    false
}

fn push_bounded(list: &mut Vec<InboundMessage>, message: InboundMessage)
    ensures
        final(list)@ == QueueView::appended_bounded(old(list)@, message),
{
    if list.len() > 20 {
        list.remove(0);
    }
    list.push(message);
}

fn trim_front<T>(list: &mut Vec<T>, limit: u8)
    ensures
        final(list)@ == old(list)@.skip(QueueView::excess(old(list)@.len(), limit) as int),
{
    let ghost start = list@;
    let ghost k = QueueView::excess(start.len(), limit);
    if list.len() > 0 {
        loop
            invariant_except_break
                start.len() >= list@.len(),
                list@ == start.skip(start.len() - list@.len()),
                start.len() - list@.len() <= k,
                k == QueueView::excess(start.len(), limit),
            ensures
                list@ == start.skip(k as int),
            decreases list@.len(),
        {
            let len = list.len();
            let ghost d = start.len() - len;
            let low = #[verifier::truncate] (len as u8);
            assert(low == len % 256) by (bit_vector)
                requires
                    low == #[verifier::truncate] (len as u8),
            ;
            assert(k > 0 ==> len % 256 == start.len() % 256 - d);
            if low <= limit {
                break;
            }
            list.remove(0);
            assert(list@ =~= start.skip(start.len() - list@.len()));
        }
    }
}

impl MessageQueue {
    /// An empty queue, keeping at most 20 posts, 30 bot posts and 20 sent
    /// replies after a clean-up.
    pub fn init() -> (q: MessageQueue)
        ensures
            q@ == QueueView::initial(),
    {
        MessageQueue {
            messages: Vec::new(),
            bot_messages: Vec::new(),
            outbound_messages: Vec::new(),
            outbound_messages_history: Vec::new(),
            limit_messages: 20u8,
            limit_bot_messages: 30u8,
            limit_outbound_messages: 20u8,
        }
    }

    /// The posts read, oldest first.
    pub fn messages(&self) -> (r: &Vec<InboundMessage>)
        ensures
            r@ == self@.messages,
    {
        &self.messages
    }

    /// The bot's own posts read back, oldest first.
    pub fn bot_messages(&self) -> (r: &Vec<InboundMessage>)
        ensures
            r@ == self@.bot_messages,
    {
        &self.bot_messages
    }

    /// The replies waiting to be sent, next first.
    pub fn outbound_messages(&self) -> (r: &Vec<OutboundMessage>)
        ensures
            r@ == self@.outbound,
    {
        &self.outbound_messages
    }

    /// The replies sent, oldest first.
    pub fn outbound_messages_history(&self) -> (r: &Vec<OutboundMessage>)
        ensures
            r@ == self@.history,
    {
        &self.outbound_messages_history
    }

    /// Takes the next reply to send out of the queue.
    pub fn first_to_send(&mut self) -> (r: Option<OutboundMessage>)
        ensures
            r == old(self)@.first_outbound(),
            final(self)@ == old(self)@.pop_outbound(),
    {
        if self.outbound_messages.len() > 0 {
            let first = self.outbound_messages.remove(0);
            Some(first)
        } else {
            None
        }
    }

    /// Puts a reply back in front of the queue.
    pub fn append_as_first(&mut self, first_item: OutboundMessage)
        ensures
            final(self)@ == old(self)@.push_front_outbound(first_item),
    {
        self.outbound_messages.insert(0, first_item);
        assert(self.outbound_messages@ =~= seq![first_item] + old(self).outbound_messages@);
    }

    /// Queues a reply last.
    pub fn add_to_outbound_queue(&mut self, message: OutboundMessage)
        ensures
            final(self)@ == old(self)@.push_outbound(message),
    {
        self.outbound_messages.push(message);
    }

    /// Marks the post with count `reply_to` as replied to; 0 marks nothing.
    pub fn mark_as_replied_to(&mut self, reply_to: u32)
        ensures
            final(self)@ == old(self)@.marked(reply_to),
    {
        if reply_to != 0u32 {
            let ghost start = self.messages@;
            let mut i: usize = 0;
            while i < self.messages.len()
                invariant
                    i <= self.messages@.len(),
                    self.messages@.len() == start.len(),
                    forall|j: int|
                        0 <= j < i ==> #[trigger] self.messages@[j] == QueueView::mark_one(
                            start[j],
                            reply_to,
                        ),
                    forall|j: int| i <= j < start.len() ==> #[trigger] self.messages@[j] == start[j],
                    self.bot_messages == old(self).bot_messages,
                    self.outbound_messages == old(self).outbound_messages,
                    self.outbound_messages_history == old(self).outbound_messages_history,
                    self.limit_messages == old(self).limit_messages,
                    self.limit_bot_messages == old(self).limit_bot_messages,
                    self.limit_outbound_messages == old(self).limit_outbound_messages,
                    start == old(self).messages@,
                decreases self.messages@.len() - i,
            {
                if self.messages[i].count == reply_to {
                    let mut message = self.messages.remove(i);
                    message.replied_to = Some(true);
                    self.messages.insert(i, message);
                }
                i = i + 1;
            }
            assert(self.messages@ =~= QueueView::mark_all(start, reply_to));
        }
    }

    /// The reply is already queued or already sent.
    pub fn contains(&self, message: OutboundMessage) -> (r: bool)
        ensures
            r == self@.knows_outbound(message),
    {
        holds_outbound(&self.outbound_messages, &message) || holds_outbound(
            &self.outbound_messages_history,
            &message,
        )
    }

    /// Offers a post to the queue: the bot's own posts and the others are
    /// kept apart, a post whose count is already stored is refused, and
    /// once a list holds more than 20 posts its oldest one is dropped to
    /// make room. Returns whether the post was taken.
    pub fn add_to_queue(&mut self, message: InboundMessage, is_bot: bool) -> (added: bool)
        ensures
            added == old(self)@.accepts(message, is_bot),
            final(self)@ == old(self)@.add_message(message, is_bot),
    {
        if is_bot {
            if !holds_message(&self.bot_messages, &message) {
                push_bounded(&mut self.bot_messages, message);
                return true;
            }
        } else {
            if !holds_message(&self.messages, &message) {
                push_bounded(&mut self.messages, message);
                return true;
            }
        }
        false
    }

    /// Records a post among the posts read, without any check.
    pub fn add_to_history(&mut self, message: InboundMessage)
        ensures
            final(self)@ == old(self)@.push_message(message),
    {
        self.messages.push(message);
    }

    /// Records a reply as sent.
    pub fn add_to_outbound_history(&mut self, message: OutboundMessage)
        ensures
            final(self)@ == old(self)@.push_history(message),
    {
        self.outbound_messages_history.push(message);
    }

    /// Drops the oldest entries of the posts, the bot posts and the sent
    /// replies while a list's length, taken modulo 256, exceeds its limit.
    pub fn cleanup(&mut self)
        ensures
            final(self)@ == old(self)@.cleaned(),
    {
        trim_front(&mut self.messages, self.limit_messages);
        trim_front(&mut self.bot_messages, self.limit_bot_messages);
        trim_front(&mut self.outbound_messages_history, self.limit_outbound_messages);
    }

    /// Post `message` is the echo of a reply the bot has sent.
    pub fn check_if_outbound(&self, message: InboundMessage) -> (r: bool)
        ensures
            r == self@.is_outbound(message),
    {
        let mut i: usize = 0;
        while i < self.outbound_messages_history.len()
            invariant
                i <= self.outbound_messages_history@.len(),
                forall|j: int|
                    0 <= j < i ==> !QueueView::echoes(
                        #[trigger] self.outbound_messages_history@[j],
                        message,
                    ),
            decreases self.outbound_messages_history@.len() - i,
        {
            if self.outbound_messages_history[i] == message {
                assert(QueueView::echoes(self@.history[i as int], message));
                return true;
            }
            i = i + 1;
        }
        false
    }
}

/// Taking the next reply out and putting it back in front leaves the
/// queue as it was: a reply whose sending is refused keeps its place.
pub proof fn lemma_requeue_restores(q: QueueView)
    requires
        q.outbound.len() > 0,
    ensures
        q.first_outbound() == Some(q.outbound[0]),
        q.pop_outbound().push_front_outbound(q.first_outbound().unwrap()) == q,
{
    assert(seq![q.outbound[0]] + q.outbound.drop_first() =~= q.outbound);
}

/// Offering the same post twice stores it once: after the first offer the
/// post is held, so the second is refused and changes nothing.
pub proof fn lemma_add_message_idempotent(q: QueueView, m: InboundMessage, is_bot: bool)
    ensures
        !q.add_message(m, is_bot).accepts(m, is_bot),
        q.add_message(m, is_bot).add_message(m, is_bot) == q.add_message(m, is_bot),
{
    let q1 = q.add_message(m, is_bot);
    if q.accepts(m, is_bot) {
        let t = q1.target(is_bot);
        assert(t[t.len() - 1] == m);
    }
}

/// An accepted post becomes the newest entry of its list, the other list
/// is untouched, and a list of at most 21 posts stays at most 21 long.
pub proof fn lemma_add_message_bounded(q: QueueView, m: InboundMessage, is_bot: bool)
    requires
        q.target(is_bot).len() <= 21,
    ensures
        q.add_message(m, is_bot).target(is_bot).len() <= 21,
        q.add_message(m, is_bot).target(!is_bot) == q.target(!is_bot),
        q.add_message(m, is_bot).outbound == q.outbound,
        q.add_message(m, is_bot).history == q.history,
        q.accepts(m, is_bot) ==> q.add_message(m, is_bot).target(is_bot).last() == m,
{
}

/// After a clean-up every bounded list is within its limit (its length
/// taken modulo 256), so a second clean-up changes nothing.
pub proof fn lemma_cleanup_idempotent(q: QueueView)
    ensures
        q.cleaned().messages.len() % 256 <= q.limit_messages,
        q.cleaned().bot_messages.len() % 256 <= q.limit_bot_messages,
        q.cleaned().history.len() % 256 <= q.limit_outbound_messages,
        q.cleaned().outbound == q.outbound,
        q.cleaned().cleaned() == q.cleaned(),
{
    lemma_excess_settles(q.messages.len(), q.limit_messages);
    lemma_excess_settles(q.bot_messages.len(), q.limit_bot_messages);
    lemma_excess_settles(q.history.len(), q.limit_outbound_messages);
    assert(q.cleaned().messages.skip(0) =~= q.cleaned().messages);
    assert(q.cleaned().bot_messages.skip(0) =~= q.cleaned().bot_messages);
    assert(q.cleaned().history.skip(0) =~= q.cleaned().history);
}

proof fn lemma_excess_settles(len: nat, limit: u8)
    ensures
        QueueView::excess(len, limit) <= len,
        ((len - QueueView::excess(len, limit)) as nat) % 256 <= limit,
        QueueView::excess((len - QueueView::excess(len, limit)) as nat, limit) == 0,
{
    let r = len % 256;
    let n = len / 256;
    assert(len == 256 * n + r);
    if r > limit {
        let rest = (len - (r - limit)) as nat;
        assert(rest == 256 * n + limit);
        assert(rest % 256 == limit as nat) by (nonlinear_arith)
            requires
                rest == 256 * n + limit,
                limit < 256,
        ;
    }
}

/// A reply that was just queued is known to the queue, so it is not
/// queued a second time.
pub proof fn lemma_queued_reply_known(q: QueueView, m: OutboundMessage)
    ensures
        q.push_outbound(m).knows_outbound(m),
{
    assert(QueueView::same_outbound(q.push_outbound(m).outbound[q.outbound.len() as int], m));
}

/// Once a reply is recorded as sent, a post read back with the same body
/// and conversation is recognised as the bot's own.
pub proof fn lemma_sent_reply_recognised(q: QueueView, o: OutboundMessage, m: InboundMessage)
    requires
        QueueView::echoes(o, m),
    ensures
        q.push_history(o).is_outbound(m),
{
    assert(QueueView::echoes(q.push_history(o).history[q.history.len() as int], m));
}

/// Marking a post as replied to keeps every post and its count, marks
/// exactly the posts with that count, and marking twice is marking once.
pub proof fn lemma_mark_replied(q: QueueView, id: u32)
    requires
        id != 0,
    ensures
        q.marked(id).messages.len() == q.messages.len(),
        forall|i: int|
            0 <= i < q.messages.len() ==> (#[trigger] q.marked(id).messages[i]).count
                == q.messages[i].count,
        forall|i: int|
            0 <= i < q.messages.len() && q.messages[i].count == id ==> (
            #[trigger] q.marked(id).messages[i]).replied_to == Some(true),
        forall|i: int|
            0 <= i < q.messages.len() && q.messages[i].count != id ==> #[trigger] q.marked(
                id,
            ).messages[i] == q.messages[i],
        q.marked(id).marked(id) == q.marked(id),
{
    let once = q.marked(id);
    let twice = once.marked(id);
    assert(twice.messages =~= once.messages);
}

/// A post read back is the bot's own exactly when some sent reply, at any
/// place in the record of sent replies, has the post's body and
/// conversation; recording more replies keeps it recognised.
pub proof fn lemma_outbound_any_sent_reply(q: QueueView, m: InboundMessage, o: OutboundMessage)
    ensures
        q.is_outbound(m) <==> exists|i: int|
            0 <= i < q.history.len() && (#[trigger] q.history[i]).body@ == m.body@
                && q.history[i].convo@ == m.convo@,
        forall|i: int|
            0 <= i < q.history.len() && (#[trigger] q.history[i]).body@ == m.body@
                && q.history[i].convo@ == m.convo@ ==> q.is_outbound(m),
        q.is_outbound(m) ==> q.push_history(o).is_outbound(m),
{
    if q.is_outbound(m) {
        let i = choose|i: int| 0 <= i < q.history.len() && QueueView::echoes(q.history[i], m);
        assert(q.push_history(o).history[i] == q.history[i]);
    }
}

/// A reply is known exactly when a reply with the same conversation and
/// the same replied-to post is anywhere in the queue or anywhere among the
/// sent replies; queueing or sending more replies keeps it known.
pub proof fn lemma_known_any_reply(q: QueueView, m: OutboundMessage, o: OutboundMessage)
    ensures
        q.knows_outbound(m) <==> (exists|i: int|
            0 <= i < q.outbound.len() && (#[trigger] q.outbound[i]).convo@ == m.convo@
                && q.outbound[i].reply_to == m.reply_to) || (exists|i: int|
            0 <= i < q.history.len() && (#[trigger] q.history[i]).convo@ == m.convo@
                && q.history[i].reply_to == m.reply_to),
        q.knows_outbound(m) ==> q.push_outbound(o).knows_outbound(m),
        q.knows_outbound(m) ==> q.push_history(o).knows_outbound(m),
{
    if QueueView::holds_outbound(q.outbound, m) {
        let i = choose|i: int| 0 <= i < q.outbound.len() && QueueView::same_outbound(q.outbound[i], m);
        assert(q.push_outbound(o).outbound[i] == q.outbound[i]);
        assert(q.push_history(o).outbound[i] == q.outbound[i]);
    }
    if QueueView::holds_outbound(q.history, m) {
        let i = choose|i: int| 0 <= i < q.history.len() && QueueView::same_outbound(q.history[i], m);
        assert(q.push_outbound(o).history[i] == q.history[i]);
        assert(q.push_history(o).history[i] == q.history[i]);
    }
}

/// A post is accepted exactly when no post stored in its list, at any
/// place, has its count.
pub proof fn lemma_accepts_any_count(q: QueueView, m: InboundMessage, is_bot: bool)
    ensures
        q.accepts(m, is_bot) <==> forall|i: int|
            0 <= i < q.target(is_bot).len() ==> (#[trigger] q.target(is_bot)[i]).count != m.count,
{
}

/// Offering a post: a refused post changes nothing; an accepted one is
/// appended after the stored posts, the oldest of which is dropped only
/// when more than 20 are stored.
pub proof fn lemma_add_message_shape(q: QueueView, m: InboundMessage, is_bot: bool)
    ensures
        !q.accepts(m, is_bot) ==> q.add_message(m, is_bot) == q,
        q.accepts(m, is_bot) ==> {
            let old_t = q.target(is_bot);
            let new_t = q.add_message(m, is_bot).target(is_bot);
            let dropped: int = if old_t.len() > 20 { 1 } else { 0 };
            &&& new_t.len() == old_t.len() + 1 - dropped
            &&& new_t[new_t.len() - 1] == m
            &&& forall|i: int| 0 <= i < new_t.len() - 1 ==> #[trigger] new_t[i] == old_t[i + dropped]
        },
        q.add_message(m, is_bot).target(!is_bot) == q.target(!is_bot),
        q.add_message(m, is_bot).outbound == q.outbound,
        q.add_message(m, is_bot).history == q.history,
        q.add_message(m, is_bot).limit_messages == q.limit_messages,
{
}

/// The next reply is the first queued one; taking it leaves the others in
/// order, and putting a reply in front makes it the next one.
pub proof fn lemma_outbound_order(q: QueueView, m: OutboundMessage)
    ensures
        q.outbound.len() > 0 ==> q.first_outbound() == Some(q.outbound[0]),
        q.outbound.len() == 0 ==> q.first_outbound() is None && q.pop_outbound() == q,
        q.outbound.len() > 0 ==> q.pop_outbound().outbound.len() == q.outbound.len() - 1
            && forall|i: int|
            0 <= i < q.outbound.len() - 1 ==> #[trigger] q.pop_outbound().outbound[i]
                == q.outbound[i + 1],
        q.push_front_outbound(m).first_outbound() == Some(m),
        q.push_front_outbound(m).pop_outbound() == q,
        q.push_outbound(m).outbound.len() == q.outbound.len() + 1,
        q.push_outbound(m).outbound.last() == m,
        q.push_outbound(m).outbound.drop_last() == q.outbound,
        q.push_history(m).history.drop_last() == q.history,
        q.push_history(m).history.last() == m,
{
    assert(q.push_front_outbound(m).outbound.drop_first() =~= q.outbound);
    assert(q.push_outbound(m).outbound.drop_last() =~= q.outbound);
    assert(q.push_history(m).history.drop_last() =~= q.history);
}

/// Marking post 0 changes nothing, and marking never touches anything but
/// the posts read.
pub proof fn lemma_mark_scope(q: QueueView, id: u32)
    ensures
        q.marked(0) == q,
        q.marked(id).bot_messages == q.bot_messages,
        q.marked(id).outbound == q.outbound,
        q.marked(id).history == q.history,
{
}

/// The clean-up keeps the newest entries of each list: a list whose length
/// modulo 256 is within the limit is kept whole, otherwise just enough of
/// its oldest entries go for the length modulo 256 to reach the limit.
pub proof fn lemma_cleanup_keeps_newest(q: QueueView)
    ensures
        q.cleaned().outbound == q.outbound,
        q.cleaned().messages.len() <= q.messages.len(),
        q.cleaned().messages == q.messages.skip(q.messages.len() - q.cleaned().messages.len()),
        q.messages.len() % 256 <= q.limit_messages ==> q.cleaned().messages == q.messages,
        q.messages.len() % 256 > q.limit_messages ==> q.cleaned().messages.len() % 256
            == q.limit_messages && q.messages.len() - q.cleaned().messages.len() < 256,
        q.cleaned().bot_messages == q.bot_messages.skip(
            q.bot_messages.len() - q.cleaned().bot_messages.len(),
        ),
        q.bot_messages.len() % 256 <= q.limit_bot_messages ==> q.cleaned().bot_messages
            == q.bot_messages,
        q.bot_messages.len() % 256 > q.limit_bot_messages ==> q.cleaned().bot_messages.len() % 256
            == q.limit_bot_messages,
        q.cleaned().history == q.history.skip(q.history.len() - q.cleaned().history.len()),
        q.history.len() % 256 <= q.limit_outbound_messages ==> q.cleaned().history == q.history,
        q.history.len() % 256 > q.limit_outbound_messages ==> q.cleaned().history.len() % 256
            == q.limit_outbound_messages,
{
    lemma_excess_settles(q.messages.len(), q.limit_messages);
    lemma_excess_settles(q.bot_messages.len(), q.limit_bot_messages);
    lemma_excess_settles(q.history.len(), q.limit_outbound_messages);
    assert(q.messages.skip(0) =~= q.messages);
    assert(q.bot_messages.skip(0) =~= q.bot_messages);
    assert(q.history.skip(0) =~= q.history);
}

} // verus!
