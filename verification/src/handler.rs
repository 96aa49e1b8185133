//! Reliable delivery to the motor controller over an unreliable serial line.
//!
//! The link itself is not touched here. A [`Delivery`] says what to put on the
//! line and how long to wait; whoever drives the line reports what came back,
//! and the delivery decides whether the exchange is over or another attempt is
//! due.

use crate::message::{parse_line, EspMessage};
use crate::text::{same_text, trim, trimmed};
use vstd::prelude::*;
use vstd::string::*;

verus! {

/// Why an exchange with the controller failed.
#[derive(Debug, Clone, Copy, PartialEq, Eq, Structural)]
pub enum LinkError {
    /// Every attempt was used up without an acknowledgment.
    NoAck,
    /// A line from the controller is not a message.
    Malformed,
}

/// What one attempt brought back.
#[derive(Debug, Clone, PartialEq, Eq)]
pub enum Reply {
    /// A line arrived in time.
    Line(String),
    /// Nothing arrived before the acknowledgment timeout.
    TimedOut,
    /// Reading from the line failed.
    ReadFailed,
    /// Writing to the line failed.
    WriteFailed,
}

/// The mathematical content of a [`Reply`].
pub enum ReplyView {
    Line(Seq<char>),
    TimedOut,
    ReadFailed,
    WriteFailed,
}

impl View for Reply {
    type V = ReplyView;

    open spec fn view(&self) -> ReplyView {
        match *self {
            Reply::Line(text) => ReplyView::Line(text@),
            Reply::TimedOut => ReplyView::TimedOut,
            Reply::ReadFailed => ReplyView::ReadFailed,
            Reply::WriteFailed => ReplyView::WriteFailed,
        }
    }
}

impl ReplyView {
    /// Whether the reply ends the exchange: a line that reads `ACK` or `ERR`
    /// once surrounding white space is removed.
    pub open spec fn is_terminal(self) -> bool {
        self matches ReplyView::Line(text) && (trimmed(text) == seq!['A', 'C', 'K'] || trimmed(
            text,
        ) == seq!['E', 'R', 'R'])
    }
}

/// How often and how patiently a message is sent.
pub struct LinkPolicy {
    /// Greatest number of attempts for one message.
    pub max_retries: nat,
    /// Pause between two attempts, in milliseconds.
    pub retry_delay_ms: nat,
    /// Longest wait for a reply, in milliseconds.
    pub ack_timeout_ms: nat,
}

/// The mathematical content of a [`Delivery`].
pub struct DeliveryView {
    /// The line being delivered, without terminator.
    pub line: Seq<char>,
    /// Number of the attempt in progress, counted from one.
    pub attempt: nat,
    /// The policy the delivery follows.
    pub policy: LinkPolicy,
}

/// The mathematical content of a [`LinkStep`].
pub enum LinkStepView {
    Retry(DeliveryView),
    Done(Result<(), LinkError>),
}

impl LinkPolicy {
    /// The first attempt at delivering `msg`, if the policy allows any: the
    /// message is sent without surrounding white space.
    pub open spec fn begin(self, msg: Seq<char>) -> Option<DeliveryView> {
        if self.max_retries == 0 {
            None
        } else {
            Some(DeliveryView { line: trimmed(msg), attempt: 1, policy: self })
        }
    }
}

impl DeliveryView {
    /// The attempt number lies within the policy's limit.
    pub open spec fn wf(self) -> bool {
        1 <= self.attempt <= self.policy.max_retries
    }

    /// The bytes to put on the line: the message and a newline.
    pub open spec fn frame(self) -> Seq<char> {
        self.line.push('\n')
    }

    /// The pause to take before writing: none before the first attempt, the
    /// policy's delay before every later one.
    pub open spec fn pause_ms(self) -> nat {
        if self.attempt <= 1 {
            0
        } else {
            self.policy.retry_delay_ms
        }
    }

    /// What follows once the attempt in progress has brought `reply`. A
    /// terminal reply ends the exchange successfully, whether the controller
    /// said `ACK` or `ERR`. Anything else leads to the next attempt, or to
    /// failure when the attempts are used up.
    pub open spec fn step(self, reply: ReplyView) -> LinkStepView {
        if reply.is_terminal() {
            LinkStepView::Done(Ok(()))
        } else if self.attempt < self.policy.max_retries {
            LinkStepView::Retry(DeliveryView { attempt: self.attempt + 1, ..self })
        } else {
            LinkStepView::Done(Err(LinkError::NoAck))
        }
    }

    /// The attempts made, in order, when the replies to them are `replies`:
    /// this one first, then one more for each reply that called for a retry.
    pub open spec fn attempts(self, replies: Seq<ReplyView>) -> Seq<DeliveryView>
        decreases replies.len(),
    {
        if replies.len() == 0 {
            seq![self]
        } else {
            match self.step(replies[0]) {
                LinkStepView::Retry(next) => seq![self] + next.attempts(replies.skip(1)),
                LinkStepView::Done(_) => seq![self],
            }
        }
    }

    /// How the exchange ends when the replies to its attempts are `replies`;
    /// `None` while an attempt is still waiting for its reply.
    pub open spec fn outcome(self, replies: Seq<ReplyView>) -> Option<Result<(), LinkError>>
        decreases replies.len(),
    {
        if replies.len() == 0 {
            None
        } else {
            match self.step(replies[0]) {
                LinkStepView::Retry(next) => next.outcome(replies.skip(1)),
                LinkStepView::Done(result) => Some(result),
            }
        }
    }
}

/// Sender of messages to the motor controller.
#[derive(Debug, Clone, Copy, PartialEq, Eq)]
pub struct EspHandler {
    max_retries: u8,
    retry_delay_ms: u64,
    ack_timeout_ms: u64,
}

/// One message on its way to the controller, at a given attempt.
#[derive(Debug, Clone, PartialEq, Eq)]
pub struct Delivery {
    line: String,
    attempt: u8,
    max_retries: u8,
    retry_delay_ms: u64,
    ack_timeout_ms: u64,
}

/// What to do after an attempt.
#[derive(Debug, PartialEq, Eq)]
pub enum LinkStep {
    /// Make the next attempt.
    Retry(Delivery),
    /// Stop: the exchange succeeded or failed.
    Done(Result<(), LinkError>),
}

impl View for EspHandler {
    type V = LinkPolicy;

    closed spec fn view(&self) -> LinkPolicy {
        LinkPolicy {
            max_retries: self.max_retries as nat,
            retry_delay_ms: self.retry_delay_ms as nat,
            ack_timeout_ms: self.ack_timeout_ms as nat,
        }
    }
}

impl View for Delivery {
    type V = DeliveryView;

    closed spec fn view(&self) -> DeliveryView {
        DeliveryView {
            line: self.line@,
            attempt: self.attempt as nat,
            policy: LinkPolicy {
                max_retries: self.max_retries as nat,
                retry_delay_ms: self.retry_delay_ms as nat,
                ack_timeout_ms: self.ack_timeout_ms as nat,
            },
        }
    }
}

impl View for LinkStep {
    type V = LinkStepView;

    open spec fn view(&self) -> LinkStepView {
        match *self {
            LinkStep::Retry(next) => LinkStepView::Retry(next@),
            LinkStep::Done(result) => LinkStepView::Done(result),
        }
    }
}

impl Reply {
    /// Tells whether the reply ends the exchange.
    pub fn is_terminal(&self) -> (terminal: bool)
        ensures
            terminal == self@.is_terminal(),
    {
        match self {
            Reply::Line(text) => {
                proof {
                    reveal_strlit("ACK");
                    reveal_strlit("ERR");
                    assert("ACK"@ =~= seq!['A', 'C', 'K']);
                    assert("ERR"@ =~= seq!['E', 'R', 'R']);
                }
                let word = trim(text.as_str());
                same_text(word, "ACK") || same_text(word, "ERR")
            },
            _ => false,
        }
    }
}

impl EspHandler {
    /// A sender that makes up to three attempts, pauses 30 ms between them and
    /// waits up to 200 ms for each reply.
    pub fn new() -> (handler: Self)
        ensures
            handler@ == (LinkPolicy { max_retries: 3, retry_delay_ms: 30, ack_timeout_ms: 200 }),
    {
        EspHandler { max_retries: 3, retry_delay_ms: 30, ack_timeout_ms: 200 }
    }

    /// A sender with a policy of the caller's choosing.
    pub fn with_policy(max_retries: u8, retry_delay_ms: u64, ack_timeout_ms: u64) -> (handler: Self)
        ensures
            handler@ == (LinkPolicy {
                max_retries: max_retries as nat,
                retry_delay_ms: retry_delay_ms as nat,
                ack_timeout_ms: ack_timeout_ms as nat,
            }),
    {
        EspHandler { max_retries, retry_delay_ms, ack_timeout_ms }
    }

    /// Starts delivering `msg`. The result is the first attempt, or
    /// [`LinkError::NoAck`] at once where the policy allows no attempt at all.
    pub fn send_with_retry(&self, msg: &str) -> (started: Result<Delivery, LinkError>)
        ensures
            match started {
                Ok(delivery) => self@.begin(msg@) == Some(delivery@) && delivery@.wf(),
                Err(error) => self@.begin(msg@) is None && error == LinkError::NoAck,
            },
    {
        if self.max_retries == 0 {
            Err(LinkError::NoAck)
        } else {
            Ok(
                Delivery {
                    line: String::from_str(trim(msg)),
                    attempt: 1,
                    max_retries: self.max_retries,
                    retry_delay_ms: self.retry_delay_ms,
                    ack_timeout_ms: self.ack_timeout_ms,
                },
            )
        }
    }

    /// The bytes that send `msg` without waiting for any reply: the message
    /// as it is, and a newline.
    pub fn send_message(&self, msg: &str) -> (frame: String)
        ensures
            frame@ == msg@.push('\n'),
    {
        terminated(msg)
    }

    /// Reads a line that the controller sent of its own accord.
    pub fn receive_message(&self, raw: &str) -> (received: Result<EspMessage, LinkError>)
        ensures
            match received {
                Ok(message) => parse_line(raw@) == Some(message@),
                Err(error) => parse_line(raw@) is None && error == LinkError::Malformed,
            },
    {
        match EspMessage::from_string(raw) {
            Some(message) => Ok(message),
            None => Err(LinkError::Malformed),
        }
    }
}

/// `line` followed by a newline.
pub fn terminated(line: &str) -> (frame: String)
    ensures
        frame@ == line@.push('\n'),
{
    proof {
        reveal_strlit("\n");
    }
    let mut frame = String::from_str(line);
    frame.append("\n");
    assert(frame@ =~= line@.push('\n'));
    frame
}

impl Delivery {
    /// The line being delivered, without terminator.
    pub fn line(&self) -> (line: &str)
        ensures
            line@ == self@.line,
    {
        self.line.as_str()
    }

    /// The bytes to put on the line.
    pub fn frame(&self) -> (frame: String)
        ensures
            frame@ == self@.frame(),
    {
        terminated(self.line.as_str())
    }

    /// Number of the attempt in progress, counted from one.
    pub fn attempt(&self) -> (attempt: u8)
        ensures
            attempt == self@.attempt,
    {
        self.attempt
    }

    /// Milliseconds to pause before writing.
    pub fn pause_ms(&self) -> (pause: u64)
        ensures
            pause == self@.pause_ms(),
    {
        if self.attempt <= 1 {
            0
        } else {
            self.retry_delay_ms
        }
    }

    /// Milliseconds to wait for the reply.
    pub fn timeout_ms(&self) -> (timeout: u64)
        ensures
            timeout == self@.policy.ack_timeout_ms,
    {
        self.ack_timeout_ms
    }

    /// Decides what follows the attempt in progress, given what it brought.
    pub fn on_reply(self, reply: &Reply) -> (next: LinkStep)
        ensures
            next@ == self@.step(reply@),
            self@.wf() ==> (next@ matches LinkStepView::Retry(d) ==> d.wf()),
    {
        if reply.is_terminal() {
            LinkStep::Done(Ok(()))
        } else if self.attempt < self.max_retries {
            LinkStep::Retry(
                Delivery {
                    line: self.line,
                    attempt: self.attempt + 1,
                    max_retries: self.max_retries,
                    retry_delay_ms: self.retry_delay_ms,
                    ack_timeout_ms: self.ack_timeout_ms,
                },
            )
        } else {
            LinkStep::Done(Err(LinkError::NoAck))
        }
    }
}

/// The content of each reply of `replies`, in order.
pub open spec fn reply_views(replies: Seq<Reply>) -> Seq<ReplyView> {
    Seq::new(replies.len(), |i: int| replies[i]@)
}

/// How a replayed exchange went.
#[derive(Debug, Clone, Copy, PartialEq, Eq)]
pub struct Exchange {
    /// How the exchange ended; `None` if the replies ran out first.
    pub outcome: Option<Result<(), LinkError>>,
    /// How many attempts were made.
    pub attempts: usize,
}

impl Delivery {
    /// Plays the exchange from this attempt on against the replies that a
    /// peer gave, in order: each reply answers one attempt, and replies
    /// behind the end of the exchange are not looked at.
    pub fn replay(self, replies: &Vec<Reply>) -> (exchange: Exchange)
        ensures
            exchange.outcome == self@.outcome(reply_views(replies@)),
            exchange.attempts == self@.attempts(reply_views(replies@)).len(),
    {
        let ghost all = reply_views(replies@);
        let ghost first = self@;
        let first_attempt = self.attempt;
        let mut current = self;
        let mut i: usize = 0;
        assert(all.skip(0) =~= all);
        while i < replies.len()
            invariant
                all == reply_views(replies@),
                first == self@,
                i <= replies@.len(),
                first_attempt == first.attempt,
                current@.attempt >= first.attempt,
                first.outcome(all) == current@.outcome(all.skip(i as int)),
                first.attempts(all).len() == (current@.attempt - first.attempt) + current@.attempts(
                    all.skip(i as int),
                ).len(),
            decreases replies@.len() - i,
        {
            let ghost rest = all.skip(i as int);
            let ghost before = current@;
            proof {
                assert(rest[0] == replies@[i as int]@);
                assert(rest.skip(1) =~= all.skip(i + 1));
            }
            let attempt = current.attempt;
            match current.on_reply(&replies[i]) {
                LinkStep::Retry(next) => {
                    proof {
                        assert(before.attempts(rest) == seq![before] + next@.attempts(
                            rest.skip(1),
                        ));
                        assert(before.outcome(rest) == next@.outcome(rest.skip(1)));
                    }
                    current = next;
                },
                LinkStep::Done(result) => {
                    proof {
                        assert(before.attempts(rest) == seq![before]);
                        assert(before.outcome(rest) == Some(result));
                    }
                    return Exchange {
                        outcome: Some(result),
                        attempts: (attempt - first_attempt) as usize + 1,
                    };
                },
            }
            i += 1;
        }
        assert(all.skip(i as int) =~= Seq::<ReplyView>::empty());
        Exchange { outcome: None, attempts: (current.attempt - first_attempt) as usize + 1 }
    }
}

/// When the first terminal reply answers the attempt number `k`, the exchange
/// succeeds after exactly `k` attempts, the first without pause and every
/// later one after the policy's delay.
pub proof fn lemma_acknowledged_on_attempt(first: DeliveryView, replies: Seq<ReplyView>, k: nat)
    requires
        first.attempt == 1,
        1 <= k <= first.policy.max_retries,
        k <= replies.len(),
        forall|i: int| 0 <= i < k - 1 ==> !(#[trigger] replies[i]).is_terminal(),
        replies[k - 1].is_terminal(),
    ensures
        first.outcome(replies) == Some(Ok::<(), LinkError>(())),
        first.attempts(replies).len() == k,
        forall|i: int|
            0 <= i < k ==> {
                let made = #[trigger] first.attempts(replies)[i];
                &&& made.attempt == i + 1
                &&& made.line == first.line
                &&& made.pause_ms() == if i == 0 {
                    0
                } else {
                    first.policy.retry_delay_ms
                }
            },
{
    lemma_exchange_until_terminal(first, replies, (k - 1) as nat);
}

/// When no reply is terminal, the exchange fails with [`LinkError::NoAck`]
/// after exactly as many attempts as the policy allows, the first without
/// pause and every later one after the policy's delay.
pub proof fn lemma_never_acknowledged(first: DeliveryView, replies: Seq<ReplyView>)
    requires
        first.attempt == 1,
        1 <= first.policy.max_retries <= replies.len(),
        forall|i: int|
            0 <= i < first.policy.max_retries ==> !(#[trigger] replies[i]).is_terminal(),
    ensures
        first.outcome(replies) == Some(Err::<(), LinkError>(LinkError::NoAck)),
        first.attempts(replies).len() == first.policy.max_retries,
        forall|i: int|
            0 <= i < first.policy.max_retries ==> {
                let made = #[trigger] first.attempts(replies)[i];
                &&& made.attempt == i + 1
                &&& made.line == first.line
                &&& made.pause_ms() == if i == 0 {
                    0
                } else {
                    first.policy.retry_delay_ms
                }
            },
{
    lemma_exchange_until_exhausted(first, replies);
}

/// Whatever the peer replies, an exchange never makes more attempts than the
/// policy allows.
pub proof fn lemma_attempts_are_bounded(d: DeliveryView, replies: Seq<ReplyView>)
    requires
        d.wf(),
    ensures
        1 <= d.attempts(replies).len() <= d.policy.max_retries - d.attempt + 1,
    decreases replies.len(),
{
    if replies.len() > 0 {
        match d.step(replies[0]) {
            LinkStepView::Retry(next) => {
                lemma_attempts_are_bounded(next, replies.skip(1));
            },
            LinkStepView::Done(_) => {},
        }
    }
}

proof fn lemma_exchange_until_terminal(d: DeliveryView, replies: Seq<ReplyView>, n: nat)
    requires
        d.wf(),
        d.attempt + n <= d.policy.max_retries,
        n < replies.len(),
        forall|i: int| 0 <= i < n ==> !(#[trigger] replies[i]).is_terminal(),
        replies[n as int].is_terminal(),
    ensures
        d.outcome(replies) == Some(Ok::<(), LinkError>(())),
        d.attempts(replies).len() == n + 1,
        forall|i: int|
            0 <= i <= n ==> (#[trigger] d.attempts(replies)[i]) == (DeliveryView {
                attempt: d.attempt + i as nat,
                ..d
            }),
    decreases n,
{
    if n > 0 {
        assert(!replies[0].is_terminal());
        let next = DeliveryView { attempt: d.attempt + 1, ..d };
        let rest = replies.skip(1);
        assert forall|i: int| 0 <= i < n - 1 implies !(#[trigger] rest[i]).is_terminal() by {
            assert(rest[i] == replies[i + 1]);
        }
        assert(rest[n - 1] == replies[n as int]);
        lemma_exchange_until_terminal(next, rest, (n - 1) as nat);
        let made = d.attempts(replies);
        assert(made == seq![d] + next.attempts(rest));
        assert forall|i: int| 0 <= i <= n implies (#[trigger] made[i]) == (DeliveryView {
            attempt: d.attempt + i as nat,
            ..d
        }) by {
            if i > 0 {
                assert(made[i] == next.attempts(rest)[i - 1]);
            }
        }
    }
}

proof fn lemma_exchange_until_exhausted(d: DeliveryView, replies: Seq<ReplyView>)
    requires
        d.wf(),
        d.policy.max_retries - d.attempt < replies.len(),
        forall|i: int|
            0 <= i <= d.policy.max_retries - d.attempt ==> !(#[trigger] replies[i]).is_terminal(),
    ensures
        d.outcome(replies) == Some(Err::<(), LinkError>(LinkError::NoAck)),
        d.attempts(replies).len() == d.policy.max_retries - d.attempt + 1,
        forall|i: int|
            0 <= i <= d.policy.max_retries - d.attempt ==> (#[trigger] d.attempts(replies)[i]) == (
            DeliveryView { attempt: d.attempt + i as nat, ..d }),
    decreases d.policy.max_retries - d.attempt,
{
    assert(!replies[0].is_terminal());
    if d.attempt < d.policy.max_retries {
        let next = DeliveryView { attempt: d.attempt + 1, ..d };
        let rest = replies.skip(1);
        assert forall|i: int| 0 <= i <= next.policy.max_retries - next.attempt implies !(
        #[trigger] rest[i]).is_terminal() by {
            assert(rest[i] == replies[i + 1]);
        }
        lemma_exchange_until_exhausted(next, rest);
        let made = d.attempts(replies);
        assert(made == seq![d] + next.attempts(rest));
        assert forall|i: int| 0 <= i <= d.policy.max_retries - d.attempt implies (
        #[trigger] made[i]) == (DeliveryView { attempt: d.attempt + i as nat, ..d }) by {
            if i > 0 {
                assert(made[i] == next.attempts(rest)[i - 1]);
            }
        }
    }
}

} // verus!
