//! Routes what arrives from the client: commands that control the session are
//! applied to it at once, every other command is handed on to the queue.
//!
//! Reading the connection and decoding its frames happen elsewhere; what
//! arrives here is the outcome of each read.

use crate::models::{command_views, Command, CommandView};
use crate::session_state::{SessionState, SessionView};
use vstd::prelude::*;

verus! {

/// The outcome of one read from the connection.
#[derive(Debug, Clone, PartialEq, Eq)]
pub enum Inbound {
    /// A text frame that decoded into a command.
    Decoded(Command),
    /// A text frame that is no command.
    Undecodable,
    /// A frame of another kind.
    Other,
    /// The transport failed.
    Failed,
    /// The connection was closed.
    Closed,
}

/// The mathematical content of an [`Inbound`].
pub enum InboundView {
    Decoded(CommandView),
    Undecodable,
    Other,
    Failed,
    Closed,
}

impl View for Inbound {
    type V = InboundView;

    open spec fn view(&self) -> InboundView {
        match *self {
            Inbound::Decoded(command) => InboundView::Decoded(command@),
            Inbound::Undecodable => InboundView::Undecodable,
            Inbound::Other => InboundView::Other,
            Inbound::Failed => InboundView::Failed,
            Inbound::Closed => InboundView::Closed,
        }
    }
}

/// What became of one read.
#[derive(Debug, Clone, PartialEq, Eq)]
pub enum Routing {
    /// Nothing was done; keep listening.
    Ignored,
    /// The session was changed; keep listening.
    Applied,
    /// The command is to be pushed onto the queue; keep listening if the
    /// queue takes it.
    Forward(Command),
    /// The listener has stopped.
    Stopped,
}

/// The mathematical content of a [`Routing`].
pub enum RoutingView {
    Ignored,
    Applied,
    Forward(CommandView),
    Stopped,
}

impl View for Routing {
    type V = RoutingView;

    open spec fn view(&self) -> RoutingView {
        match *self {
            Routing::Ignored => RoutingView::Ignored,
            Routing::Applied => RoutingView::Applied,
            Routing::Forward(command) => RoutingView::Forward(command@),
            Routing::Stopped => RoutingView::Stopped,
        }
    }
}

/// A listener together with the session it works on.
pub struct ListenerView {
    /// Whether the listener still listens.
    pub listening: bool,
    /// The session.
    pub session: SessionView,
}

impl ListenerView {
    /// The listener and the session after one read, and what became of the
    /// read. `Attach` attaches the session and `Detach` resets it; neither
    /// is handed on. Every other command is handed on unchanged. What cannot
    /// be decoded is dropped. A failed transport or a closed connection stops
    /// the listener and leaves the session as it is.
    pub open spec fn route(self, inbound: InboundView) -> (ListenerView, RoutingView) {
        if !self.listening {
            (self, RoutingView::Stopped)
        } else {
            match inbound {
                InboundView::Decoded(CommandView::Attach) => (
                    ListenerView { session: self.session.attach(), ..self },
                    RoutingView::Applied,
                ),
                InboundView::Decoded(CommandView::Detach) => (
                    ListenerView { session: self.session.reset(), ..self },
                    RoutingView::Applied,
                ),
                InboundView::Decoded(command) => (self, RoutingView::Forward(command)),
                InboundView::Undecodable => (self, RoutingView::Ignored),
                InboundView::Other => (self, RoutingView::Ignored),
                InboundView::Failed => (
                    ListenerView { listening: false, ..self },
                    RoutingView::Stopped,
                ),
                InboundView::Closed => (
                    ListenerView { listening: false, ..self },
                    RoutingView::Stopped,
                ),
            }
        }
    }

    /// The listener and the session after the reads `inbound`, in order.
    pub open spec fn after(self, inbound: Seq<InboundView>) -> ListenerView
        decreases inbound.len(),
    {
        if inbound.len() == 0 {
            self
        } else {
            self.after(inbound.drop_last()).route(inbound.last()).0
        }
    }

    /// The commands handed on during the reads `inbound`, in order.
    pub open spec fn forwarded(self, inbound: Seq<InboundView>) -> Seq<CommandView>
        decreases inbound.len(),
    {
        if inbound.len() == 0 {
            Seq::empty()
        } else {
            let earlier = self.forwarded(inbound.drop_last());
            match self.after(inbound.drop_last()).route(inbound.last()).1 {
                RoutingView::Forward(command) => earlier.push(command),
                _ => earlier,
            }
        }
    }
}

/// The content of each read of `inbound`, in order.
pub open spec fn inbound_views(inbound: Seq<Inbound>) -> Seq<InboundView> {
    Seq::new(inbound.len(), |i: int| inbound[i]@)
}

/// The listening end of the connection.
#[derive(Debug, Clone, Copy, PartialEq, Eq)]
pub struct Listener {
    listening: bool,
}

impl Listener {
    /// Whether the listener still listens.
    pub closed spec fn listening(&self) -> bool {
        self.listening
    }

    /// A listener that listens.
    pub fn new() -> (listener: Self)
        ensures
            listener.listening(),
    {
        Listener { listening: true }
    }

    /// Tells whether the listener still listens.
    pub fn is_listening(&self) -> (listening: bool)
        ensures
            listening == self.listening(),
    {
        self.listening
    }

    /// Takes one read from the connection and says what is to become of it.
    pub fn on_inbound(&mut self, inbound: Inbound, session: &mut SessionState) -> (routing: Routing)
        ensures
            ({
                let before = ListenerView {
                    listening: old(self).listening(),
                    session: old(session)@,
                };
                let after = ListenerView {
                    listening: final(self).listening(),
                    session: final(session)@,
                };
                (after, routing@) == before.route(inbound@)
            }),
    {
        if !self.listening {
            return Routing::Stopped;
        }
        match inbound {
            Inbound::Decoded(command) => match command {
                Command::Attach => {
                    session.attach();
                    Routing::Applied
                },
                Command::Detach => {
                    session.reset();
                    Routing::Applied
                },
                other => Routing::Forward(other),
            },
            Inbound::Undecodable => Routing::Ignored,
            Inbound::Other => Routing::Ignored,
            Inbound::Failed => {
                self.listening = false;
                Routing::Stopped
            },
            Inbound::Closed => {
                self.listening = false;
                Routing::Stopped
            },
        }
    }

    /// Stops the listener because the queue no longer takes commands.
    pub fn on_queue_closed(&mut self)
        ensures
            !final(self).listening(),
    {
        self.listening = false;
    }
}

/// Listens to a recorded sequence of reads, on a queue that takes every
/// command: applies the session-control commands to `session` and returns the
/// commands for the queue, in the order of their arrival. Reads behind a
/// failure of the transport or the end of the connection are not looked at.
pub fn run_listener(inbound: Vec<Inbound>, session: &mut SessionState) -> (queued: Vec<Command>)
    ensures
        ({
            let start = ListenerView { listening: true, session: old(session)@ };
            &&& command_views(queued@) == start.forwarded(inbound_views(inbound@))
            &&& final(session)@ == start.after(inbound_views(inbound@)).session
        }),
{
    broadcast use vstd::std_specs::vec::axiom_spec_into_iter;

    let ghost start = ListenerView { listening: true, session: session@ };
    let ghost reads = inbound_views(inbound@);
    let ghost recorded = inbound@;
    let mut listener = Listener::new();
    let mut queued: Vec<Command> = Vec::new();
    proof {
        assert(reads.take(0) =~= Seq::<InboundView>::empty());
        assert(command_views(queued@) =~= Seq::<CommandView>::empty());
    }
    for read in it: inbound.into_iter()
        invariant
            it.seq() == recorded,
            reads == inbound_views(recorded),
            command_views(queued@) == start.forwarded(reads.take(it.index())),
            (ListenerView { listening: listener.listening(), session: session@ }) == start.after(
                reads.take(it.index()),
            ),
    {
        let ghost earlier = command_views(queued@);
        let ghost done = it.index();
        proof {
            assert(read@ == reads[done]);
            assert(reads.take(done + 1).drop_last() =~= reads.take(done));
            assert(reads.take(done + 1).last() == reads[done]);
        }
        match listener.on_inbound(read, session) {
            Routing::Forward(command) => {
                queued.push(command);
                assert(command_views(queued@) =~= earlier.push(command@));
            },
            _ => {},
        }
    }
    proof {
        assert(reads.take(reads.len() as int) =~= reads);
    }
    queued
}

/// The commands among `inbound` that are meant for the queue, in the order
/// of their arrival: every decoded command that does not control the session.
pub open spec fn meant_for_queue(inbound: Seq<InboundView>) -> Seq<CommandView>
    decreases inbound.len(),
{
    if inbound.len() == 0 {
        Seq::empty()
    } else {
        let earlier = meant_for_queue(inbound.drop_last());
        match inbound.last() {
            InboundView::Decoded(command) => if command.is_session_control() {
                earlier
            } else {
                earlier.push(command)
            },
            _ => earlier,
        }
    }
}

/// Whether none of `inbound` reports a failed transport or a closed
/// connection.
pub open spec fn uninterrupted(inbound: Seq<InboundView>) -> bool {
    forall|i: int|
        0 <= i < inbound.len() ==> !(#[trigger] inbound[i] is Failed) && !(inbound[i] is Closed)
}

/// As long as the connection holds, the queue receives every command that
/// does not control the session, in the order of arrival, and the listener
/// keeps listening.
pub proof fn lemma_forwarded_in_arrival_order(start: ListenerView, inbound: Seq<InboundView>)
    requires
        start.listening,
        uninterrupted(inbound),
    ensures
        start.after(inbound).listening,
        start.forwarded(inbound) == meant_for_queue(inbound),
    decreases inbound.len(),
{
    if inbound.len() > 0 {
        let earlier = inbound.drop_last();
        assert(uninterrupted(earlier)) by {
            assert forall|i: int| 0 <= i < earlier.len() implies !(#[trigger] earlier[i] is Failed)
                && !(earlier[i] is Closed) by {
                assert(earlier[i] == inbound[i]);
            }
        }
        lemma_forwarded_in_arrival_order(start, earlier);
        assert(!(inbound[inbound.len() - 1] is Failed) && !(inbound[inbound.len() - 1] is Closed));
    }
}

/// A command that controls the session never reaches the queue.
pub proof fn lemma_session_control_not_forwarded(start: ListenerView, inbound: Seq<InboundView>)
    ensures
        forall|i: int|
            0 <= i < start.forwarded(inbound).len() ==> !(#[trigger] start.forwarded(
                inbound,
            )[i]).is_session_control(),
    decreases inbound.len(),
{
    if inbound.len() > 0 {
        lemma_session_control_not_forwarded(start, inbound.drop_last());
        let earlier = start.forwarded(inbound.drop_last());
        let now = start.forwarded(inbound);
        assert forall|i: int| 0 <= i < now.len() implies !(#[trigger] now[i]).is_session_control() by {
            if i < earlier.len() {
                assert(now[i] == earlier[i]);
            }
        }
    }
}

/// Once the listener has stopped, nothing that arrives changes the session
/// or reaches the queue.
pub proof fn lemma_stopped_listener_is_inert(start: ListenerView, inbound: Seq<InboundView>)
    requires
        !start.listening,
    ensures
        start.after(inbound) == start,
        start.forwarded(inbound) == Seq::<CommandView>::empty(),
    decreases inbound.len(),
{
    if inbound.len() > 0 {
        lemma_stopped_listener_is_inert(start, inbound.drop_last());
    }
}

} // verus!
