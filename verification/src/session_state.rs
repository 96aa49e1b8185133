//! The one record shared by everything that works on behalf of a client:
//! whether a client is attached, which target it chose, and the cancellation
//! scope of the work done for it.

use crate::outside::{cancel_scope, new_scope, share_scope};
use tokio_util::sync::CancellationToken;
use vstd::prelude::*;

verus! {

/// Session record. Each generation of the session owns a cancellation scope
/// of its own; a reset cancels the current one and installs the next.
pub struct SessionState {
    attached: bool,
    scope: CancellationToken,
    target_id: Option<u128>,
    generation: Ghost<nat>,
}

/// The mathematical content of a [`SessionState`].
pub struct SessionView {
    /// Whether a client is attached.
    pub attached: bool,
    /// The target the client chose, if any.
    pub target_id: Option<u128>,
    /// How many scopes were cancelled before the live one was installed.
    pub generation: nat,
}

impl SessionView {
    /// The session as it is first created.
    pub open spec fn initial() -> SessionView {
        SessionView { attached: false, target_id: None, generation: 0 }
    }

    /// The session once a client has attached.
    pub open spec fn attach(self) -> SessionView {
        SessionView { attached: true, ..self }
    }

    /// The session after a reset: detached, without target, in the next
    /// generation.
    pub open spec fn reset(self) -> SessionView {
        SessionView { attached: false, target_id: None, generation: self.generation + 1 }
    }

    /// The session once the client has chosen `id` as its target.
    pub open spec fn with_target(self, id: u128) -> SessionView {
        SessionView { target_id: Some(id), ..self }
    }
}

impl View for SessionState {
    type V = SessionView;

    closed spec fn view(&self) -> SessionView {
        SessionView {
            attached: self.attached,
            target_id: self.target_id,
            generation: self.generation@,
        }
    }
}

impl SessionState {
    /// The cancellation scope of the current generation.
    pub closed spec fn live_scope(&self) -> CancellationToken {
        self.scope
    }

    /// A detached session in its first generation, with a fresh scope.
    pub fn new() -> (session: Self)
        ensures
            session@ == SessionView::initial(),
    {
        SessionState {
            attached: false,
            scope: new_scope(),
            target_id: None,
            generation: Ghost(0),
        }
    }

    /// Marks the session as attached. Attaching twice is the same as once.
    pub fn attach(&mut self)
        ensures
            final(self)@ == old(self)@.attach(),
            final(self).live_scope() == old(self).live_scope(),
    {
        self.attached = true;
    }

    /// Ends the current generation: detaches, cancels the live scope, installs
    /// a fresh one and forgets the target.
    pub fn reset(&mut self)
        ensures
            final(self)@ == old(self)@.reset(),
    {
        self.attached = false;
        cancel_scope(&self.scope);
        self.scope = new_scope();
        self.target_id = None;
        proof {
            self.generation@ = self.generation@ + 1;
        }
    }

    /// Remembers the target the client chose.
    pub fn set_target(&mut self, id: u128)
        ensures
            final(self)@ == old(self)@.with_target(id),
            final(self).live_scope() == old(self).live_scope(),
    {
        self.target_id = Some(id);
    }

    /// Whether a client is attached.
    pub fn is_attached(&self) -> (attached: bool)
        ensures
            attached == self@.attached,
    {
        self.attached
    }

    /// The target the client chose, if any.
    pub fn target_id(&self) -> (id: Option<u128>)
        ensures
            id == self@.target_id,
    {
        self.target_id
    }

    /// A handle on the live scope, for a task that works on behalf of the
    /// current generation and must stop when it ends. Every handle taken
    /// within one generation is the same token.
    pub fn scope(&self) -> (handle: CancellationToken)
        ensures
            handle == self.live_scope(),
    {
        share_scope(&self.scope)
    }
}

/// A reset always leaves the session detached and without target, whatever
/// it was before, and moves it to a later generation; a second reset does so
/// again.
pub proof fn lemma_reset_twice(session: SessionView)
    ensures
        !session.reset().attached,
        !session.reset().reset().attached,
        session.reset().target_id is None,
        session.reset().reset().target_id is None,
        session.generation < session.reset().generation < session.reset().reset().generation,
{
}

/// Attaching is idempotent.
pub proof fn lemma_attach_twice(session: SessionView)
    ensures
        session.attach().attached,
        session.attach().attach() == session.attach(),
{
}

} // verus!
