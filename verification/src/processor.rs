//! Turns queued commands and frame ticks into what has to be done: replies to
//! the client, deliveries to the motor controller and changes to the session.
//!
//! Nothing is sent from here. A dispatch yields its [`Action`]s in the order
//! in which they are to be carried out, each completed before the next.

use crate::handler::{Delivery, DeliveryView, EspHandler, LinkPolicy};
use crate::message::{wire_line, EspMessage, EspMessageView};
use crate::models::{command_views, Command, CommandView, Response, ResponseView};
use crate::outside::{
    base64_encode, base64_text, encodable, unix_millis_now, uuid_text, uuid_to_text,
};
use crate::session_state::{SessionState, SessionView};
use crate::text::same_text;
use vstd::prelude::*;
use vstd::string::*;

verus! {

/// Steps a motor takes for one motion command.
pub const STEPS_PER_COMMAND: u32 = 5;

/// One thing to do on behalf of a dispatched command.
#[derive(Debug, Clone, PartialEq, Eq)]
pub enum Action {
    /// Send the response to the client.
    Respond(Response),
    /// Run the delivery to the motor controller to its end. A failed
    /// delivery is reported locally and changes nothing that follows.
    Deliver(Delivery),
    /// Store the target in the session.
    StoreTarget(u128),
    /// Reset the session.
    ResetSession,
}

/// The mathematical content of an [`Action`].
pub enum ActionView {
    Respond(ResponseView),
    Deliver(DeliveryView),
    StoreTarget(u128),
    ResetSession,
}

impl View for Action {
    type V = ActionView;

    open spec fn view(&self) -> ActionView {
        match *self {
            Action::Respond(response) => ActionView::Respond(response@),
            Action::Deliver(delivery) => ActionView::Deliver(delivery@),
            Action::StoreTarget(id) => ActionView::StoreTarget(id),
            Action::ResetSession => ActionView::ResetSession,
        }
    }
}

/// The content of each action of `actions`, in order.
pub open spec fn action_views(actions: Seq<Action>) -> Seq<ActionView> {
    Seq::new(actions.len(), |i: int| actions[i]@)
}

/// The motor and the sense of motion that a stage direction stands for.
pub open spec fn move_target(direction: Seq<char>) -> Option<(u8, Seq<char>)> {
    if direction == "up"@ {
        Some((1u8, "FWD"@))
    } else if direction == "down"@ {
        Some((1u8, "BWD"@))
    } else if direction == "left"@ {
        Some((2u8, "FWD"@))
    } else if direction == "right"@ {
        Some((2u8, "BWD"@))
    } else {
        None
    }
}

/// The motor and the sense of motion that a zoom direction stands for.
pub open spec fn zoom_target(direction: Seq<char>) -> Option<(u8, Seq<char>)> {
    if direction == "in"@ {
        Some((3u8, "FWD"@))
    } else if direction == "out"@ {
        Some((3u8, "BWD"@))
    } else {
        None
    }
}

/// The message that moves `motor` by one command's worth of steps.
pub open spec fn motor_message(motor: u8, sense: Seq<char>) -> EspMessageView {
    EspMessageView {
        cmd: "MOVE"@,
        motor: Some(motor),
        direction: Some(sense),
        steps: Some(STEPS_PER_COMMAND),
    }
}

/// The delivery that a motion command starts: none for a direction that
/// stands for no motor, and none where the policy allows no attempt.
pub open spec fn motor_actions(policy: LinkPolicy, target: Option<(u8, Seq<char>)>) -> Seq<
    ActionView,
> {
    match target {
        Some((motor, sense)) => match policy.begin(wire_line(motor_message(motor, sense))) {
            Some(delivery) => seq![ActionView::Deliver(delivery)],
            None => Seq::empty(),
        },
        None => Seq::empty(),
    }
}

/// The acknowledgment of the command named `command`.
pub open spec fn ack(command: Seq<char>) -> ActionView {
    ActionView::Respond(ResponseView::Ack { command })
}

/// The still image made of `frame`, if there is a frame at all.
pub open spec fn image_of(frame: Seq<u8>) -> Option<ResponseView> {
    if frame.len() == 0 {
        None
    } else {
        Some(ResponseView::ImageCaptured { data: base64_text(frame), format: "jpeg"@ })
    }
}

/// The stream frame made of `frame` at the time `timestamp`, if there is a
/// frame at all.
pub open spec fn stream_frame_of(frame: Seq<u8>, timestamp: i64) -> Option<ResponseView> {
    if frame.len() == 0 {
        None
    } else {
        Some(ResponseView::StreamFrame { data: base64_text(frame), format: "jpg"@, timestamp })
    }
}

/// What dispatching one command calls for, in order, when the most recent
/// frame is `frame`.
pub open spec fn dispatch(policy: LinkPolicy, command: CommandView, frame: Seq<u8>) -> Seq<
    ActionView,
> {
    match command {
        CommandView::Heartbeat => seq![ActionView::Respond(ResponseView::Heartbeat)],
        CommandView::Move { direction } => motor_actions(policy, move_target(direction)).push(
            ack("Move "@ + direction),
        ),
        CommandView::Zoom { direction } => motor_actions(policy, zoom_target(direction)).push(
            ack("Zoom"@),
        ),
        CommandView::Capture => match image_of(frame) {
            Some(image) => seq![ActionView::Respond(image), ack("Capture"@)],
            None => seq![ack("Capture"@)],
        },
        CommandView::SetTarget { id } => seq![
            ActionView::StoreTarget(id),
            ack("SetTarget "@ + uuid_text(id)),
        ],
        CommandView::Shutdown => seq![ack("Shutdown"@), ActionView::ResetSession],
        CommandView::Attach => Seq::empty(),
        CommandView::Detach => Seq::empty(),
    }
}

/// What dispatching the queued commands calls for while a client is
/// attached: each command is dispatched in turn, up to and including the
/// first `Shutdown`, which ends the session; what is queued behind it is
/// discarded.
pub open spec fn dispatch_all(policy: LinkPolicy, commands: Seq<CommandView>, frame: Seq<u8>) -> Seq<
    ActionView,
>
    decreases commands.len(),
{
    if commands.len() == 0 {
        Seq::empty()
    } else if commands[0] is Shutdown {
        dispatch(policy, commands[0], frame)
    } else {
        dispatch(policy, commands[0], frame) + dispatch_all(policy, commands.skip(1), frame)
    }
}

/// What the queued commands call for: nothing at all while no client is
/// attached.
pub open spec fn drained(
    policy: LinkPolicy,
    attached: bool,
    commands: Seq<CommandView>,
    frame: Seq<u8>,
) -> Seq<ActionView> {
    if attached {
        dispatch_all(policy, commands, frame)
    } else {
        Seq::empty()
    }
}

/// The actions of every command of `commands`, one command after the other
/// in queue order.
pub open spec fn dispatched_in_order(
    policy: LinkPolicy,
    commands: Seq<CommandView>,
    frame: Seq<u8>,
) -> Seq<ActionView>
    decreases commands.len(),
{
    if commands.len() == 0 {
        Seq::empty()
    } else {
        dispatched_in_order(policy, commands.drop_last(), frame) + dispatch(
            policy,
            commands.last(),
            frame,
        )
    }
}

/// Whether none of `commands` is a `Shutdown`.
pub open spec fn shutdown_free(commands: Seq<CommandView>) -> bool {
    forall|i: int| 0 <= i < commands.len() ==> !(#[trigger] commands[i] is Shutdown)
}

impl ActionView {
    /// The session once the action has been carried out: storing a target
    /// and resetting change it, sending does not.
    pub open spec fn session_after(self, session: SessionView) -> SessionView {
        match self {
            ActionView::StoreTarget(id) => session.with_target(id),
            ActionView::ResetSession => session.reset(),
            ActionView::Respond(_) => session,
            ActionView::Deliver(_) => session,
        }
    }
}

/// The session once all of `actions` have been carried out, in order.
pub open spec fn session_after_all(actions: Seq<ActionView>, session: SessionView) -> SessionView
    decreases actions.len(),
{
    if actions.len() == 0 {
        session
    } else {
        actions.last().session_after(session_after_all(actions.drop_last(), session))
    }
}

/// Dispatcher of commands and scheduler of stream frames.
#[derive(Debug, Clone, Copy, PartialEq, Eq)]
pub struct Processor {
    esp: EspHandler,
}

impl View for Processor {
    type V = LinkPolicy;

    closed spec fn view(&self) -> LinkPolicy {
        self.esp@
    }
}

impl Action {
    /// Carries out the part of the action that concerns the session.
    pub fn apply_to_session(&self, session: &mut SessionState)
        ensures
            final(session)@ == self@.session_after(old(session)@),
    {
        match self {
            Action::StoreTarget(id) => {
                session.set_target(*id);
            },
            Action::ResetSession => {
                session.reset();
            },
            Action::Respond(_) => {},
            Action::Deliver(_) => {},
        }
    }
}

/// The acknowledgment of the command named `command`.
pub fn ack_response(command: String) -> (response: Response)
    ensures
        response@ == (ResponseView::Ack { command: command@ }),
{
    Response::Ack { command }
}

/// The acknowledgment of a `SetTarget` whose identifier reads `id_text`.
pub fn target_ack(id_text: &str) -> (response: Response)
    ensures
        response@ == (ResponseView::Ack { command: "SetTarget "@ + id_text@ }),
{
    let mut command = String::from_str("SetTarget ");
    command.append(id_text);
    Response::Ack { command }
}

/// The still-image response that carries the encoded image `data`.
pub fn image_response(data: String) -> (response: Response)
    ensures
        response@ == (ResponseView::ImageCaptured { data: data@, format: "jpeg"@ }),
{
    Response::ImageCaptured { data, format: String::from_str("jpeg") }
}

/// The stream-frame response that carries the encoded frame `data`, sent at
/// `timestamp`.
pub fn stream_response(data: String, timestamp: i64) -> (response: Response)
    ensures
        response@ == (ResponseView::StreamFrame { data: data@, format: "jpg"@, timestamp }),
{
    Response::StreamFrame { data, format: String::from_str("jpg"), timestamp }
}

/// The still image made of the most recent frame; none while no frame has
/// been captured yet.
pub fn capture_image(frame: &[u8]) -> (image: Option<Response>)
    requires
        encodable(frame@.len()),
    ensures
        image is Some <==> image_of(frame@) is Some,
        image matches Some(response) ==> image_of(frame@) == Some(response@),
{
    if frame.len() == 0 {
        None
    } else {
        Some(image_response(base64_encode(frame)))
    }
}

/// The stream frame made of the most recent frame at the given time; none
/// while no frame has been captured yet.
pub fn stream_frame_at(frame: &[u8], timestamp: i64) -> (sent: Option<Response>)
    requires
        encodable(frame@.len()),
    ensures
        sent is Some <==> stream_frame_of(frame@, timestamp) is Some,
        sent matches Some(response) ==> stream_frame_of(frame@, timestamp) == Some(response@),
{
    if frame.len() == 0 {
        None
    } else {
        Some(stream_response(base64_encode(frame), timestamp))
    }
}

impl Processor {
    /// A processor whose deliveries follow the default policy.
    pub fn new() -> (processor: Self)
        ensures
            processor@ == (LinkPolicy { max_retries: 3, retry_delay_ms: 30, ack_timeout_ms: 200 }),
    {
        Processor { esp: EspHandler::new() }
    }

    /// A processor whose deliveries follow the policy of `esp`.
    pub fn with_handler(esp: EspHandler) -> (processor: Self)
        ensures
            processor@ == esp@,
    {
        Processor { esp }
    }

    /// Starts the delivery of a motor command.
    pub fn send_esp_command(&self, cmd: &str, motor: u8, direction: &str, steps: u32) -> (started:
        Option<Delivery>)
        ensures
            ({
                let message = EspMessageView {
                    cmd: cmd@,
                    motor: Some(motor),
                    direction: Some(direction@),
                    steps: Some(steps),
                };
                &&& started is Some <==> self@.begin(wire_line(message)) is Some
                &&& started matches Some(delivery) ==> self@.begin(wire_line(message)) == Some(
                    delivery@,
                ) && delivery@.wf()
            }),
    {
        let message = EspMessage {
            cmd: String::from_str(cmd),
            motor: Some(motor),
            direction: Some(String::from_str(direction)),
            steps: Some(steps),
        };
        let line = message.to_string();
        match self.esp.send_with_retry(line.as_str()) {
            Ok(delivery) => Some(delivery),
            Err(_) => None,
        }
    }

    /// Dispatches one command, given the most recent frame.
    pub fn handle_command(&self, command: &Command, frame: &[u8]) -> (actions: Vec<Action>)
        requires
            encodable(frame@.len()),
        ensures
            action_views(actions@) == dispatch(self@, command@, frame@),
    {
        let mut actions: Vec<Action> = Vec::new();
        match command {
            Command::Heartbeat => {
                actions.push(Action::Respond(Response::Heartbeat));
            },
            Command::Move { direction } => {
                let target = if same_text(direction.as_str(), "up") {
                    Some((1u8, "FWD"))
                } else if same_text(direction.as_str(), "down") {
                    Some((1u8, "BWD"))
                } else if same_text(direction.as_str(), "left") {
                    Some((2u8, "FWD"))
                } else if same_text(direction.as_str(), "right") {
                    Some((2u8, "BWD"))
                } else {
                    None
                };
                self.push_motor_action(&mut actions, target);
                let mut name = String::from_str("Move ");
                name.append(direction.as_str());
                actions.push(Action::Respond(ack_response(name)));
            },
            Command::Zoom { direction } => {
                let target = if same_text(direction.as_str(), "in") {
                    Some((3u8, "FWD"))
                } else if same_text(direction.as_str(), "out") {
                    Some((3u8, "BWD"))
                } else {
                    None
                };
                self.push_motor_action(&mut actions, target);
                actions.push(Action::Respond(ack_response(String::from_str("Zoom"))));
            },
            Command::Capture => {
                match capture_image(frame) {
                    Some(image) => {
                        actions.push(Action::Respond(image));
                    },
                    None => {},
                }
                actions.push(Action::Respond(ack_response(String::from_str("Capture"))));
            },
            Command::SetTarget { id } => {
                actions.push(Action::StoreTarget(*id));
                let id_text = uuid_to_text(*id);
                actions.push(Action::Respond(target_ack(id_text.as_str())));
            },
            Command::Shutdown => {
                actions.push(Action::Respond(ack_response(String::from_str("Shutdown"))));
                actions.push(Action::ResetSession);
            },
            Command::Attach => {},
            Command::Detach => {},
        }
        assert(action_views(actions@) =~= dispatch(self@, command@, frame@));
        actions
    }

    /// Works off the commands that are queued. While no client is attached
    /// they are discarded unseen. Otherwise each is dispatched in turn, in
    /// queue order, until the queue is empty or a `Shutdown` has ended the
    /// session; the commands behind a `Shutdown` are discarded too.
    pub fn drain(&self, session: &SessionState, commands: &Vec<Command>, frame: &[u8]) -> (actions:
        Vec<Action>)
        requires
            encodable(frame@.len()),
        ensures
            action_views(actions@) == drained(
                self@,
                session@.attached,
                command_views(commands@),
                frame@,
            ),
    {
        let mut actions: Vec<Action> = Vec::new();
        if !session.is_attached() {
            assert(action_views(actions@) =~= Seq::<ActionView>::empty());
            return actions;
        }
        let ghost queued = command_views(commands@);
        let mut i: usize = 0;
        let mut live = true;
        proof {
            assert(queued.take(0) =~= Seq::<CommandView>::empty());
            assert(queued.skip(0) =~= queued);
            assert(action_views(actions@) =~= Seq::<ActionView>::empty());
        }
        while live && i < commands.len()
            invariant
                encodable(frame@.len()),
                queued == command_views(commands@),
                i <= commands@.len(),
                live ==> dispatch_all(self@, queued, frame@) == action_views(actions@)
                    + dispatch_all(self@, queued.skip(i as int), frame@),
                !live ==> dispatch_all(self@, queued, frame@) == action_views(actions@),
            decreases commands@.len() - i + if live { 1int } else { 0int },
        {
            let ghost before = actions@;
            let ghost rest = queued.skip(i as int);
            let mut made = self.handle_command(&commands[i], frame);
            proof {
                assert(rest[0] == commands@[i as int]@);
                assert(rest.skip(1) =~= queued.skip(i + 1));
            }
            let ghost made_views = action_views(made@);
            actions.append(&mut made);
            proof {
                assert(action_views(actions@) =~= action_views(before) + made_views);
            }
            match &commands[i] {
                Command::Shutdown => {
                    live = false;
                },
                _ => {
                    assert((action_views(before) + made_views) + dispatch_all(
                        self@,
                        queued.skip(i + 1),
                        frame@,
                    ) =~= action_views(before) + (made_views + dispatch_all(
                        self@,
                        queued.skip(i + 1),
                        frame@,
                    )));
                },
            }
            i += 1;
        }
        proof {
            if live {
                assert(queued.skip(i as int) =~= Seq::<CommandView>::empty());
                assert(action_views(actions@) + Seq::<ActionView>::empty() =~= action_views(
                    actions@,
                ));
            }
        }
        actions
    }

    /// The stream frame to send on a frame tick: the most recent frame,
    /// stamped with the current time. Nothing is sent while no client is
    /// attached or no frame has been captured yet; a tick without frame is
    /// simply skipped.
    pub fn send_stream_frame(&self, session: &SessionState, frame: &[u8]) -> (sent: Option<Response>)
        requires
            encodable(frame@.len()),
        ensures
            sent is Some <==> session@.attached && frame@.len() > 0,
            sent matches Some(response) ==> exists|timestamp: i64|
                stream_frame_of(frame@, timestamp) == Some(response@),
    {
        if !session.is_attached() {
            return None;
        }
        let timestamp = unix_millis_now();
        self.on_frame_tick(session, frame, timestamp)
    }

    /// The stream frame to send on a frame tick that fires at `timestamp`.
    pub fn on_frame_tick(&self, session: &SessionState, frame: &[u8], timestamp: i64) -> (sent:
        Option<Response>)
        requires
            encodable(frame@.len()),
        ensures
            sent is Some <==> session@.attached && frame@.len() > 0,
            sent matches Some(response) ==> stream_frame_of(frame@, timestamp) == Some(response@),
    {
        if session.is_attached() {
            stream_frame_at(frame, timestamp)
        } else {
            None
        }
    }

    /// Appends the delivery that a motion towards `target` starts, if any.
    fn push_motor_action(&self, actions: &mut Vec<Action>, target: Option<(u8, &str)>)
        ensures
            action_views(final(actions)@) == action_views(old(actions)@) + motor_actions(
                self@,
                match target {
                    Some((motor, sense)) => Some((motor, sense@)),
                    None => None,
                },
            ),
    {
        let ghost before = actions@;
        match target {
            Some((motor, sense)) => {
                match self.send_esp_command("MOVE", motor, sense, STEPS_PER_COMMAND) {
                    Some(delivery) => {
                        actions.push(Action::Deliver(delivery));
                        assert(action_views(actions@) =~= action_views(before) + seq![
                            ActionView::Deliver(delivery@),
                        ]);
                    },
                    None => {
                        assert(action_views(before) + Seq::<ActionView>::empty() =~= action_views(
                            before,
                        ));
                    },
                }
            },
            None => {
                assert(action_views(before) + Seq::<ActionView>::empty() =~= action_views(before));
            },
        }
    }
}

/// While no client is attached, queued commands produce nothing: no reply to
/// the client, no delivery to the motor controller, no change to the session.
pub proof fn lemma_idle_queue_is_discarded(
    policy: LinkPolicy,
    commands: Seq<CommandView>,
    frame: Seq<u8>,
)
    ensures
        drained(policy, false, commands, frame) == Seq::<ActionView>::empty(),
{
}

/// As long as no `Shutdown` stands in front, the actions of a queue are those
/// of its front part followed by those of what comes behind it.
pub proof fn lemma_dispatch_all_concat(
    policy: LinkPolicy,
    front: Seq<CommandView>,
    back: Seq<CommandView>,
    frame: Seq<u8>,
)
    requires
        shutdown_free(front),
    ensures
        dispatch_all(policy, front + back, frame) == dispatch_all(policy, front, frame)
            + dispatch_all(policy, back, frame),
    decreases front.len(),
{
    if front.len() == 0 {
        assert(front + back =~= back);
        assert(dispatch_all(policy, front, frame) + dispatch_all(policy, back, frame)
            =~= dispatch_all(policy, back, frame));
    } else {
        let whole = front + back;
        assert(whole[0] == front[0]);
        assert(!(front[0] is Shutdown));
        assert(whole.skip(1) =~= front.skip(1) + back);
        assert(shutdown_free(front.skip(1))) by {
            assert forall|i: int| 0 <= i < front.skip(1).len() implies !(
            #[trigger] front.skip(1)[i] is Shutdown) by {
                assert(front.skip(1)[i] == front[i + 1]);
            }
        }
        lemma_dispatch_all_concat(policy, front.skip(1), back, frame);
        assert(dispatch(policy, front[0], frame) + (dispatch_all(policy, front.skip(1), frame)
            + dispatch_all(policy, back, frame)) =~= (dispatch(policy, front[0], frame)
            + dispatch_all(policy, front.skip(1), frame)) + dispatch_all(policy, back, frame));
    }
}

/// While a client is attached, queued commands are dispatched in the order in
/// which they were queued: with no `Shutdown` before the last command, the
/// actions of the queue are the actions of its commands, one command after
/// the other.
pub proof fn lemma_dispatch_keeps_queue_order(
    policy: LinkPolicy,
    commands: Seq<CommandView>,
    frame: Seq<u8>,
)
    requires
        commands.len() > 0 ==> shutdown_free(commands.drop_last()),
    ensures
        drained(policy, true, commands, frame) == dispatched_in_order(policy, commands, frame),
    decreases commands.len(),
{
    if commands.len() > 0 {
        let front = commands.drop_last();
        let last = seq![commands.last()];
        assert(front + last =~= commands);
        if front.len() > 0 {
            assert(shutdown_free(front.drop_last())) by {
                assert forall|i: int| 0 <= i < front.drop_last().len() implies !(
                #[trigger] front.drop_last()[i] is Shutdown) by {
                    assert(front.drop_last()[i] == front[i]);
                }
            }
        }
        lemma_dispatch_keeps_queue_order(policy, front, frame);
        lemma_dispatch_all_concat(policy, front, last, frame);
        assert(dispatch_all(policy, last, frame) =~= dispatch(policy, commands.last(), frame)) by {
            assert(last.skip(1) =~= Seq::<CommandView>::empty());
            assert(dispatch_all(policy, last.skip(1), frame) =~= Seq::<ActionView>::empty());
        }
    }
}

/// A dispatched `Shutdown` ends the session: once its actions are carried
/// out the session is detached, has no target and is in the next generation.
/// A dispatched `SetTarget` stores its identifier, and no other command
/// touches the session.
pub proof fn lemma_session_after_dispatch(
    policy: LinkPolicy,
    command: CommandView,
    frame: Seq<u8>,
    session: SessionView,
)
    ensures
        session_after_all(dispatch(policy, command, frame), session) == match command {
            CommandView::Shutdown => session.reset(),
            CommandView::SetTarget { id } => session.with_target(id),
            _ => session,
        },
{
    let actions = dispatch(policy, command, frame);
    match command {
        CommandView::Shutdown => {
            let sent = seq![ack("Shutdown"@)];
            assert(actions.drop_last() =~= sent);
            assert(actions.last() == ActionView::ResetSession);
            lemma_session_after_sends(sent, session);
        },
        CommandView::SetTarget { id } => {
            let stored = seq![ActionView::StoreTarget(id)];
            assert(actions.drop_last() =~= stored);
            assert(stored.drop_last() =~= Seq::<ActionView>::empty());
            assert(stored.last() == ActionView::StoreTarget(id));
            assert(actions.last() is Respond);
            assert(session_after_all(stored.drop_last(), session) == session);
            assert(session_after_all(stored, session) == session.with_target(id));
        },
        _ => {
            lemma_session_after_sends(actions, session);
        },
    }
}

/// Actions that only send leave the session as it is.
proof fn lemma_session_after_sends(actions: Seq<ActionView>, session: SessionView)
    requires
        forall|i: int|
            0 <= i < actions.len() ==> (#[trigger] actions[i] is Respond || actions[i] is Deliver),
    ensures
        session_after_all(actions, session) == session,
    decreases actions.len(),
{
    if actions.len() > 0 {
        assert(actions.last() is Respond || actions.last() is Deliver);
        let front = actions.drop_last();
        assert forall|i: int| 0 <= i < front.len() implies (#[trigger] front[i] is Respond
            || front[i] is Deliver) by {
            assert(front[i] == actions[i]);
        }
        lemma_session_after_sends(front, session);
    }
}

} // verus!
