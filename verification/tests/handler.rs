use device_control::handler::{terminated, Delivery, EspHandler, LinkError, LinkStep, Reply};

/// Drives one exchange against a peer whose reply to the attempt number `n`
/// is `peer(n)`, and reports the outcome with the pause taken before each
/// write.
fn exchange(handler: &EspHandler, msg: &str, peer: impl Fn(u8) -> Reply) -> (Result<(), LinkError>, Vec<u64>, Vec<String>) {
    let mut pauses = Vec::new();
    let mut frames = Vec::new();
    let mut delivery: Delivery = match handler.send_with_retry(msg) {
        Ok(delivery) => delivery,
        Err(error) => return (Err(error), pauses, frames),
    };
    loop {
        pauses.push(delivery.pause_ms());
        frames.push(delivery.frame());
        let reply = peer(delivery.attempt());
        match delivery.on_reply(&reply) {
            LinkStep::Retry(next) => delivery = next,
            LinkStep::Done(result) => return (result, pauses, frames),
        }
    }
}

#[test]
fn ack_on_attempt_k_succeeds_after_exactly_k_writes() {
    for max_retries in 1u8..=6 {
        let handler = EspHandler::with_policy(max_retries, 30, 200);
        for k in 1..=max_retries {
            let (result, pauses, frames) = exchange(&handler, "MOVE:1:FWD:5", |attempt| {
                if attempt == k { Reply::Line("ACK\n".to_string()) } else { Reply::TimedOut }
            });
            assert_eq!(result, Ok(()));
            assert_eq!(pauses.len(), k as usize);
            assert_eq!(frames.len(), k as usize);
        }
    }
}

#[test]
fn silent_peer_exhausts_every_attempt_with_backoff_between_them() {
    for max_retries in 1u8..=6 {
        let handler = EspHandler::with_policy(max_retries, 45, 200);
        let (result, pauses, frames) = exchange(&handler, "MOVE:1:FWD:5", |_| Reply::TimedOut);
        assert_eq!(result, Err(LinkError::NoAck));
        assert_eq!(frames.len(), max_retries as usize);
        assert_eq!(pauses[0], 0);
        assert_eq!(pauses[1..].to_vec(), vec![45u64; max_retries as usize - 1]);
    }
}

#[test]
fn default_policy_is_three_attempts_thirty_and_two_hundred_milliseconds() {
    let handler = EspHandler::new();
    let first = handler.send_with_retry("PING:0::0").expect("the default policy allows attempts");
    assert_eq!(first.attempt(), 1);
    assert_eq!(first.pause_ms(), 0);
    assert_eq!(first.timeout_ms(), 200);
    let second = match first.on_reply(&Reply::TimedOut) {
        LinkStep::Retry(next) => next,
        LinkStep::Done(_) => panic!("a second attempt is due"),
    };
    assert_eq!(second.attempt(), 2);
    assert_eq!(second.pause_ms(), 30);
    let third = match second.on_reply(&Reply::ReadFailed) {
        LinkStep::Retry(next) => next,
        LinkStep::Done(_) => panic!("a third attempt is due"),
    };
    assert_eq!(third.attempt(), 3);
    assert_eq!(third.pause_ms(), 30);
    assert_eq!(third.on_reply(&Reply::WriteFailed), LinkStep::Done(Err(LinkError::NoAck)));
}

#[test]
fn err_reply_ends_the_exchange_as_a_success() {
    let handler = EspHandler::new();
    let (result, pauses, _) = exchange(&handler, "MOVE:1:FWD:5", |_| Reply::Line("ERR".to_string()));
    assert_eq!(result, Ok(()));
    assert_eq!(pauses, vec![0]);
}

#[test]
fn replies_are_trimmed_before_they_are_recognised() {
    assert!(Reply::Line("  ACK\r\n".to_string()).is_terminal());
    assert!(Reply::Line("\tERR ".to_string()).is_terminal());
    assert!(Reply::Line("ACK".to_string()).is_terminal());
}

#[test]
fn other_replies_call_for_a_retry() {
    assert!(!Reply::Line("NAK".to_string()).is_terminal());
    assert!(!Reply::Line("ack".to_string()).is_terminal());
    assert!(!Reply::Line("ACK!".to_string()).is_terminal());
    assert!(!Reply::Line("A CK".to_string()).is_terminal());
    assert!(!Reply::Line("".to_string()).is_terminal());
    assert!(!Reply::TimedOut.is_terminal());
    assert!(!Reply::ReadFailed.is_terminal());
    assert!(!Reply::WriteFailed.is_terminal());
}

#[test]
fn garbage_then_ack_takes_two_writes() {
    let handler = EspHandler::new();
    let (result, pauses, frames) = exchange(&handler, "MOVE:2:BWD:5", |attempt| {
        if attempt == 1 { Reply::Line("@@#".to_string()) } else { Reply::Line("ACK".to_string()) }
    });
    assert_eq!(result, Ok(()));
    assert_eq!(pauses, vec![0, 30]);
    assert_eq!(frames, vec!["MOVE:2:BWD:5\n".to_string(), "MOVE:2:BWD:5\n".to_string()]);
}

#[test]
fn a_policy_without_attempts_fails_at_once() {
    let handler = EspHandler::with_policy(0, 30, 200);
    assert_eq!(handler.send_with_retry("MOVE:1:FWD:5").err(), Some(LinkError::NoAck));
}

#[test]
fn the_message_is_sent_without_surrounding_white_space() {
    let handler = EspHandler::new();
    let delivery = handler.send_with_retry("  MOVE:1:FWD:5 \n").expect("attempts are allowed");
    assert_eq!(delivery.line(), "MOVE:1:FWD:5");
    assert_eq!(delivery.frame(), "MOVE:1:FWD:5\n");
}

#[test]
fn send_message_appends_the_terminator_only() {
    let handler = EspHandler::new();
    assert_eq!(handler.send_message("STOP:0::0"), "STOP:0::0\n");
    assert_eq!(handler.send_message(" x "), " x \n");
    assert_eq!(terminated(""), "\n");
}

#[test]
fn receive_message_reads_a_well_formed_line() {
    let handler = EspHandler::new();
    let message = handler.receive_message("DONE:1:FWD:5\n").expect("the line is a message");
    assert_eq!(message.cmd, "DONE");
    assert_eq!(message.motor, Some(1));
    assert_eq!(message.direction.as_deref(), Some("FWD"));
    assert_eq!(message.steps, Some(5));
}

#[test]
fn receive_message_reports_a_malformed_line() {
    let handler = EspHandler::new();
    assert_eq!(handler.receive_message("DONE:1:FWD").err(), Some(LinkError::Malformed));
    assert_eq!(handler.receive_message("DONE:one:FWD:5").err(), Some(LinkError::Malformed));
    assert_eq!(handler.receive_message("").err(), Some(LinkError::Malformed));
}

#[test]
fn replay_counts_the_attempts_up_to_the_first_terminal_reply() {
    let handler = EspHandler::with_policy(5, 30, 200);
    let replies = vec![
        Reply::TimedOut,
        Reply::Line("???".to_string()),
        Reply::Line("ACK".to_string()),
        Reply::Line("ACK".to_string()),
    ];
    let exchange = handler.send_with_retry("MOVE:1:FWD:5").expect("attempts are allowed").replay(&replies);
    assert_eq!(exchange.outcome, Some(Ok(())));
    assert_eq!(exchange.attempts, 3);
}

#[test]
fn replay_fails_once_the_attempts_are_used_up() {
    let handler = EspHandler::with_policy(3, 30, 200);
    let replies = vec![Reply::TimedOut; 8];
    let exchange = handler.send_with_retry("MOVE:1:FWD:5").expect("attempts are allowed").replay(&replies);
    assert_eq!(exchange.outcome, Some(Err(LinkError::NoAck)));
    assert_eq!(exchange.attempts, 3);
}

#[test]
fn replay_is_undecided_while_replies_are_outstanding() {
    let handler = EspHandler::with_policy(3, 30, 200);
    let first = handler.send_with_retry("MOVE:1:FWD:5").expect("attempts are allowed");
    let exchange = first.clone().replay(&vec![]);
    assert_eq!(exchange.outcome, None);
    assert_eq!(exchange.attempts, 1);
    let exchange = first.replay(&vec![Reply::ReadFailed, Reply::WriteFailed]);
    assert_eq!(exchange.outcome, None);
    assert_eq!(exchange.attempts, 3);
}
