//! The record exchanged with the motor controller and its one-line text form,
//! `CMD:UNIT:DIRECTION:STEPS`.

use crate::text::{
    all_digits, colon_free, decimal, format_decimal, is_digit, is_space, leading_spaces,
    lemma_decimal_is_digits, lemma_parse_decimal_of_decimal, lemma_split_fields_of_joined,
    parse_decimal, parse_unsigned, split, split_fields, texts, trailing_spaces, trim, trimmed,
};
use vstd::prelude::*;
use vstd::string::*;

verus! {

/// One message of the motor controller's line protocol.
#[derive(Debug, Clone)]
pub struct EspMessage {
    /// Command token, such as `MOVE`.
    pub cmd: String,
    /// Motor the command addresses.
    pub motor: Option<u8>,
    /// Sense of the motion, such as `FWD` or `BWD`.
    pub direction: Option<String>,
    /// Number of steps to take.
    pub steps: Option<u32>,
}

/// The mathematical content of an [`EspMessage`].
pub struct EspMessageView {
    pub cmd: Seq<char>,
    pub motor: Option<u8>,
    pub direction: Option<Seq<char>>,
    pub steps: Option<u32>,
}

impl View for EspMessage {
    type V = EspMessageView;

    open spec fn view(&self) -> EspMessageView {
        EspMessageView {
            cmd: self.cmd@,
            motor: self.motor,
            direction: match self.direction {
                Some(d) => Some(d@),
                None => None,
            },
            steps: self.steps,
        }
    }
}

/// The number written for an absent or present motor.
pub open spec fn motor_number(motor: Option<u8>) -> nat {
    match motor {
        Some(m) => m as nat,
        None => 0,
    }
}

/// The number written for an absent or present step count.
pub open spec fn steps_number(steps: Option<u32>) -> nat {
    match steps {
        Some(n) => n as nat,
        None => 0,
    }
}

/// The text written for an absent or present direction.
pub open spec fn direction_text(direction: Option<Seq<char>>) -> Seq<char> {
    match direction {
        Some(d) => d,
        None => Seq::empty(),
    }
}

/// The line that stands for `m`, without its terminator: the four fields in
/// fixed order, separated by colons, an absent number written as `0` and an
/// absent direction left empty.
pub open spec fn wire_line(m: EspMessageView) -> Seq<char> {
    m.cmd + seq![':'] + decimal(motor_number(m.motor)) + seq![':'] + direction_text(m.direction)
        + seq![':'] + decimal(steps_number(m.steps))
}

/// The message that the four fields of a line stand for, if both numbers are
/// well formed and in range. An empty direction field reads as no direction.
pub open spec fn message_of_fields(f: Seq<Seq<char>>) -> Option<EspMessageView>
    recommends
        f.len() == 4,
{
    match (parse_decimal(f[1], u8::MAX as nat), parse_decimal(f[3], u32::MAX as nat)) {
        (Some(motor), Some(steps)) => Some(
            EspMessageView {
                cmd: f[0],
                motor: Some(motor as u8),
                direction: if f[2].len() == 0 {
                    None
                } else {
                    Some(f[2])
                },
                steps: Some(steps as u32),
            },
        ),
        _ => None,
    }
}

/// The message that `line` stands for. Surrounding white space is ignored;
/// the rest must consist of exactly four colon-separated fields whose second
/// and fourth are unsigned decimal numbers that fit a `u8` and a `u32`.
pub open spec fn parse_line(line: Seq<char>) -> Option<EspMessageView> {
    let fields = split_fields(trimmed(line));
    if fields.len() == 4 {
        message_of_fields(fields)
    } else {
        None
    }
}

/// The messages that survive being written and read back unchanged: both
/// numbers are present, the command neither holds a colon nor starts with
/// white space, and a direction, if present, is non-empty and colon-free.
pub open spec fn survives_round_trip(m: EspMessageView) -> bool {
    &&& m.motor is Some
    &&& m.steps is Some
    &&& colon_free(m.cmd)
    &&& m.cmd.len() > 0 ==> !is_space(m.cmd[0])
    &&& m.direction matches Some(d) ==> d.len() > 0 && colon_free(d)
}

impl EspMessage {
    /// Writes the message as one protocol line, without the terminator.
    pub fn to_string(&self) -> (line: String)
        ensures
            line@ == wire_line(self@),
    {
        let motor: u32 = match self.motor {
            Some(m) => m as u32,
            None => 0,
        };
        let steps: u32 = match self.steps {
            Some(n) => n,
            None => 0,
        };
        proof {
            reveal_strlit(":");
            assert(":"@ =~= seq![':']);
        }
        let mut line = self.cmd.clone();
        line.append(":");
        line.append(format_decimal(motor).as_str());
        line.append(":");
        match &self.direction {
            Some(d) => {
                line.append(d.as_str());
            },
            None => {
                assert(line@ + Seq::<char>::empty() =~= line@);
            },
        }
        line.append(":");
        line.append(format_decimal(steps).as_str());
        line
    }

    /// Reads one protocol line. A line with another number of fields than
    /// four, or with a malformed or oversized number, gives `None`.
    pub fn from_string(data: &str) -> (parsed: Option<EspMessage>)
        ensures
            parsed is Some <==> parse_line(data@) is Some,
            parsed matches Some(m) ==> parse_line(data@) == Some(m@),
    {
        let fields = split(trim(data));
        if fields.len() != 4 {
            assert(texts(fields@).len() == fields@.len());
            return None;
        }
        proof {
            let f = texts(fields@);
            assert(f.len() == 4);
            assert(f[0] == fields@[0]@);
            assert(f[1] == fields@[1]@);
            assert(f[2] == fields@[2]@);
            assert(f[3] == fields@[3]@);
        }
        let motor = match parse_unsigned(fields[1].as_str(), 255) {
            Some(m) => m as u8,
            None => {
                return None;
            },
        };
        let steps = match parse_unsigned(fields[3].as_str(), u32::MAX) {
            Some(n) => n,
            None => {
                return None;
            },
        };
        let direction = if fields[2].as_str().unicode_len() == 0 {
            None
        } else {
            Some(fields[2].clone())
        };
        Some(EspMessage { cmd: fields[0].clone(), motor: Some(motor), direction, steps: Some(steps) })
    }
}

/// Every digit string is free of colons.
proof fn lemma_digits_colon_free(s: Seq<char>)
    requires
        all_digits(s),
    ensures
        colon_free(s),
{
    assert forall|i: int| 0 <= i < s.len() implies #[trigger] s[i] != ':' by {
        assert(is_digit(s[i]));
    }
}

/// A written line has no white space to lose at either end, unless its
/// command starts with some: it is sent exactly as it was written.
pub proof fn lemma_wire_line_is_trimmed(m: EspMessageView)
    requires
        m.cmd.len() > 0 ==> !is_space(m.cmd[0]),
    ensures
        trimmed(wire_line(m)) == wire_line(m),
{
    let steps = decimal(steps_number(m.steps));
    let line = wire_line(m);
    lemma_decimal_is_digits(steps_number(m.steps));
    assert(leading_spaces(line) == 0) by {
        if m.cmd.len() > 0 {
            assert(line[0] == m.cmd[0]);
        } else {
            assert(line[0] == ':');
        }
    }
    assert(line.skip(0) =~= line);
    assert(trailing_spaces(line) == 0) by {
        assert(line.last() == steps.last());
        assert(is_digit(steps[steps.len() - 1]));
    }
    assert(line.take(line.len() as int) =~= line);
}

/// Writing a message and reading the line back restores every field, for each
/// message that [`survives_round_trip`].
pub proof fn lemma_parse_line_of_wire_line(m: EspMessageView)
    requires
        survives_round_trip(m),
    ensures
        parse_line(wire_line(m)) == Some(m),
{
    let motor = decimal(motor_number(m.motor));
    let direction = direction_text(m.direction);
    let steps = decimal(steps_number(m.steps));
    lemma_decimal_is_digits(motor_number(m.motor));
    lemma_decimal_is_digits(steps_number(m.steps));
    lemma_digits_colon_free(motor);
    lemma_digits_colon_free(steps);
    lemma_parse_decimal_of_decimal(motor_number(m.motor), u8::MAX as nat);
    lemma_parse_decimal_of_decimal(steps_number(m.steps), u32::MAX as nat);
    assert(colon_free(direction));
    lemma_split_fields_of_joined(m.cmd, motor, direction, steps);
    lemma_wire_line_is_trimmed(m);
}

/// A line that is no message is never read as one: whatever parses has
/// exactly four fields, and both of its numbers are present.
pub proof fn lemma_parsed_lines_are_complete(line: Seq<char>)
    requires
        parse_line(line) is Some,
    ensures
        split_fields(trimmed(line)).len() == 4,
        parse_line(line)->0.motor is Some,
        parse_line(line)->0.steps is Some,
        parse_line(line)->0.cmd == split_fields(trimmed(line))[0],
{
}

} // verus!
