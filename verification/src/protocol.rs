//! The Oryx raw-HID protocol: the frames sent to the keyboard, the conversation that
//! each operation holds with it, and a session that steps through that conversation.
//!
//! A session decides; whoever owns the HID device performs what it asks (write a
//! frame, read a reply) and hands back what happened.
use vstd::prelude::*;
use vstd::string::*;
use crate::text::{decimal_u8, decimal_u8_spec, hex_byte_literal, hex_byte_literal_spec};

verus! {

/// Size of an Oryx packet; every frame written carries one, after the report id.
pub const PACKET_SIZE: usize = 32;

/// Command: start pairing.
pub const CMD_PAIRING_INIT: u8 = 0x01;

/// Command: enter (1) or leave (0) host-controlled RGB mode.
pub const CMD_RGB_CONTROL: u8 = 0x05;

/// Command: set one LED.
pub const CMD_SET_RGB_LED: u8 = 0x06;

/// Command: raise (1) or lower (0) the brightness one step.
pub const CMD_UPDATE_BRIGHTNESS: u8 = 0x08;

/// Command: set every LED.
pub const CMD_SET_RGB_LED_ALL: u8 = 0x09;

/// Command: ask for the protocol version.
pub const CMD_GET_PROTOCOL_VERSION: u8 = 0xFE;

/// Event: pairing succeeded.
pub const EVT_PAIRING_SUCCESS: u8 = 0x04;

/// Event: reply to the protocol-version request.
pub const EVT_GET_PROTOCOL_VERSION: u8 = 0xFE;

/// The protocol version this library speaks.
pub const EXPECTED_PROTOCOL_VERSION: u8 = 0x04;

/// Highest LED index of a Voyager (52 LEDs, 0 to 51).
pub const MAX_LED_INDEX: u8 = 51;

/// Timeout, in milliseconds, for the replies to pairing and to the version request.
pub const REPLY_TIMEOUT_MS: i32 = 2000;

/// Timeout, in milliseconds, for the notices that follow pairing and RGB control.
pub const NOTICE_TIMEOUT_MS: i32 = 1000;

// ---------------------------------------------------------------------------
// Frames
// ---------------------------------------------------------------------------

/// The frame written for `data`: report id 0, then the first 32 bytes of `data`,
/// padded with zeros to 33 bytes.
pub open spec fn report_frame_spec(data: Seq<u8>) -> Seq<u8> {
    Seq::new((PACKET_SIZE + 1) as nat, |i: int| if 1 <= i && i - 1 < data.len() { data[i - 1] } else { 0u8 })
}

/// Builds the frame written for `data`: report id 0, then at most 32 bytes of `data`,
/// zero-padded.
pub fn report_frame(data: &[u8]) -> (r: Vec<u8>)
    ensures
        r@ == report_frame_spec(data@),
{
    let mut frame: Vec<u8> = Vec::new();
    frame.push(0u8);
    let mut i: usize = 0;
    while i < PACKET_SIZE
        invariant
            0 <= i <= PACKET_SIZE,
            frame@.len() == i + 1,
            forall|j: int| 0 <= j < i + 1 ==> #[trigger] frame@[j] == report_frame_spec(data@)[j],
        decreases PACKET_SIZE - i,
    {
        if i < data.len() {
            frame.push(data[i]);
        } else {
            frame.push(0u8);
        }
        i = i + 1;
    }
    assert(frame@ =~= report_frame_spec(data@));
    frame
}

// ---------------------------------------------------------------------------
// Commands and the conversations built from them
// ---------------------------------------------------------------------------

/// A command sent to the keyboard.
#[derive(Clone, Copy, Debug, PartialEq, Eq, Structural)]
pub enum Command {
    PairingInit,
    GetProtocolVersion,
    /// Enter (`true`) or leave (`false`) host-controlled RGB mode.
    RgbControl(bool),
    /// Set every LED to red, green, blue.
    SetRgbLedAll(u8, u8, u8),
    /// Set the LED at an index to red, green, blue.
    SetRgbLed(u8, u8, u8, u8),
    /// Raise (`true`) or lower (`false`) the brightness one step.
    UpdateBrightness(bool),
}

/// The payload of a command.
pub open spec fn command_bytes(c: Command) -> Seq<u8> {
    match c {
        Command::PairingInit => seq![CMD_PAIRING_INIT],
        Command::GetProtocolVersion => seq![CMD_GET_PROTOCOL_VERSION],
        Command::RgbControl(on) => seq![CMD_RGB_CONTROL, if on { 1u8 } else { 0u8 }],
        Command::SetRgbLedAll(r, g, b) => seq![CMD_SET_RGB_LED_ALL, r, g, b],
        Command::SetRgbLed(index, r, g, b) => seq![CMD_SET_RGB_LED, index, r, g, b],
        Command::UpdateBrightness(up) => seq![CMD_UPDATE_BRIGHTNESS, if up { 1u8 } else { 0u8 }],
    }
}

impl Command {
    /// The payload of this command.
    pub fn payload(&self) -> (r: Vec<u8>)
        ensures
            r@ == command_bytes(*self),
    {
        let mut v: Vec<u8> = Vec::new();
        match *self {
            Command::PairingInit => {
                v.push(CMD_PAIRING_INIT);
            },
            Command::GetProtocolVersion => {
                v.push(CMD_GET_PROTOCOL_VERSION);
            },
            Command::RgbControl(on) => {
                v.push(CMD_RGB_CONTROL);
                v.push(if on { 1u8 } else { 0u8 });
            },
            Command::SetRgbLedAll(r, g, b) => {
                v.push(CMD_SET_RGB_LED_ALL);
                v.push(r);
                v.push(g);
                v.push(b);
            },
            Command::SetRgbLed(index, r, g, b) => {
                v.push(CMD_SET_RGB_LED);
                v.push(index);
                v.push(r);
                v.push(g);
                v.push(b);
            },
            Command::UpdateBrightness(up) => {
                v.push(CMD_UPDATE_BRIGHTNESS);
                v.push(if up { 1u8 } else { 0u8 });
            },
        }
        assert(v@ =~= command_bytes(*self));
        v
    }
}

/// The part of an operation that a step belongs to; errors are reported in its terms.
#[derive(Clone, Copy, Debug, PartialEq, Eq, Structural)]
pub enum Phase {
    Pairing,
    EnablingRgb,
    SettingColor,
    Resetting,
    AdjustingBrightness,
}

/// What a reply must show for the conversation to go on.
#[derive(Clone, Copy, Debug, PartialEq, Eq, Structural)]
pub enum ReplyCheck {
    /// Anything, or nothing before the timeout.
    Ignore,
    /// A reply whose first byte is the pairing-success event.
    PairingSuccess,
    /// A protocol-version event that names the expected version.
    ProtocolVersion,
}

/// One step of a conversation.
#[derive(Clone, Copy, Debug, PartialEq, Eq, Structural)]
pub enum Exchange {
    /// Write the frame of a command.
    Send(Phase, Command),
    /// Read one reply, waiting at most the given milliseconds, and check it.
    Receive(Phase, i32, ReplyCheck),
}

/// The phase of a step.
pub open spec fn phase_of(e: Exchange) -> Phase {
    match e {
        Exchange::Send(p, _) => p,
        Exchange::Receive(p, _, _) => p,
    }
}

/// What is asked of the keyboards.
#[derive(Clone, Copy, Debug, PartialEq, Eq, Structural)]
pub enum Operation {
    /// Set every LED to a colour.
    SetColor { r: u8, g: u8, b: u8 },
    /// Set the LED at `index` (0 to 51) to a colour.
    SetKeyColor { index: u8, r: u8, g: u8, b: u8 },
    /// Give the lighting back to the keyboard's own configuration.
    Reset,
    /// Raise (`up`) or lower the brightness by `steps` steps.
    Brightness { up: bool, steps: u8 },
}

/// Why an operation could not be built.
#[derive(Clone, Copy, Debug, PartialEq, Eq, Structural)]
pub enum OperationError {
    /// The LED index is above 51.
    KeyIndexOutOfRange(u8),
}

impl OperationError {
    /// The text of this error.
    pub open spec fn message_text(&self) -> Seq<char> {
        match self {
            OperationError::KeyIndexOutOfRange(index) => "Key index must be 0-51, got "@
                + decimal_u8_spec(*index),
        }
    }

    /// The text of this error, with the refused index in decimal.
    pub fn message(&self) -> (r: String)
        ensures
            r@ == self.message_text(),
    {
        match self {
            OperationError::KeyIndexOutOfRange(index) => {
                let mut out = String::from_str("Key index must be 0-51, got ");
                let n = decimal_u8(*index);
                out.append(n.as_str());
                out
            },
        }
    }
}

/// The operation that sets one LED, refused for an index above 51.
pub fn key_color_operation(index: u8, r: u8, g: u8, b: u8) -> (res: Result<Operation, OperationError>)
    ensures
        index <= 51 ==> res == Ok::<Operation, OperationError>(
            Operation::SetKeyColor { index, r, g, b },
        ),
        index > 51 ==> res == Err::<Operation, OperationError>(
            OperationError::KeyIndexOutOfRange(index),
        ),
{
    if index <= MAX_LED_INDEX {
        Ok(Operation::SetKeyColor { index, r, g, b })
    } else {
        Err(OperationError::KeyIndexOutOfRange(index))
    }
}

/// Pairing, as every conversation begins: send the pairing request, expect the
/// pairing-success event, let the layer notice that follows pass, then ask for the
/// protocol version and expect the supported one.
pub open spec fn handshake() -> Seq<Exchange> {
    seq![
        Exchange::Send(Phase::Pairing, Command::PairingInit),
        Exchange::Receive(Phase::Pairing, REPLY_TIMEOUT_MS, ReplyCheck::PairingSuccess),
        Exchange::Receive(Phase::Pairing, NOTICE_TIMEOUT_MS, ReplyCheck::Ignore),
        Exchange::Send(Phase::Pairing, Command::GetProtocolVersion),
        Exchange::Receive(Phase::Pairing, REPLY_TIMEOUT_MS, ReplyCheck::ProtocolVersion),
    ]
}

/// Entering host-controlled RGB mode, and letting its notice pass.
pub open spec fn enable_rgb() -> Seq<Exchange> {
    seq![
        Exchange::Send(Phase::EnablingRgb, Command::RgbControl(true)),
        Exchange::Receive(Phase::EnablingRgb, NOTICE_TIMEOUT_MS, ReplyCheck::Ignore),
    ]
}

/// The whole conversation that an operation holds with one keyboard.
pub open spec fn script_spec(op: Operation) -> Seq<Exchange> {
    match op {
        Operation::SetColor { r, g, b } => handshake() + enable_rgb() + seq![
            Exchange::Send(Phase::SettingColor, Command::SetRgbLedAll(r, g, b)),
        ],
        Operation::SetKeyColor { index, r, g, b } => handshake() + enable_rgb() + seq![
            Exchange::Send(Phase::SettingColor, Command::SetRgbLed(index, r, g, b)),
        ],
        Operation::Reset => handshake() + seq![
            Exchange::Send(Phase::Resetting, Command::RgbControl(false)),
            Exchange::Receive(Phase::Resetting, NOTICE_TIMEOUT_MS, ReplyCheck::Ignore),
        ],
        Operation::Brightness { up, steps } => handshake() + Seq::new(
            steps as nat,
            |i: int| Exchange::Send(Phase::AdjustingBrightness, Command::UpdateBrightness(up)),
        ),
    }
}

fn push_handshake(v: &mut Vec<Exchange>)
    ensures
        final(v)@ == old(v)@ + handshake(),
{
    v.push(Exchange::Send(Phase::Pairing, Command::PairingInit));
    v.push(Exchange::Receive(Phase::Pairing, REPLY_TIMEOUT_MS, ReplyCheck::PairingSuccess));
    v.push(Exchange::Receive(Phase::Pairing, NOTICE_TIMEOUT_MS, ReplyCheck::Ignore));
    v.push(Exchange::Send(Phase::Pairing, Command::GetProtocolVersion));
    v.push(Exchange::Receive(Phase::Pairing, REPLY_TIMEOUT_MS, ReplyCheck::ProtocolVersion));
    assert(v@ =~= old(v)@ + handshake());
}

fn push_enable_rgb(v: &mut Vec<Exchange>)
    ensures
        final(v)@ == old(v)@ + enable_rgb(),
{
    v.push(Exchange::Send(Phase::EnablingRgb, Command::RgbControl(true)));
    v.push(Exchange::Receive(Phase::EnablingRgb, NOTICE_TIMEOUT_MS, ReplyCheck::Ignore));
    assert(v@ =~= old(v)@ + enable_rgb());
}

/// The conversation that an operation holds with one keyboard.
pub fn script(op: &Operation) -> (r: Vec<Exchange>)
    ensures
        r@ == script_spec(*op),
{
    let mut v: Vec<Exchange> = Vec::new();
    push_handshake(&mut v);
    match *op {
        Operation::SetColor { r, g, b } => {
            push_enable_rgb(&mut v);
            v.push(Exchange::Send(Phase::SettingColor, Command::SetRgbLedAll(r, g, b)));
        },
        Operation::SetKeyColor { index, r, g, b } => {
            push_enable_rgb(&mut v);
            v.push(Exchange::Send(Phase::SettingColor, Command::SetRgbLed(index, r, g, b)));
        },
        Operation::Reset => {
            v.push(Exchange::Send(Phase::Resetting, Command::RgbControl(false)));
            v.push(Exchange::Receive(Phase::Resetting, NOTICE_TIMEOUT_MS, ReplyCheck::Ignore));
        },
        Operation::Brightness { up, steps } => {
            let ghost base = v@;
            let mut k: u8 = 0;
            while k < steps
                invariant
                    0 <= k <= steps,
                    v@ == base + Seq::new(
                        k as nat,
                        |i: int| Exchange::Send(Phase::AdjustingBrightness, Command::UpdateBrightness(up)),
                    ),
                decreases steps - k,
            {
                v.push(Exchange::Send(Phase::AdjustingBrightness, Command::UpdateBrightness(up)));
                k = k + 1;
                assert(v@ =~= base + Seq::new(
                    k as nat,
                    |i: int| Exchange::Send(Phase::AdjustingBrightness, Command::UpdateBrightness(up)),
                ));
            }
        },
    }
    assert(v@ =~= script_spec(*op));
    v
}

// ---------------------------------------------------------------------------
// Replies
// ---------------------------------------------------------------------------

/// Why a conversation broke off.
#[derive(Clone, Copy, Debug, PartialEq, Eq, Structural)]
pub enum SessionError {
    /// No reply to the pairing request before the timeout.
    NoPairingResponse,
    /// The reply to the pairing request carried this event code instead of success.
    PairingFailed(u8),
    /// No reply to the protocol-version request before the timeout.
    NoVersionResponse,
    /// The reply to the protocol-version request carried this event code.
    UnexpectedVersionResponse(u8),
    /// The keyboard speaks this protocol version, not the supported one.
    UnsupportedProtocolVersion(u8),
    /// Writing a frame to the device failed.
    WriteFailed,
    /// Reading from the device failed.
    ReadFailed,
    /// What was reported does not answer the step that was asked for.
    OutOfOrder,
}

impl SessionError {
    /// The text of this error.
    pub open spec fn message_text(&self) -> Seq<char> {
        match self {
            SessionError::NoPairingResponse => "No response to pairing request"@,
            SessionError::PairingFailed(code) => "Pairing failed: response code "@
                + hex_byte_literal_spec(*code),
            SessionError::NoVersionResponse => "No response to protocol version request"@,
            SessionError::UnexpectedVersionResponse(code) =>
                "Unexpected response to protocol version request: "@ + hex_byte_literal_spec(*code),
            SessionError::UnsupportedProtocolVersion(version) => "Unsupported Oryx protocol version "@
                + hex_byte_literal_spec(*version) + " (expected "@ + hex_byte_literal_spec(
                EXPECTED_PROTOCOL_VERSION,
            ) + ")"@,
            SessionError::WriteFailed => "Failed to write to device"@,
            SessionError::ReadFailed => "Failed to read from device"@,
            SessionError::OutOfOrder => "Device conversation went out of order"@,
        }
    }

    /// The text of this error, with event codes and versions written as `0x` and two
    /// hex digits.
    pub fn message(&self) -> (r: String)
        ensures
            r@ == self.message_text(),
    {
        match self {
            SessionError::NoPairingResponse => String::from_str("No response to pairing request"),
            SessionError::PairingFailed(code) => {
                let mut out = String::from_str("Pairing failed: response code ");
                let c = hex_byte_literal(*code);
                out.append(c.as_str());
                out
            },
            SessionError::NoVersionResponse => String::from_str(
                "No response to protocol version request",
            ),
            SessionError::UnexpectedVersionResponse(code) => {
                let mut out = String::from_str("Unexpected response to protocol version request: ");
                let c = hex_byte_literal(*code);
                out.append(c.as_str());
                out
            },
            SessionError::UnsupportedProtocolVersion(version) => {
                let mut out = String::from_str("Unsupported Oryx protocol version ");
                let v = hex_byte_literal(*version);
                out.append(v.as_str());
                out.append(" (expected ");
                let e = hex_byte_literal(EXPECTED_PROTOCOL_VERSION);
                out.append(e.as_str());
                out.append(")");
                out
            },
            SessionError::WriteFailed => String::from_str("Failed to write to device"),
            SessionError::ReadFailed => String::from_str("Failed to read from device"),
            SessionError::OutOfOrder => String::from_str("Device conversation went out of order"),
        }
    }
}

/// How a phase is named above the error that broke it off, for a keyboard labelled
/// `label`.
pub open spec fn phase_context_text(phase: Phase, label: Seq<char>) -> Seq<char> {
    match phase {
        Phase::Pairing => "Pairing with "@ + label,
        Phase::EnablingRgb => "Enabling RGB on "@ + label,
        Phase::SettingColor => "Setting color on "@ + label,
        Phase::Resetting => "Resetting "@ + label,
        Phase::AdjustingBrightness => "Adjusting brightness on "@ + label,
    }
}

/// Names a phase above the error that broke it off, for a keyboard labelled `label`.
pub fn phase_context(phase: Phase, label: &str) -> (r: String)
    ensures
        r@ == phase_context_text(phase, label@),
{
    let mut out = match phase {
        Phase::Pairing => String::from_str("Pairing with "),
        Phase::EnablingRgb => String::from_str("Enabling RGB on "),
        Phase::SettingColor => String::from_str("Setting color on "),
        Phase::Resetting => String::from_str("Resetting "),
        Phase::AdjustingBrightness => String::from_str("Adjusting brightness on "),
    };
    out.append(label);
    out
}

/// What a reply (`None`: nothing before the timeout) shows under a check: `None` when it
/// passes, else the error.
pub open spec fn reply_verdict(check: ReplyCheck, reply: Option<Seq<u8>>) -> Option<SessionError> {
    match check {
        ReplyCheck::Ignore => None,
        ReplyCheck::PairingSuccess => match reply {
            None => Some(SessionError::NoPairingResponse),
            Some(b) => if b[0] != EVT_PAIRING_SUCCESS {
                Some(SessionError::PairingFailed(b[0]))
            } else {
                None
            },
        },
        ReplyCheck::ProtocolVersion => match reply {
            None => Some(SessionError::NoVersionResponse),
            Some(b) => if b[0] != EVT_GET_PROTOCOL_VERSION {
                Some(SessionError::UnexpectedVersionResponse(b[0]))
            } else if b[1] != EXPECTED_PROTOCOL_VERSION {
                Some(SessionError::UnsupportedProtocolVersion(b[1]))
            } else {
                None
            },
        },
    }
}

/// The reply as a sequence of bytes.
pub open spec fn reply_view(reply: Option<[u8; PACKET_SIZE]>) -> Option<Seq<u8>> {
    match reply {
        None => None,
        Some(b) => Some(b@),
    }
}

/// Checks a reply read from the keyboard (`None`: nothing before the timeout); `None`
/// when it passes, else the error it shows.
pub fn check_reply(check: ReplyCheck, reply: &Option<[u8; PACKET_SIZE]>) -> (r: Option<SessionError>)
    ensures
        r == reply_verdict(check, reply_view(*reply)),
{
    match check {
        ReplyCheck::Ignore => None,
        ReplyCheck::PairingSuccess => match reply {
            None => Some(SessionError::NoPairingResponse),
            Some(b) => if b[0] != EVT_PAIRING_SUCCESS {
                Some(SessionError::PairingFailed(b[0]))
            } else {
                None
            },
        },
        ReplyCheck::ProtocolVersion => match reply {
            None => Some(SessionError::NoVersionResponse),
            Some(b) => if b[0] != EVT_GET_PROTOCOL_VERSION {
                Some(SessionError::UnexpectedVersionResponse(b[0]))
            } else if b[1] != EXPECTED_PROTOCOL_VERSION {
                Some(SessionError::UnsupportedProtocolVersion(b[1]))
            } else {
                None
            },
        },
    }
}

// ---------------------------------------------------------------------------
// Sessions
// ---------------------------------------------------------------------------

/// What became of the step that a session asked for.
pub enum Outcome {
    /// The frame was written.
    Written,
    /// Writing the frame failed.
    WriteFailed,
    /// A read returned this reply, or `None` when nothing came before the timeout.
    Replied(Option<[u8; PACKET_SIZE]>),
    /// Reading failed.
    ReadFailed,
}

/// Where a conversation broke off, and why.
#[derive(Clone, Copy, Debug, PartialEq, Eq, Structural)]
pub struct Failure {
    pub phase: Phase,
    pub error: SessionError,
}

/// What a session asks for next.
pub enum Action {
    /// Write this frame to the device.
    Write(Vec<u8>),
    /// Read one reply, waiting at most this many milliseconds.
    Read(i32),
    /// The conversation is complete.
    Done,
    /// The conversation broke off.
    Failed(Failure),
}

/// The state of a session: its conversation, how many steps of it have been
/// completed, and the failure that ended it, if one did.
pub struct SessionState {
    pub script: Seq<Exchange>,
    pub next: nat,
    pub failure: Option<Failure>,
}

/// How an outcome answers a step: `None` when the step is completed, else the error.
pub open spec fn answer(step: Exchange, outcome: Outcome) -> Option<SessionError> {
    match step {
        Exchange::Send(_, _) => match outcome {
            Outcome::Written => None,
            Outcome::WriteFailed => Some(SessionError::WriteFailed),
            _ => Some(SessionError::OutOfOrder),
        },
        Exchange::Receive(_, _, check) => match outcome {
            Outcome::Replied(reply) => reply_verdict(check, reply_view(reply)),
            Outcome::ReadFailed => Some(SessionError::ReadFailed),
            _ => Some(SessionError::OutOfOrder),
        },
    }
}

/// Whether a session is over, completed or broken off.
pub open spec fn is_over(s: SessionState) -> bool {
    s.failure is Some || s.next >= s.script.len()
}

/// Whether a session has completed its whole conversation.
pub open spec fn is_complete(s: SessionState) -> bool {
    s.failure is None && s.next >= s.script.len()
}

/// The state that a session starts in.
pub open spec fn initial_state(op: Operation) -> SessionState {
    SessionState { script: script_spec(op), next: 0, failure: None }
}

/// The state after an outcome: a session that is over stays as it is; otherwise the
/// pending step is completed, or the session breaks off with that step's phase.
pub open spec fn next_state(s: SessionState, outcome: Outcome) -> SessionState {
    if is_over(s) {
        s
    } else {
        match answer(s.script[s.next as int], outcome) {
            None => SessionState { next: s.next + 1, ..s },
            Some(e) => SessionState {
                failure: Some(Failure { phase: phase_of(s.script[s.next as int]), error: e }),
                ..s
            },
        }
    }
}

/// The state after a series of outcomes, in order.
pub open spec fn run(s: SessionState, outcomes: Seq<Outcome>) -> SessionState
    decreases outcomes.len(),
{
    if outcomes.len() == 0 {
        s
    } else {
        run(next_state(s, outcomes[0]), outcomes.drop_first())
    }
}

/// Whether `a` is what a session in state `s` asks for.
pub open spec fn is_action_of(s: SessionState, a: Action) -> bool {
    match s.failure {
        Some(f) => a matches Action::Failed(g) && g == f,
        None => if s.next >= s.script.len() {
            a is Done
        } else {
            match s.script[s.next as int] {
                Exchange::Send(_, c) => a matches Action::Write(frame) && frame@ == report_frame_spec(
                    command_bytes(c),
                ),
                Exchange::Receive(_, t, _) => a matches Action::Read(u) && u == t,
            }
        },
    }
}

/// A conversation with one keyboard, stepped through by whoever owns the device.
pub struct Session {
    script: Vec<Exchange>,
    next: usize,
    failure: Option<Failure>,
}

impl Session {
    /// The state of this session.
    pub closed spec fn state(&self) -> SessionState {
        SessionState { script: self.script@, next: self.next as nat, failure: self.failure }
    }

    #[verifier::type_invariant]
    closed spec fn well_formed(&self) -> bool {
        self.next <= self.script@.len()
    }

    /// A session that will hold the conversation of `op`.
    pub fn new(op: &Operation) -> (s: Session)
        ensures
            s.state() == initial_state(*op),
    {
        Session { script: script(op), next: 0, failure: None }
    }

    /// What the session asks for now.
    pub fn action(&self) -> (a: Action)
        ensures
            is_action_of(self.state(), a),
    {
        proof {
            use_type_invariant(self);
        }
        match self.failure {
            Some(f) => Action::Failed(f),
            None => if self.next >= self.script.len() {
                Action::Done
            } else {
                match self.script[self.next] {
                    Exchange::Send(_, c) => {
                        let payload = c.payload();
                        Action::Write(report_frame(payload.as_slice()))
                    },
                    Exchange::Receive(_, t, _) => Action::Read(t),
                }
            },
        }
    }

    /// Hands the session what became of the step it asked for.
    pub fn handle(&mut self, outcome: Outcome)
        ensures
            final(self).state() == next_state(old(self).state(), outcome),
    {
        proof {
            use_type_invariant(&*self);
        }
        if self.failure.is_some() || self.next >= self.script.len() {
            return;
        }
        let step = self.script[self.next];
        let verdict = match step {
            Exchange::Send(_, _) => match outcome {
                Outcome::Written => None,
                Outcome::WriteFailed => Some(SessionError::WriteFailed),
                _ => Some(SessionError::OutOfOrder),
            },
            Exchange::Receive(_, _, check) => match &outcome {
                Outcome::Replied(reply) => check_reply(check, reply),
                Outcome::ReadFailed => Some(SessionError::ReadFailed),
                _ => Some(SessionError::OutOfOrder),
            },
        };
        match verdict {
            None => {
                self.next = self.next + 1;
            },
            Some(e) => {
                let phase = match step {
                    Exchange::Send(p, _) => p,
                    Exchange::Receive(p, _, _) => p,
                };
                self.failure = Some(Failure { phase, error: e });
            },
        }
    }
}

// ---------------------------------------------------------------------------
// Laws of sessions
// ---------------------------------------------------------------------------

/// A session that is over, completed or broken off, stays exactly as it is whatever
/// is reported to it afterwards.
pub proof fn lemma_over_is_final(s: SessionState, outcomes: Seq<Outcome>)
    requires
        is_over(s),
    ensures
        run(s, outcomes) == s,
    decreases outcomes.len(),
{
    if outcomes.len() > 0 {
        lemma_over_is_final(next_state(s, outcomes[0]), outcomes.drop_first());
    }
}

proof fn lemma_complete_from(s: SessionState, outcomes: Seq<Outcome>)
    requires
        s.failure is None,
        s.next <= s.script.len(),
    ensures
        is_complete(run(s, outcomes)) <==> (outcomes.len() >= s.script.len() - s.next && forall|i: int|
            0 <= i < s.script.len() - s.next ==> #[trigger] answer(s.script[s.next + i], outcomes[i])
                is None),
    decreases outcomes.len(),
{
    let n = s.script.len() - s.next;
    if outcomes.len() == 0 {
        if n > 0 {
            assert(!is_complete(s));
        }
    } else if s.next >= s.script.len() {
        lemma_over_is_final(s, outcomes);
    } else {
        let s1 = next_state(s, outcomes[0]);
        let rest = outcomes.drop_first();
        match answer(s.script[s.next as int], outcomes[0]) {
            None => {
                lemma_complete_from(s1, rest);
                if is_complete(run(s, outcomes)) {
                    assert forall|i: int| 0 <= i < n implies #[trigger] answer(
                        s.script[s.next + i],
                        outcomes[i],
                    ) is None by {
                        if i > 0 {
                            assert(outcomes[i] == rest[i - 1]);
                            assert(answer(s1.script[s1.next + (i - 1)], rest[i - 1]) is None);
                        }
                    }
                }
                if outcomes.len() >= n && forall|i: int|
                    0 <= i < n ==> #[trigger] answer(s.script[s.next + i], outcomes[i]) is None {
                    assert forall|i: int| 0 <= i < s1.script.len() - s1.next implies #[trigger] answer(
                        s1.script[s1.next + i],
                        rest[i],
                    ) is None by {
                        assert(rest[i] == outcomes[i + 1]);
                        assert(answer(s.script[s.next + (i + 1)], outcomes[i + 1]) is None);
                    }
                }
            },
            Some(e) => {
                lemma_over_is_final(s1, rest);
                assert(answer(s.script[s.next + 0int], outcomes[0]) is Some);
            },
        }
    }
}

/// A session completes exactly when every step of its conversation was answered as
/// required, in order: each frame written, each reply passing its check.
pub proof fn lemma_complete_iff_every_step_answered(op: Operation, outcomes: Seq<Outcome>)
    ensures
        is_complete(run(initial_state(op), outcomes)) <==> (outcomes.len() >= script_spec(op).len()
            && forall|i: int|
            0 <= i < script_spec(op).len() ==> #[trigger] answer(script_spec(op)[i], outcomes[i])
                is None),
{
    let s = initial_state(op);
    lemma_complete_from(s, outcomes);
    assert forall|i: int| 0 <= i < script_spec(op).len() implies #[trigger] answer(
        script_spec(op)[i],
        outcomes[i],
    ) == answer(s.script[s.next + i], outcomes[i]) by {}
}

/// A session completes only after the keyboard confirmed pairing and reported the
/// supported protocol version: whatever the operation, the pairing reply carried the
/// pairing-success event and the version reply named version 4.
pub proof fn lemma_complete_only_after_pairing(op: Operation, outcomes: Seq<Outcome>)
    requires
        is_complete(run(initial_state(op), outcomes)),
    ensures
        outcomes[1] matches Outcome::Replied(Some(b)) && b@[0] == EVT_PAIRING_SUCCESS,
        outcomes[4] matches Outcome::Replied(Some(b)) && b@[0] == EVT_GET_PROTOCOL_VERSION && b@[1]
            == EXPECTED_PROTOCOL_VERSION,
{
    lemma_complete_iff_every_step_answered(op, outcomes);
    let sc = script_spec(op);
    assert(sc[1] == handshake()[1]);
    assert(sc[4] == handshake()[4]);
    assert(answer(sc[1], outcomes[1]) is None);
    assert(answer(sc[4], outcomes[4]) is None);
}

// ---------------------------------------------------------------------------
// Laws of the wire format, in literal bytes
// ---------------------------------------------------------------------------

/// Every command is written as the Oryx bytes: pairing `01`, protocol version `FE`,
/// RGB control `05 01` / `05 00`, set-all `09 r g b` with the colour requested, set-one
/// `06 index r g b`, brightness `08 01` (up) / `08 00` (down).
pub proof fn lemma_command_bytes(index: u8, r: u8, g: u8, b: u8)
    ensures
        command_bytes(Command::PairingInit) == seq![0x01u8],
        command_bytes(Command::GetProtocolVersion) == seq![0xFEu8],
        command_bytes(Command::RgbControl(true)) == seq![0x05u8, 0x01u8],
        command_bytes(Command::RgbControl(false)) == seq![0x05u8, 0x00u8],
        command_bytes(Command::SetRgbLedAll(r, g, b)) == seq![0x09u8, r, g, b],
        command_bytes(Command::SetRgbLed(index, r, g, b)) == seq![0x06u8, index, r, g, b],
        command_bytes(Command::UpdateBrightness(true)) == seq![0x08u8, 0x01u8],
        command_bytes(Command::UpdateBrightness(false)) == seq![0x08u8, 0x00u8],
{
}

/// A frame is the report id 0, the data (at most its first 32 bytes), then zeros up
/// to 33 bytes.
pub proof fn lemma_frame_layout(data: Seq<u8>)
    ensures
        data.len() <= 32 ==> report_frame_spec(data) == seq![0u8] + data + Seq::new(
            (32 - data.len()) as nat,
            |i: int| 0u8,
        ),
        data.len() > 32 ==> report_frame_spec(data) == seq![0u8] + data.take(32),
{
    if data.len() <= 32 {
        assert(report_frame_spec(data) =~= seq![0u8] + data + Seq::new(
            (32 - data.len()) as nat,
            |i: int| 0u8,
        ));
    } else {
        assert(report_frame_spec(data) =~= seq![0u8] + data.take(32));
    }
}

// ---------------------------------------------------------------------------
// Laws of the conversations, written out step by step
// ---------------------------------------------------------------------------

/// Setting every LED: pair (reply within 2000 ms), let the layer notice pass (1000 ms),
/// check the protocol version (2000 ms), enable RGB control and let its notice pass
/// (1000 ms), then send set-all with the colour requested; nothing else.
pub proof fn lemma_set_color_conversation(r: u8, g: u8, b: u8)
    ensures
        script_spec(Operation::SetColor { r, g, b }) == seq![
            Exchange::Send(Phase::Pairing, Command::PairingInit),
            Exchange::Receive(Phase::Pairing, 2000i32, ReplyCheck::PairingSuccess),
            Exchange::Receive(Phase::Pairing, 1000i32, ReplyCheck::Ignore),
            Exchange::Send(Phase::Pairing, Command::GetProtocolVersion),
            Exchange::Receive(Phase::Pairing, 2000i32, ReplyCheck::ProtocolVersion),
            Exchange::Send(Phase::EnablingRgb, Command::RgbControl(true)),
            Exchange::Receive(Phase::EnablingRgb, 1000i32, ReplyCheck::Ignore),
            Exchange::Send(Phase::SettingColor, Command::SetRgbLedAll(r, g, b)),
        ],
{
    assert(script_spec(Operation::SetColor { r, g, b }) =~= seq![
        Exchange::Send(Phase::Pairing, Command::PairingInit),
        Exchange::Receive(Phase::Pairing, 2000i32, ReplyCheck::PairingSuccess),
        Exchange::Receive(Phase::Pairing, 1000i32, ReplyCheck::Ignore),
        Exchange::Send(Phase::Pairing, Command::GetProtocolVersion),
        Exchange::Receive(Phase::Pairing, 2000i32, ReplyCheck::ProtocolVersion),
        Exchange::Send(Phase::EnablingRgb, Command::RgbControl(true)),
        Exchange::Receive(Phase::EnablingRgb, 1000i32, ReplyCheck::Ignore),
        Exchange::Send(Phase::SettingColor, Command::SetRgbLedAll(r, g, b)),
    ]);
}

/// Setting one key: the same pairing and RGB enabling, then set-one for that key with
/// the colour requested; the set-all command never occurs, so no other key changes.
pub proof fn lemma_key_color_conversation(index: u8, r: u8, g: u8, b: u8)
    ensures
        script_spec(Operation::SetKeyColor { index, r, g, b }) == seq![
            Exchange::Send(Phase::Pairing, Command::PairingInit),
            Exchange::Receive(Phase::Pairing, 2000i32, ReplyCheck::PairingSuccess),
            Exchange::Receive(Phase::Pairing, 1000i32, ReplyCheck::Ignore),
            Exchange::Send(Phase::Pairing, Command::GetProtocolVersion),
            Exchange::Receive(Phase::Pairing, 2000i32, ReplyCheck::ProtocolVersion),
            Exchange::Send(Phase::EnablingRgb, Command::RgbControl(true)),
            Exchange::Receive(Phase::EnablingRgb, 1000i32, ReplyCheck::Ignore),
            Exchange::Send(Phase::SettingColor, Command::SetRgbLed(index, r, g, b)),
        ],
        forall|i: int|
            0 <= i < script_spec(Operation::SetKeyColor { index, r, g, b }).len() ==> !(#[trigger] script_spec(
                Operation::SetKeyColor { index, r, g, b },
            )[i] matches Exchange::Send(_, Command::SetRgbLedAll(_, _, _))),
{
    let expected = seq![
        Exchange::Send(Phase::Pairing, Command::PairingInit),
        Exchange::Receive(Phase::Pairing, 2000i32, ReplyCheck::PairingSuccess),
        Exchange::Receive(Phase::Pairing, 1000i32, ReplyCheck::Ignore),
        Exchange::Send(Phase::Pairing, Command::GetProtocolVersion),
        Exchange::Receive(Phase::Pairing, 2000i32, ReplyCheck::ProtocolVersion),
        Exchange::Send(Phase::EnablingRgb, Command::RgbControl(true)),
        Exchange::Receive(Phase::EnablingRgb, 1000i32, ReplyCheck::Ignore),
        Exchange::Send(Phase::SettingColor, Command::SetRgbLed(index, r, g, b)),
    ];
    assert(script_spec(Operation::SetKeyColor { index, r, g, b }) =~= expected);
}

/// Resetting: pairing as above, then RGB control off and its notice (1000 ms);
/// nothing else.
pub proof fn lemma_reset_conversation()
    ensures
        script_spec(Operation::Reset) == seq![
            Exchange::Send(Phase::Pairing, Command::PairingInit),
            Exchange::Receive(Phase::Pairing, 2000i32, ReplyCheck::PairingSuccess),
            Exchange::Receive(Phase::Pairing, 1000i32, ReplyCheck::Ignore),
            Exchange::Send(Phase::Pairing, Command::GetProtocolVersion),
            Exchange::Receive(Phase::Pairing, 2000i32, ReplyCheck::ProtocolVersion),
            Exchange::Send(Phase::Resetting, Command::RgbControl(false)),
            Exchange::Receive(Phase::Resetting, 1000i32, ReplyCheck::Ignore),
        ],
{
    assert(script_spec(Operation::Reset) =~= seq![
        Exchange::Send(Phase::Pairing, Command::PairingInit),
        Exchange::Receive(Phase::Pairing, 2000i32, ReplyCheck::PairingSuccess),
        Exchange::Receive(Phase::Pairing, 1000i32, ReplyCheck::Ignore),
        Exchange::Send(Phase::Pairing, Command::GetProtocolVersion),
        Exchange::Receive(Phase::Pairing, 2000i32, ReplyCheck::ProtocolVersion),
        Exchange::Send(Phase::Resetting, Command::RgbControl(false)),
        Exchange::Receive(Phase::Resetting, 1000i32, ReplyCheck::Ignore),
    ]);
}

/// Stepping brightness: pairing as above, then exactly `steps` brightness commands, each
/// written `08 01` when raising and `08 00` when lowering.
pub proof fn lemma_brightness_conversation(up: bool, steps: u8)
    ensures
        script_spec(Operation::Brightness { up, steps }).len() == 5 + steps,
        script_spec(Operation::Brightness { up, steps }).take(5) == seq![
            Exchange::Send(Phase::Pairing, Command::PairingInit),
            Exchange::Receive(Phase::Pairing, 2000i32, ReplyCheck::PairingSuccess),
            Exchange::Receive(Phase::Pairing, 1000i32, ReplyCheck::Ignore),
            Exchange::Send(Phase::Pairing, Command::GetProtocolVersion),
            Exchange::Receive(Phase::Pairing, 2000i32, ReplyCheck::ProtocolVersion),
        ],
        forall|i: int|
            5 <= i < 5 + steps ==> (#[trigger] script_spec(Operation::Brightness { up, steps })[i] matches Exchange::Send(
                Phase::AdjustingBrightness,
                c,
            ) && command_bytes(c) == seq![0x08u8, if up { 0x01u8 } else { 0x00u8 }]),
        up ==> forall|i: int|
            5 <= i < 5 + steps ==> #[trigger] script_spec(Operation::Brightness { up, steps })[i]
                == Exchange::Send(Phase::AdjustingBrightness, Command::UpdateBrightness(true)),
        !up ==> forall|i: int|
            5 <= i < 5 + steps ==> #[trigger] script_spec(Operation::Brightness { up, steps })[i]
                == Exchange::Send(Phase::AdjustingBrightness, Command::UpdateBrightness(false)),
{
    let sc = script_spec(Operation::Brightness { up, steps });
    assert(sc.take(5) =~= handshake());
    assert(handshake() =~= seq![
        Exchange::Send(Phase::Pairing, Command::PairingInit),
        Exchange::Receive(Phase::Pairing, 2000i32, ReplyCheck::PairingSuccess),
        Exchange::Receive(Phase::Pairing, 1000i32, ReplyCheck::Ignore),
        Exchange::Send(Phase::Pairing, Command::GetProtocolVersion),
        Exchange::Receive(Phase::Pairing, 2000i32, ReplyCheck::ProtocolVersion),
    ]);
    lemma_command_bytes(0, 0, 0, 0);
}

// ---------------------------------------------------------------------------
// Laws of replies and sessions, in literal bytes
// ---------------------------------------------------------------------------

/// How replies answer a read: a read whose reply is ignored is answered by any reply
/// or by none; the pairing read only by a reply starting `04`; the version read only by
/// a reply starting `FE 04`; a write by its success.
pub proof fn lemma_reply_answers(p: Phase, t: i32, x: Option<[u8; PACKET_SIZE]>, b: [u8; PACKET_SIZE], c: Command)
    ensures
        answer(Exchange::Receive(p, t, ReplyCheck::Ignore), Outcome::Replied(x)) is None,
        answer(Exchange::Receive(p, t, ReplyCheck::PairingSuccess), Outcome::Replied(Some(b)))
            is None <==> b@[0] == 0x04u8,
        answer(Exchange::Receive(p, t, ReplyCheck::PairingSuccess), Outcome::Replied(None)) is Some,
        answer(Exchange::Receive(p, t, ReplyCheck::ProtocolVersion), Outcome::Replied(Some(b)))
            is None <==> (b@[0] == 0xFEu8 && b@[1] == 0x04u8),
        answer(Exchange::Receive(p, t, ReplyCheck::ProtocolVersion), Outcome::Replied(None)) is Some,
        answer(Exchange::Send(p, c), Outcome::Written) is None,
        answer(Exchange::Send(p, c), Outcome::WriteFailed) is Some,
        answer(Exchange::Receive(p, t, ReplyCheck::Ignore), Outcome::ReadFailed) is Some,
        b@[0] != 0x04u8 ==> answer(
            Exchange::Receive(p, t, ReplyCheck::PairingSuccess),
            Outcome::Replied(Some(b)),
        ) == Some(SessionError::PairingFailed(b@[0])),
        b@[0] != 0xFEu8 ==> answer(
            Exchange::Receive(p, t, ReplyCheck::ProtocolVersion),
            Outcome::Replied(Some(b)),
        ) == Some(SessionError::UnexpectedVersionResponse(b@[0])),
        b@[0] == 0xFEu8 && b@[1] != 0x04u8 ==> answer(
            Exchange::Receive(p, t, ReplyCheck::ProtocolVersion),
            Outcome::Replied(Some(b)),
        ) == Some(SessionError::UnsupportedProtocolVersion(b@[1])),
        answer(Exchange::Receive(p, t, ReplyCheck::PairingSuccess), Outcome::Replied(None)) == Some(
            SessionError::NoPairingResponse,
        ),
        answer(Exchange::Receive(p, t, ReplyCheck::ProtocolVersion), Outcome::Replied(None)) == Some(
            SessionError::NoVersionResponse,
        ),
{
}

proof fn lemma_answers_of_seven(sc: Seq<Exchange>, outs: Seq<Outcome>)
    requires
        sc.len() == 7,
        outs.len() == 7,
    ensures
        (forall|i: int| 0 <= i < 7 ==> #[trigger] answer(sc[i], outs[i]) is None) <==> (answer(
            sc[0],
            outs[0],
        ) is None && answer(sc[1], outs[1]) is None && answer(sc[2], outs[2]) is None && answer(
            sc[3],
            outs[3],
        ) is None && answer(sc[4], outs[4]) is None && answer(sc[5], outs[5]) is None && answer(
            sc[6],
            outs[6],
        ) is None),
{
}

/// A reset whose writes succeed completes exactly when the pairing reply starts `04`
/// and the version reply starts `FE 04`, whatever the two notices hold or whether they
/// come at all.
pub proof fn lemma_reset_session_completes(
    pairing: Option<[u8; PACKET_SIZE]>,
    layer: Option<[u8; PACKET_SIZE]>,
    version: Option<[u8; PACKET_SIZE]>,
    notice: Option<[u8; PACKET_SIZE]>,
)
    ensures
        is_complete(
            run(
                initial_state(Operation::Reset),
                seq![
                    Outcome::Written,
                    Outcome::Replied(pairing),
                    Outcome::Replied(layer),
                    Outcome::Written,
                    Outcome::Replied(version),
                    Outcome::Written,
                    Outcome::Replied(notice),
                ],
            ),
        ) <==> ((pairing matches Some(x) && x@[0] == 0x04u8) && (version matches Some(y) && y@[0]
            == 0xFEu8 && y@[1] == 0x04u8)),
{
    let outs = seq![
        Outcome::Written,
        Outcome::Replied(pairing),
        Outcome::Replied(layer),
        Outcome::Written,
        Outcome::Replied(version),
        Outcome::Written,
        Outcome::Replied(notice),
    ];
    lemma_complete_iff_every_step_answered(Operation::Reset, outs);
    lemma_reset_conversation();
    let sc = script_spec(Operation::Reset);
    lemma_answers_of_seven(sc, outs);
    assert(outs[1] == Outcome::Replied(pairing));
    assert(outs[2] == Outcome::Replied(layer));
    assert(outs[4] == Outcome::Replied(version));
    assert(outs[6] == Outcome::Replied(notice));
}

/// Setting every LED, when the writes succeed, completes exactly when the pairing reply
/// starts `04` and the version reply starts `FE 04`, whatever the notices hold; the
/// last frame written is then `00 09 r g b` followed by zeros.
pub proof fn lemma_set_color_session_completes(
    r: u8,
    g: u8,
    b: u8,
    pairing: Option<[u8; PACKET_SIZE]>,
    layer: Option<[u8; PACKET_SIZE]>,
    version: Option<[u8; PACKET_SIZE]>,
    notice: Option<[u8; PACKET_SIZE]>,
)
    ensures
        is_complete(
            run(
                initial_state(Operation::SetColor { r, g, b }),
                seq![
                    Outcome::Written,
                    Outcome::Replied(pairing),
                    Outcome::Replied(layer),
                    Outcome::Written,
                    Outcome::Replied(version),
                    Outcome::Written,
                    Outcome::Replied(notice),
                    Outcome::Written,
                ],
            ),
        ) <==> ((pairing matches Some(x) && x@[0] == 0x04u8) && (version matches Some(y) && y@[0]
            == 0xFEu8 && y@[1] == 0x04u8)),
        script_spec(Operation::SetColor { r, g, b })[7] matches Exchange::Send(_, c)
            && report_frame_spec(command_bytes(c)) == seq![0u8, 0x09u8, r, g, b] + Seq::new(
            28,
            |i: int| 0u8,
        ),
{
    let outs = seq![
        Outcome::Written,
        Outcome::Replied(pairing),
        Outcome::Replied(layer),
        Outcome::Written,
        Outcome::Replied(version),
        Outcome::Written,
        Outcome::Replied(notice),
        Outcome::Written,
    ];
    lemma_complete_iff_every_step_answered(Operation::SetColor { r, g, b }, outs);
    lemma_set_color_conversation(r, g, b);
    let sc = script_spec(Operation::SetColor { r, g, b });
    lemma_answers_of_seven(sc.take(7), outs.take(7));
    assert forall|i: int| 0 <= i < 7 implies #[trigger] answer(sc.take(7)[i], outs.take(7)[i])
        == answer(sc[i], outs[i]) by {}
    assert(outs[1] == Outcome::Replied(pairing));
    assert(outs[2] == Outcome::Replied(layer));
    assert(outs[4] == Outcome::Replied(version));
    assert(outs[6] == Outcome::Replied(notice));
    assert(outs[7] == Outcome::Written);
    if (pairing matches Some(x) && x@[0] == 0x04u8) && (version matches Some(y) && y@[0] == 0xFEu8
        && y@[1] == 0x04u8) {
        assert forall|i: int| 0 <= i < sc.len() implies #[trigger] answer(sc[i], outs[i]) is None by {
            if i < 7 {
                assert(answer(sc.take(7)[i], outs.take(7)[i]) is None);
            }
        }
    }
    lemma_command_bytes(0, r, g, b);
    lemma_frame_layout(seq![0x09u8, r, g, b]);
    assert(seq![0u8] + seq![0x09u8, r, g, b] + Seq::new(28, |i: int| 0u8) =~= seq![
        0u8,
        0x09u8,
        r,
        g,
        b,
    ] + Seq::new(28, |i: int| 0u8));
}

} // verus!
