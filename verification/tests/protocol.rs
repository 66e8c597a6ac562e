use voyager_disco::protocol::{
    check_reply, key_color_operation, phase_context, report_frame, script, Action, Command, Exchange, Failure,
    Operation, OperationError, Outcome, Phase, ReplyCheck, Session, SessionError, PACKET_SIZE,
};

fn reply(bytes: &[u8]) -> Option<[u8; PACKET_SIZE]> {
    let mut b = [0u8; PACKET_SIZE];
    b[..bytes.len()].copy_from_slice(bytes);
    Some(b)
}

fn frame(payload: &[u8]) -> Vec<u8> {
    let mut f = vec![0u8; PACKET_SIZE + 1];
    f[1..1 + payload.len()].copy_from_slice(payload);
    f
}

/// Runs a session, answering each write with success and each read with the next of
/// `replies`; returns the frames written and the final action.
fn drive(op: Operation, replies: &[Option<[u8; PACKET_SIZE]>]) -> (Vec<Vec<u8>>, Action) {
    let mut session = Session::new(&op);
    let mut written = Vec::new();
    let mut next_reply = 0;
    loop {
        match session.action() {
            Action::Write(f) => {
                written.push(f);
                session.handle(Outcome::Written);
            }
            Action::Read(_) => {
                let r = replies[next_reply];
                next_reply += 1;
                session.handle(Outcome::Replied(r));
            }
            done => return (written, done),
        }
    }
}

fn good_pairing() -> Vec<Option<[u8; PACKET_SIZE]>> {
    vec![reply(&[0x04, 0xFE]), reply(&[0x05, 0x00, 0xFE]), reply(&[0xFE, 0x04])]
}

#[test]
fn frame_is_report_id_then_zero_padded_packet() {
    let f = report_frame(&[0x09, 1, 2, 3]);
    assert_eq!(f.len(), 33);
    assert_eq!(f[0], 0);
    assert_eq!(&f[1..5], &[0x09, 1, 2, 3]);
    assert!(f[5..].iter().all(|&b| b == 0));
}

#[test]
fn frame_truncates_long_data() {
    let data: Vec<u8> = (1..=40).collect();
    let f = report_frame(&data);
    assert_eq!(f.len(), 33);
    assert_eq!(&f[1..], &data[..32]);
}

#[test]
fn command_payloads() {
    assert_eq!(Command::PairingInit.payload(), vec![0x01]);
    assert_eq!(Command::GetProtocolVersion.payload(), vec![0xFE]);
    assert_eq!(Command::RgbControl(true).payload(), vec![0x05, 0x01]);
    assert_eq!(Command::RgbControl(false).payload(), vec![0x05, 0x00]);
    assert_eq!(Command::SetRgbLedAll(1, 2, 3).payload(), vec![0x09, 1, 2, 3]);
    assert_eq!(Command::SetRgbLed(7, 1, 2, 3).payload(), vec![0x06, 7, 1, 2, 3]);
    assert_eq!(Command::UpdateBrightness(true).payload(), vec![0x08, 0x01]);
    assert_eq!(Command::UpdateBrightness(false).payload(), vec![0x08, 0x00]);
}

#[test]
fn set_color_script_follows_the_readme_sequence() {
    let s = script(&Operation::SetColor { r: 0xff, g: 0x00, b: 0xaa });
    assert_eq!(
        s,
        vec![
            Exchange::Send(Phase::Pairing, Command::PairingInit),
            Exchange::Receive(Phase::Pairing, 2000, ReplyCheck::PairingSuccess),
            Exchange::Receive(Phase::Pairing, 1000, ReplyCheck::Ignore),
            Exchange::Send(Phase::Pairing, Command::GetProtocolVersion),
            Exchange::Receive(Phase::Pairing, 2000, ReplyCheck::ProtocolVersion),
            Exchange::Send(Phase::EnablingRgb, Command::RgbControl(true)),
            Exchange::Receive(Phase::EnablingRgb, 1000, ReplyCheck::Ignore),
            Exchange::Send(Phase::SettingColor, Command::SetRgbLedAll(0xff, 0x00, 0xaa)),
        ]
    );
}

#[test]
fn reset_and_brightness_scripts() {
    let reset = script(&Operation::Reset);
    assert_eq!(reset.len(), 7);
    assert_eq!(reset[5], Exchange::Send(Phase::Resetting, Command::RgbControl(false)));
    assert_eq!(reset[6], Exchange::Receive(Phase::Resetting, 1000, ReplyCheck::Ignore));
    let up = script(&Operation::Brightness { up: true, steps: 3 });
    assert_eq!(up.len(), 8);
    assert!(up[5..]
        .iter()
        .all(|e| *e == Exchange::Send(Phase::AdjustingBrightness, Command::UpdateBrightness(true))));
    assert_eq!(script(&Operation::Brightness { up: false, steps: 0 }).len(), 5);
}

#[test]
fn key_index_is_checked() {
    assert_eq!(
        key_color_operation(51, 1, 2, 3),
        Ok(Operation::SetKeyColor { index: 51, r: 1, g: 2, b: 3 })
    );
    assert_eq!(key_color_operation(52, 1, 2, 3), Err(OperationError::KeyIndexOutOfRange(52)));
}

#[test]
fn replies_are_checked() {
    assert_eq!(check_reply(ReplyCheck::Ignore, &None), None);
    assert_eq!(check_reply(ReplyCheck::PairingSuccess, &reply(&[0x04])), None);
    assert_eq!(
        check_reply(ReplyCheck::PairingSuccess, &None),
        Some(SessionError::NoPairingResponse)
    );
    assert_eq!(
        check_reply(ReplyCheck::PairingSuccess, &reply(&[0x03])),
        Some(SessionError::PairingFailed(0x03))
    );
    assert_eq!(check_reply(ReplyCheck::ProtocolVersion, &reply(&[0xFE, 0x04])), None);
    assert_eq!(
        check_reply(ReplyCheck::ProtocolVersion, &None),
        Some(SessionError::NoVersionResponse)
    );
    assert_eq!(
        check_reply(ReplyCheck::ProtocolVersion, &reply(&[0xFF, 0x04])),
        Some(SessionError::UnexpectedVersionResponse(0xFF))
    );
    assert_eq!(
        check_reply(ReplyCheck::ProtocolVersion, &reply(&[0xFE, 0x03])),
        Some(SessionError::UnsupportedProtocolVersion(0x03))
    );
}

#[test]
fn set_color_session_completes() {
    let mut replies = good_pairing();
    replies.push(reply(&[0x08, 0x01]));
    let (written, last) = drive(Operation::SetColor { r: 1, g: 2, b: 3 }, &replies);
    assert!(matches!(last, Action::Done));
    assert_eq!(
        written,
        vec![frame(&[0x01]), frame(&[0xFE]), frame(&[0x05, 0x01]), frame(&[0x09, 1, 2, 3])]
    );
}

#[test]
fn notices_may_be_missing() {
    let replies = vec![reply(&[0x04]), None, reply(&[0xFE, 0x04]), None];
    let (written, last) = drive(Operation::SetColor { r: 1, g: 2, b: 3 }, &replies);
    assert!(matches!(last, Action::Done));
    assert_eq!(written.len(), 4);
}

#[test]
fn reset_session_completes() {
    let mut replies = good_pairing();
    replies.push(None);
    let (written, last) = drive(Operation::Reset, &replies);
    assert!(matches!(last, Action::Done));
    assert_eq!(written, vec![frame(&[0x01]), frame(&[0xFE]), frame(&[0x05, 0x00])]);
}

#[test]
fn key_and_brightness_sessions_complete() {
    let mut replies = good_pairing();
    replies.push(None);
    let (written, last) = drive(Operation::SetKeyColor { index: 4, r: 9, g: 8, b: 7 }, &replies);
    assert!(matches!(last, Action::Done));
    assert_eq!(written[3], frame(&[0x06, 4, 9, 8, 7]));
    let (written, last) = drive(Operation::Brightness { up: false, steps: 2 }, &good_pairing());
    assert!(matches!(last, Action::Done));
    assert_eq!(&written[2..], &[frame(&[0x08, 0x00]), frame(&[0x08, 0x00])]);
}

#[test]
fn pairing_without_reply_fails() {
    let (written, last) = drive(Operation::Reset, &[None]);
    assert_eq!(written, vec![frame(&[0x01])]);
    match last {
        Action::Failed(f) => assert_eq!(
            f,
            Failure { phase: Phase::Pairing, error: SessionError::NoPairingResponse }
        ),
        _ => panic!("session did not fail"),
    }
}

#[test]
fn pairing_refused_fails_before_any_colour() {
    let (written, last) = drive(Operation::SetColor { r: 1, g: 2, b: 3 }, &[reply(&[0x03])]);
    assert_eq!(written, vec![frame(&[0x01])]);
    assert!(matches!(
        last,
        Action::Failed(Failure { phase: Phase::Pairing, error: SessionError::PairingFailed(3) })
    ));
}

#[test]
fn unsupported_version_fails() {
    let replies = vec![reply(&[0x04]), None, reply(&[0xFE, 0x05])];
    let (written, last) = drive(Operation::SetColor { r: 1, g: 2, b: 3 }, &replies);
    assert_eq!(written.len(), 2);
    assert!(matches!(
        last,
        Action::Failed(Failure {
            phase: Phase::Pairing,
            error: SessionError::UnsupportedProtocolVersion(5)
        })
    ));
}

#[test]
fn io_failures_are_reported_with_their_phase() {
    let mut s = Session::new(&Operation::SetColor { r: 1, g: 2, b: 3 });
    s.handle(Outcome::WriteFailed);
    assert!(matches!(
        s.action(),
        Action::Failed(Failure { phase: Phase::Pairing, error: SessionError::WriteFailed })
    ));
    // A failed session stays failed.
    s.handle(Outcome::Written);
    assert!(matches!(s.action(), Action::Failed(_)));

    let mut s = Session::new(&Operation::Reset);
    for r in good_pairing() {
        if let Action::Write(_) = s.action() {
            s.handle(Outcome::Written);
        }
        s.handle(Outcome::Replied(r));
    }
    s.handle(Outcome::Written);
    assert!(matches!(s.action(), Action::Read(1000)));
    s.handle(Outcome::ReadFailed);
    assert!(matches!(
        s.action(),
        Action::Failed(Failure { phase: Phase::Resetting, error: SessionError::ReadFailed })
    ));
}

#[test]
fn outcome_out_of_order_fails() {
    let mut s = Session::new(&Operation::Reset);
    s.handle(Outcome::Replied(None));
    assert!(matches!(
        s.action(),
        Action::Failed(Failure { phase: Phase::Pairing, error: SessionError::OutOfOrder })
    ));
}

#[test]
fn completed_session_ignores_further_outcomes() {
    let mut s = Session::new(&Operation::Brightness { up: true, steps: 0 });
    for r in good_pairing() {
        if let Action::Write(_) = s.action() {
            s.handle(Outcome::Written);
        }
        s.handle(Outcome::Replied(r));
    }
    assert!(matches!(s.action(), Action::Done));
    s.handle(Outcome::WriteFailed);
    assert!(matches!(s.action(), Action::Done));
}

#[test]
fn session_error_messages() {
    assert_eq!(SessionError::NoPairingResponse.message(), "No response to pairing request");
    assert_eq!(SessionError::PairingFailed(0x03).message(), "Pairing failed: response code 0x03");
    assert_eq!(
        SessionError::NoVersionResponse.message(),
        "No response to protocol version request"
    );
    assert_eq!(
        SessionError::UnexpectedVersionResponse(0xff).message(),
        "Unexpected response to protocol version request: 0xff"
    );
    assert_eq!(
        SessionError::UnsupportedProtocolVersion(0x05).message(),
        "Unsupported Oryx protocol version 0x05 (expected 0x04)"
    );
    assert_eq!(SessionError::WriteFailed.message(), "Failed to write to device");
    assert_eq!(SessionError::ReadFailed.message(), "Failed to read from device");
}

#[test]
fn key_index_message_in_decimal() {
    assert_eq!(OperationError::KeyIndexOutOfRange(52).message(), "Key index must be 0-51, got 52");
    assert_eq!(OperationError::KeyIndexOutOfRange(255).message(), "Key index must be 0-51, got 255");
    assert_eq!(OperationError::KeyIndexOutOfRange(7).message(), "Key index must be 0-51, got 7");
    assert_eq!(OperationError::KeyIndexOutOfRange(100).message(), "Key index must be 0-51, got 100");
}

#[test]
fn phase_contexts_name_the_keyboard() {
    let label = "Voyager [ABC]";
    assert_eq!(phase_context(Phase::Pairing, label), "Pairing with Voyager [ABC]");
    assert_eq!(phase_context(Phase::EnablingRgb, label), "Enabling RGB on Voyager [ABC]");
    assert_eq!(phase_context(Phase::SettingColor, label), "Setting color on Voyager [ABC]");
    assert_eq!(phase_context(Phase::Resetting, label), "Resetting Voyager [ABC]");
    assert_eq!(
        phase_context(Phase::AdjustingBrightness, label),
        "Adjusting brightness on Voyager [ABC]"
    );
}
