use enclave::password_gate::{
    begin_check, prompt_texts, AuthCheck, CredentialBuffers, GateAction, LogonReply, PasswordGate,
    PresenceOutcome, ERROR_CANCELLED_CODE, ERROR_LOGON_FAILURE_CODE, ERROR_SUCCESS_CODE,
    MAX_ATTEMPTS,
};

#[test]
fn win32_codes_match_platform_definitions() {
    assert_eq!(ERROR_SUCCESS_CODE, 0);
    assert_eq!(ERROR_CANCELLED_CODE, 1223);
    assert_eq!(ERROR_LOGON_FAILURE_CODE, 1326);
}

#[test]
fn outcomes_carry_the_expected_shape() {
    let denied = PresenceOutcome::Denied("cancelled".into());
    let unavailable = PresenceOutcome::Unavailable("headless".into());
    assert!(matches!(denied, PresenceOutcome::Denied(_)));
    assert!(matches!(unavailable, PresenceOutcome::Unavailable(_)));
    assert!(matches!(
        PresenceOutcome::Verified,
        PresenceOutcome::Verified
    ));
}

/// Plays rounds until there is an outcome; gives it with the errors shown.
fn play(rounds: Vec<(u32, AuthCheck)>) -> (Option<PresenceOutcome>, Vec<u32>) {
    let (mut gate, mut action) = PasswordGate::start();
    let mut shown = vec![];
    for (code, check) in rounds {
        match action {
            GateAction::Prompt { auth_error } => shown.push(auth_error),
            GateAction::Finish(outcome) => return (Some(outcome), shown),
            GateAction::VerifyBuffer => unreachable!(),
        }
        action = gate.on_prompt(code);
        if action == GateAction::VerifyBuffer {
            action = gate.on_check(check);
        }
    }
    match action {
        GateAction::Finish(outcome) => (Some(outcome), shown),
        _ => (None, shown),
    }
}

#[test]
fn right_password_verifies_at_once() {
    let (outcome, shown) = play(vec![(0, AuthCheck::Verified)]);
    assert_eq!(outcome, Some(PresenceOutcome::Verified));
    assert_eq!(shown, vec![0]);
}

#[test]
fn wrong_passwords_are_retried_with_a_hint() {
    let (outcome, shown) = play(vec![
        (0, AuthCheck::WrongPassword),
        (0, AuthCheck::WrongPassword),
        (0, AuthCheck::Verified),
    ]);
    assert_eq!(outcome, Some(PresenceOutcome::Verified));
    assert_eq!(shown, vec![0, 1326, 1326]);
    let (open, _) = play(vec![(0, AuthCheck::WrongPassword), (0, AuthCheck::WrongPassword)]);
    assert_eq!(open, None);
}

#[test]
fn three_wrong_passwords_are_denied() {
    assert_eq!(MAX_ATTEMPTS, 3);
    let (outcome, shown) = play(vec![
        (0, AuthCheck::WrongPassword),
        (0, AuthCheck::WrongPassword),
        (0, AuthCheck::WrongPassword),
    ]);
    assert_eq!(
        outcome,
        Some(PresenceOutcome::Denied("Windows password could not be verified".into()))
    );
    assert_eq!(shown.len(), 3);
}

#[test]
fn cancelling_is_a_denial() {
    let (outcome, _) = play(vec![
        (0, AuthCheck::WrongPassword),
        (1223, AuthCheck::Verified),
    ]);
    assert_eq!(
        outcome,
        Some(PresenceOutcome::Denied("user cancelled the password prompt".into()))
    );
}

#[test]
fn failing_dialog_makes_the_check_unavailable() {
    for (code, digits) in [(5_u32, "00000005"), (0x8007_0005, "80070005"), (0xABCD_EF01, "ABCDEF01")]
    {
        let (outcome, _) = play(vec![(code, AuthCheck::Verified)]);
        assert_eq!(
            outcome,
            Some(PresenceOutcome::Unavailable(format!(
                "CredUIPromptForWindowsCredentialsW failed (0x{digits})"
            )))
        );
    }
}

#[test]
fn unavailable_check_ends_without_a_denial() {
    let (outcome, _) = play(vec![(0, AuthCheck::Unavailable("no way to tell".into()))]);
    assert_eq!(outcome, Some(PresenceOutcome::Unavailable("no way to tell".into())));
}

#[test]
fn credentials_have_to_be_there() {
    let empty = Err(AuthCheck::Unavailable("empty credential buffer".into()));
    assert_eq!(begin_check(false, 10), empty);
    assert_eq!(begin_check(true, 0), empty);
    assert_eq!(begin_check(true, 1), Ok(()));
}

#[test]
fn buffers_have_the_sizes_asked_for() {
    let not_sized = || AuthCheck::Unavailable("could not size unpacked credentials".into());
    assert_eq!(CredentialBuffers::allocate(0, 4, 4).err(), Some(not_sized()));
    assert_eq!(CredentialBuffers::allocate(4, 4, 0).err(), Some(not_sized()));
    let mut buffers = CredentialBuffers::allocate(3, 0, 5).ok().unwrap();
    assert_eq!(buffers.user(), [0_u16; 3].as_ref());
    assert_eq!(buffers.domain(), [0_u16; 1].as_ref());
    assert_eq!(buffers.password(), [0_u16; 5].as_ref());
    let mut domain = CredentialBuffers::allocate(1, 7, 1).ok().unwrap();
    assert_eq!(domain.domain().len(), 7);
}

#[test]
fn empty_domain_is_left_out_of_the_logon() {
    let mut buffers = CredentialBuffers::allocate(3, 2, 5).ok().unwrap();
    assert_eq!(buffers.on_unpacked(true, 2), Ok(false));
    buffers.domain()[0] = 68;
    assert_eq!(buffers.on_unpacked(true, 2), Ok(true));
    assert_eq!(buffers.on_unpacked(true, 1), Ok(false));
    assert_eq!(buffers.domain()[0], 68);
}

#[test]
fn failed_unpacking_scrubs_the_buffers() {
    let mut buffers = CredentialBuffers::allocate(3, 2, 5).ok().unwrap();
    buffers.password().copy_from_slice(&[1, 2, 3, 4, 5]);
    assert_eq!(
        buffers.on_unpacked(false, 2),
        Err(AuthCheck::Unavailable("could not unpack credentials".into()))
    );
    assert_eq!(buffers.user(), [0_u16; 3].as_ref());
    assert_eq!(buffers.domain(), [0_u16; 2].as_ref());
    assert_eq!(buffers.password(), [0_u16; 5].as_ref());
}

#[test]
fn scrubbing_overwrites_every_unit() {
    let mut buffers = CredentialBuffers::allocate(2, 3, 4).ok().unwrap();
    buffers.user().copy_from_slice(&[1, 2]);
    buffers.domain().copy_from_slice(&[3, 4, 5]);
    buffers.password().copy_from_slice(&[6, 7, 8, 9]);
    buffers.scrub();
    assert_eq!(buffers.user(), [0_u16; 2].as_ref());
    assert_eq!(buffers.domain(), [0_u16; 3].as_ref());
    assert_eq!(buffers.password(), [0_u16; 4].as_ref());
}

#[test]
fn logon_is_classified_and_scrubs_the_buffers() {
    let cases = vec![
        (LogonReply::Accepted, AuthCheck::Verified),
        (
            LogonReply::Refused { code: 0x8007_052E, text: "wrong".into() },
            AuthCheck::WrongPassword,
        ),
        (LogonReply::Refused { code: 1326, text: "wrong".into() }, AuthCheck::WrongPassword),
        (
            LogonReply::Refused { code: 0x8007_0569, text: "not granted".into() },
            AuthCheck::Unavailable(
                "LogonUserW could not validate the account: not granted".into(),
            ),
        ),
    ];
    for (reply, expected) in cases {
        let mut buffers = CredentialBuffers::allocate(2, 2, 2).ok().unwrap();
        buffers.user().copy_from_slice(&[7, 8]);
        buffers.domain().copy_from_slice(&[9, 10]);
        buffers.password().copy_from_slice(&[11, 12]);
        assert_eq!(buffers.on_logon(reply), expected);
        assert_eq!(buffers.user(), [0_u16; 2].as_ref());
        assert_eq!(buffers.domain(), [0_u16; 2].as_ref());
        assert_eq!(buffers.password(), [0_u16; 2].as_ref());
    }
}

#[test]
fn dialog_texts_end_with_a_zero() {
    let (message, caption) = prompt_texts("Unlock 🔑 é");
    let expected: Vec<u16> = "Unlock 🔑 é\0".encode_utf16().collect();
    assert_eq!(message, expected);
    let expected: Vec<u16> = "gocode-dev\0".encode_utf16().collect();
    assert_eq!(caption, expected);
}
