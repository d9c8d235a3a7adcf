//! Windows account-password soft gate.
//!
//! A user-presence check for hosts without Windows Hello: the current user is
//! asked for the account password, and a network logon validates it. This module
//! decides; the program around it shows the dialog, unpacks the credentials and
//! performs the logon.
//!
//! - [`PresenceOutcome::Verified`]: the user proved presence; proceed.
//! - [`PresenceOutcome::Denied`]: the user cancelled or ran out of attempts;
//!   access is denied.
//! - [`PresenceOutcome::Unavailable`]: no prompt could be shown or the account
//!   cannot be validated this way; the caller goes on without a prompt.

use crate::outside::zeroize_units;
use crate::text::{concat, concat3, hex8, hex8_exec};
use crate::utf16::{utf16_encode, wide_null};
use vstd::prelude::*;

verus! {

/// The user submitted credentials.
pub const ERROR_SUCCESS_CODE: u32 = 0;

/// The user dismissed the dialog.
pub const ERROR_CANCELLED_CODE: u32 = 1223;

/// The password is wrong. Handed back to the dialog, it makes the next prompt say
/// so.
pub const ERROR_LOGON_FAILURE_CODE: u32 = 1326;

/// How many times the user is asked before access is denied.
pub const MAX_ATTEMPTS: u32 = 3;

/// The caption of the dialog.
pub const CAPTION: &'static str = "gocode-dev";

/// Why a cancelled prompt is denied.
pub const CANCELLED: &'static str = "user cancelled the password prompt";

/// Why too many wrong passwords are denied.
pub const NOT_VERIFIED: &'static str = "Windows password could not be verified";

/// Why a prompt without credentials cannot be used.
pub const EMPTY_BUFFER: &'static str = "empty credential buffer";

/// Why credentials of unknown size cannot be used.
pub const NOT_SIZED: &'static str = "could not size unpacked credentials";

/// Why credentials that do not unpack cannot be used.
pub const NOT_UNPACKED: &'static str = "could not unpack credentials";

/// Result of a password presence check.
#[derive(Debug, PartialEq, Eq)]
pub enum PresenceOutcome {
    /// The user proved presence with the right password.
    Verified,
    /// The user declined or failed verification. Treat as access denied.
    Denied(String),
    /// No prompt could be shown, or the account cannot be validated this way.
    Unavailable(String),
}

/// What one unpack and logon attempt showed.
#[derive(Debug, PartialEq, Eq)]
pub enum AuthCheck {
    Verified,
    WrongPassword,
    Unavailable(String),
}

/// What is to be done next.
#[derive(Debug, PartialEq, Eq)]
pub enum GateAction {
    /// Show the dialog, with the error of the last attempt.
    Prompt { auth_error: u32 },
    /// Check the credentials that the user submitted.
    VerifyBuffer,
    /// The check is over.
    Finish(PresenceOutcome),
}

/// The contents of a [`PresenceOutcome`].
pub enum OutcomeView {
    Verified,
    Denied(Seq<char>),
    Unavailable(Seq<char>),
}

/// The contents of an [`AuthCheck`].
pub enum CheckView {
    Verified,
    WrongPassword,
    Unavailable(Seq<char>),
}

/// The contents of a [`GateAction`].
pub enum ActionView {
    Prompt(u32),
    VerifyBuffer,
    Finish(OutcomeView),
}

impl View for PresenceOutcome {
    type V = OutcomeView;

    open spec fn view(&self) -> OutcomeView {
        match self {
            PresenceOutcome::Verified => OutcomeView::Verified,
            PresenceOutcome::Denied(why) => OutcomeView::Denied(why@),
            PresenceOutcome::Unavailable(why) => OutcomeView::Unavailable(why@),
        }
    }
}

impl View for AuthCheck {
    type V = CheckView;

    open spec fn view(&self) -> CheckView {
        match self {
            AuthCheck::Verified => CheckView::Verified,
            AuthCheck::WrongPassword => CheckView::WrongPassword,
            AuthCheck::Unavailable(why) => CheckView::Unavailable(why@),
        }
    }
}

impl View for GateAction {
    type V = ActionView;

    open spec fn view(&self) -> ActionView {
        match self {
            GateAction::Prompt { auth_error } => ActionView::Prompt(*auth_error),
            GateAction::VerifyBuffer => ActionView::VerifyBuffer,
            GateAction::Finish(outcome) => ActionView::Finish(outcome@),
        }
    }
}

/// What a dialog that failed is reported as.
pub open spec fn prompt_failure(code: u32) -> Seq<char> {
    "CredUIPromptForWindowsCredentialsW failed (0x"@ + hex8(code) + ")"@
}

/// What is to be done after the dialog returned this code.
pub open spec fn after_prompt(code: u32) -> ActionView {
    if code == ERROR_SUCCESS_CODE {
        ActionView::VerifyBuffer
    } else if code == ERROR_CANCELLED_CODE {
        ActionView::Finish(OutcomeView::Denied(CANCELLED@))
    } else {
        ActionView::Finish(OutcomeView::Unavailable(prompt_failure(code)))
    }
}

/// What is to be done after so many prompts, the last of which was checked
/// with this result.
pub open spec fn after_check(attempts: nat, check: CheckView) -> ActionView {
    match check {
        CheckView::Verified => ActionView::Finish(OutcomeView::Verified),
        CheckView::WrongPassword => if attempts >= MAX_ATTEMPTS {
            ActionView::Finish(OutcomeView::Denied(NOT_VERIFIED@))
        } else {
            ActionView::Prompt(ERROR_LOGON_FAILURE_CODE)
        },
        CheckView::Unavailable(why) => ActionView::Finish(OutcomeView::Unavailable(why)),
    }
}

/// The texts that the dialog shows: the reason and the caption, as the system
/// takes them.
pub fn prompt_texts(reason: &str) -> (texts: (Vec<u16>, Vec<u16>))
    ensures
        texts.0@ == utf16_encode(reason@).push(0),
        texts.1@ == utf16_encode(CAPTION@).push(0),
{
    (wide_null(reason), wide_null(CAPTION))
}

/// A password check in progress: how often the user was asked.
pub struct PasswordGate {
    attempts: u32,
}

impl View for PasswordGate {
    type V = nat;

    closed spec fn view(&self) -> nat {
        self.attempts as nat
    }
}

impl PasswordGate {
    /// Begins a check; the user is asked first, with no error to show.
    pub fn start() -> (begun: (Self, GateAction))
        ensures
            begun.0@ == 0,
            begun.1@ == ActionView::Prompt(0),
    {
        (PasswordGate { attempts: 0 }, GateAction::Prompt { auth_error: 0 })
    }

    /// Takes the code that the dialog returned.
    pub fn on_prompt(&mut self, code: u32) -> (action: GateAction)
        requires
            old(self)@ < MAX_ATTEMPTS,
        ensures
            final(self)@ == old(self)@ + 1,
            action@ == after_prompt(code),
    {
        self.attempts += 1;
        if code == ERROR_SUCCESS_CODE {
            GateAction::VerifyBuffer
        } else if code == ERROR_CANCELLED_CODE {
            GateAction::Finish(PresenceOutcome::Denied(CANCELLED.to_owned()))
        } else {
            let digits: String = hex8_exec(code);
            GateAction::Finish(
                PresenceOutcome::Unavailable(
                    concat3(
                        "CredUIPromptForWindowsCredentialsW failed (0x",
                        digits.as_str(),
                        ")",
                    ),
                ),
            )
        }
    }

    /// Takes what checking the submitted credentials showed.
    pub fn on_check(&self, check: AuthCheck) -> (action: GateAction)
        ensures
            action@ == after_check(self@, check@),
    {
        match check {
            AuthCheck::Verified => GateAction::Finish(PresenceOutcome::Verified),
            AuthCheck::WrongPassword => if self.attempts >= MAX_ATTEMPTS {
                GateAction::Finish(PresenceOutcome::Denied(NOT_VERIFIED.to_owned()))
            } else {
                GateAction::Prompt { auth_error: ERROR_LOGON_FAILURE_CODE }
            },
            AuthCheck::Unavailable(why) => GateAction::Finish(PresenceOutcome::Unavailable(why)),
        }
    }
}

/// Why submitted credentials cannot be checked at all: there are none.
pub open spec fn empty_refusal(present: bool, size: u32) -> Option<CheckView> {
    if !present || size == 0 {
        Some(CheckView::Unavailable(EMPTY_BUFFER@))
    } else {
        None
    }
}

/// Why credentials of these lengths cannot be checked: user or password is empty.
pub open spec fn sizing_refusal(user_len: u32, pass_len: u32) -> Option<CheckView> {
    if user_len == 0 || pass_len == 0 {
        Some(CheckView::Unavailable(NOT_SIZED@))
    } else {
        None
    }
}

/// Why credentials that were to be unpacked cannot be checked: that failed.
pub open spec fn unpacking_refusal(unpacked: bool) -> Option<CheckView> {
    if !unpacked {
        Some(CheckView::Unavailable(NOT_UNPACKED@))
    } else {
        None
    }
}

/// Begins to check submitted credentials: there have to be some.
pub fn begin_check(present: bool, size: u32) -> (res: Result<(), AuthCheck>)
    ensures
        res is Ok <==> empty_refusal(present, size) is None,
        res matches Err(check) ==> empty_refusal(present, size) == Some(check@),
{
    if !present || size == 0 {
        Err(AuthCheck::Unavailable(EMPTY_BUFFER.to_owned()))
    } else {
        Ok(())
    }
}

/// What a [`CredentialBuffers`] holds.
pub struct BuffersView {
    pub user: Seq<u16>,
    pub domain: Seq<u16>,
    pub password: Seq<u16>,
}

/// `len` zero code units.
pub open spec fn zero_units(len: nat) -> Seq<u16> {
    Seq::new(len, |i: int| 0u16)
}

/// The buffers with every code unit overwritten by zero.
pub open spec fn scrubbed(buffers: BuffersView) -> BuffersView {
    BuffersView {
        user: zero_units(buffers.user.len()),
        domain: zero_units(buffers.domain.len()),
        password: zero_units(buffers.password.len()),
    }
}

/// Buffers for unpacked credentials, in UTF-16.
pub struct CredentialBuffers {
    user: Vec<u16>,
    domain: Vec<u16>,
    password: Vec<u16>,
}

impl View for CredentialBuffers {
    type V = BuffersView;

    closed spec fn view(&self) -> BuffersView {
        BuffersView { user: self.user@, domain: self.domain@, password: self.password@ }
    }
}

/// How a logon ended: well, or with the system's code and text of an error.
#[derive(Debug)]
pub enum LogonReply {
    Accepted,
    Refused { code: u32, text: String },
}

/// The contents of a [`LogonReply`].
pub enum ReplyView {
    Accepted,
    Refused(u32, Seq<char>),
}

impl View for LogonReply {
    type V = ReplyView;

    open spec fn view(&self) -> ReplyView {
        match self {
            LogonReply::Accepted => ReplyView::Accepted,
            LogonReply::Refused { code, text } => ReplyView::Refused(*code, text@),
        }
    }
}

/// What a logon shows: a wrong password can be tried again, and an account that
/// cannot be validated this way does not lock the user out. The system's code
/// stands in the low sixteen bits.
pub open spec fn logon_check(reply: ReplyView) -> CheckView {
    match reply {
        ReplyView::Accepted => CheckView::Verified,
        ReplyView::Refused(code, text) => if code % 0x1_0000 == ERROR_LOGON_FAILURE_CODE {
            CheckView::WrongPassword
        } else {
            CheckView::Unavailable("LogonUserW could not validate the account: "@ + text)
        },
    }
}

impl CredentialBuffers {
    /// Makes room for credentials of the given lengths. User and password must
    /// not be empty; the domain has room for a zero at least.
    pub fn allocate(user_len: u32, domain_len: u32, pass_len: u32) -> (res: Result<Self, AuthCheck>)
        requires
            sizing_refusal(user_len, pass_len) is None ==> {
                &&& 2 * user_len <= isize::MAX
                &&& 2 * domain_len <= isize::MAX
                &&& 2 * pass_len <= isize::MAX
            },
        ensures
            res is Ok <==> sizing_refusal(user_len, pass_len) is None,
            res matches Ok(buffers) ==> buffers@ == (BuffersView {
                user: zero_units(user_len as nat),
                domain: zero_units(if domain_len == 0 { 1 } else { domain_len as nat }),
                password: zero_units(pass_len as nat),
            }),
            res matches Err(check) ==> sizing_refusal(user_len, pass_len) == Some(check@),
    {
        if user_len == 0 || pass_len == 0 {
            return Err(AuthCheck::Unavailable(NOT_SIZED.to_owned()));
        }
        let domain_room: usize = if domain_len == 0 {
            1
        } else {
            domain_len as usize
        };
        let user: Vec<u16> = vec![0u16; user_len as usize];
        let domain: Vec<u16> = vec![0u16; domain_room];
        let password: Vec<u16> = vec![0u16; pass_len as usize];
        assert(user@ =~= zero_units(user_len as nat));
        assert(domain@ =~= zero_units(domain_room as nat));
        assert(password@ =~= zero_units(pass_len as nat));
        Ok(CredentialBuffers { user, domain, password })
    }

    /// The user name for writing.
    pub fn user(&mut self) -> (units: &mut [u16])
        ensures
            units@ == old(self)@.user,
            final(self)@ == (BuffersView { user: final(units)@, ..old(self)@ }),
    {
        self.user.as_mut_slice()
    }

    /// The domain for writing.
    pub fn domain(&mut self) -> (units: &mut [u16])
        ensures
            units@ == old(self)@.domain,
            final(self)@ == (BuffersView { domain: final(units)@, ..old(self)@ }),
    {
        self.domain.as_mut_slice()
    }

    /// The password for writing.
    pub fn password(&mut self) -> (units: &mut [u16])
        ensures
            units@ == old(self)@.password,
            final(self)@ == (BuffersView { password: final(units)@, ..old(self)@ }),
    {
        self.password.as_mut_slice()
    }

    /// Overwrites the credentials with zeros.
    pub fn scrub(&mut self)
        ensures
            final(self)@ == scrubbed(old(self)@),
    {
        zeroize_units(&mut self.user);
        zeroize_units(&mut self.domain);
        zeroize_units(&mut self.password);
    }

    /// Takes whether unpacking succeeded and how long the domain is now, and
    /// tells whether the logon names the domain: a user name of the form
    /// `user@domain` comes with an empty one, which is left out. Where unpacking
    /// failed the buffers are scrubbed.
    pub fn on_unpacked(&mut self, unpacked: bool, domain_len: u32) -> (res: Result<bool, AuthCheck>)
        requires
            old(self)@.domain.len() > 0,
        ensures
            res is Ok <==> unpacking_refusal(unpacked) is None,
            res matches Ok(with_domain) ==> {
                &&& with_domain == (domain_len > 1 && old(self)@.domain[0] != 0)
                &&& final(self)@ == old(self)@
            },
            res matches Err(check) ==> {
                &&& unpacking_refusal(unpacked) == Some(check@)
                &&& final(self)@ == scrubbed(old(self)@)
            },
    {
        if !unpacked {
            self.scrub();
            return Err(AuthCheck::Unavailable(NOT_UNPACKED.to_owned()));
        }
        Ok(domain_len > 1 && self.domain[0] != 0)
    }

    /// Takes how the logon ended; the credentials are scrubbed first.
    pub fn on_logon(&mut self, reply: LogonReply) -> (check: AuthCheck)
        ensures
            check@ == logon_check(reply@),
            final(self)@ == scrubbed(old(self)@),
    {
        self.scrub();
        match reply {
            LogonReply::Accepted => AuthCheck::Verified,
            LogonReply::Refused { code, text } => {
                assert(code & 0xffff == code % 0x1_0000) by (bit_vector);
                if code & 0xffff == ERROR_LOGON_FAILURE_CODE {
                    AuthCheck::WrongPassword
                } else {
                    AuthCheck::Unavailable(
                        concat("LogonUserW could not validate the account: ", text.as_str()),
                    )
                }
            },
        }
    }
}

/// One round: the code that the dialog returned, and what checking
/// the credentials showed where there were any.
pub struct Round {
    pub code: u32,
    pub check: CheckView,
}

/// The outcome of these rounds, begun after so many prompts; nothing where the
/// user is to be asked again.
pub open spec fn run_from(attempts: nat, rounds: Seq<Round>) -> Option<OutcomeView>
    decreases rounds.len(),
{
    if rounds.len() == 0 {
        None
    } else {
        match after_prompt(rounds[0].code) {
            ActionView::Finish(outcome) => Some(outcome),
            _ => match after_check(attempts + 1, rounds[0].check) {
                ActionView::Finish(outcome) => Some(outcome),
                _ => run_from(attempts + 1, rounds.drop_first()),
            },
        }
    }
}

/// The outcome of these rounds.
pub open spec fn run(rounds: Seq<Round>) -> Option<OutcomeView> {
    run_from(0, rounds)
}

/// The user submitted a wrong password.
pub open spec fn wrong(round: Round) -> bool {
    round.code == ERROR_SUCCESS_CODE && round.check is WrongPassword
}

/// In each of the first `k` rounds the user submitted a wrong password.
pub open spec fn wrong_before(rounds: Seq<Round>, k: int) -> bool {
    0 <= k <= rounds.len() && forall|j: int| 0 <= j < k ==> wrong(#[trigger] rounds[j])
}

/// After wrong passwords that leave attempts, the rounds that follow decide.
proof fn lemma_goes_on(attempts: nat, rounds: Seq<Round>, k: int)
    requires
        wrong_before(rounds, k),
        attempts + k < MAX_ATTEMPTS,
    ensures
        run_from(attempts, rounds) == run_from((attempts + k) as nat, rounds.skip(k)),
    decreases k,
{
    if k == 0 {
        assert(rounds.skip(0) =~= rounds);
    } else {
        let rest = rounds.drop_first();
        assert(wrong(rounds[0]));
        assert forall|j: int| 0 <= j < k - 1 implies wrong(#[trigger] rest[j]) by {
            assert(rest[j] == rounds[j + 1]);
        }
        lemma_goes_on(attempts + 1, rest, k - 1);
        assert(rest.skip(k - 1) =~= rounds.skip(k));
    }
}

/// The first round that is not a wrong password, or the end.
proof fn lemma_first_other(rounds: Seq<Round>) -> (k: int)
    ensures
        wrong_before(rounds, k),
        k < rounds.len() ==> !wrong(rounds[k]),
    decreases rounds.len(),
{
    if rounds.len() == 0 || !wrong(rounds[0]) {
        0
    } else {
        let rest = rounds.drop_first();
        let k = lemma_first_other(rest);
        assert forall|j: int| 0 <= j < k + 1 implies wrong(#[trigger] rounds[j]) by {
            if j > 0 {
                assert(rounds[j] == rest[j - 1]);
            }
        }
        k + 1
    }
}

/// As many wrong passwords as there are attempts end in a denial.
proof fn lemma_out_of_attempts(rounds: Seq<Round>)
    requires
        wrong_before(rounds, MAX_ATTEMPTS as int),
    ensures
        run(rounds) == Some(OutcomeView::Denied(NOT_VERIFIED@)),
{
    let last = MAX_ATTEMPTS - 1;
    lemma_goes_on(0, rounds, last);
    assert(rounds.skip(last)[0] == rounds[last]);
    assert(wrong(rounds[last]));
}

/// There is an outcome after as many rounds as there are attempts.
pub proof fn outcome_comes_in_time(rounds: Seq<Round>)
    requires
        rounds.len() >= MAX_ATTEMPTS,
    ensures
        run(rounds) is Some,
{
    let k = lemma_first_other(rounds);
    if k >= MAX_ATTEMPTS {
        lemma_out_of_attempts(rounds);
    } else {
        lemma_goes_on(0, rounds, k);
        assert(rounds.skip(k)[0] == rounds[k]);
    }
}

/// Presence is verified exactly where the right password came within the
/// attempts, after nothing but wrong ones.
pub proof fn verified_iff_right_password(rounds: Seq<Round>)
    ensures
        run(rounds) == Some(OutcomeView::Verified) <==> exists|k: int|
            #![trigger rounds[k]]
            {
                &&& wrong_before(rounds, k)
                &&& k < rounds.len()
                &&& k < MAX_ATTEMPTS
                &&& rounds[k].code == ERROR_SUCCESS_CODE
                &&& rounds[k].check is Verified
            },
{
    if run(rounds) == Some(OutcomeView::Verified) {
        let k = lemma_first_other(rounds);
        if k >= MAX_ATTEMPTS {
            lemma_out_of_attempts(rounds);
        } else {
            lemma_goes_on(0, rounds, k);
            if k < rounds.len() {
                assert(rounds.skip(k)[0] == rounds[k]);
            }
        }
        assert(rounds[k].check is Verified);
    }
    if exists|k: int|
        #![trigger rounds[k]]
        {
            &&& wrong_before(rounds, k)
            &&& k < rounds.len()
            &&& k < MAX_ATTEMPTS
            &&& rounds[k].code == ERROR_SUCCESS_CODE
            &&& rounds[k].check is Verified
        } {
        let k = choose|k: int|
            #![trigger rounds[k]]
            {
                &&& wrong_before(rounds, k)
                &&& k < rounds.len()
                &&& k < MAX_ATTEMPTS
                &&& rounds[k].code == ERROR_SUCCESS_CODE
                &&& rounds[k].check is Verified
            };
        lemma_goes_on(0, rounds, k);
        assert(rounds.skip(k)[0] == rounds[k]);
    }
}

/// Access is denied exactly where the user cancelled within the attempts, after
/// nothing but wrong passwords, or used up the attempts with wrong ones.
pub proof fn denied_iff_cancelled_or_out_of_attempts(rounds: Seq<Round>)
    ensures
        run(rounds) matches Some(OutcomeView::Denied(_)) <==> {
            ||| wrong_before(rounds, MAX_ATTEMPTS as int)
            ||| exists|k: int|
                #![trigger rounds[k]]
                {
                    &&& wrong_before(rounds, k)
                    &&& k < rounds.len()
                    &&& k < MAX_ATTEMPTS
                    &&& rounds[k].code == ERROR_CANCELLED_CODE
                }
        },
{
    let k = lemma_first_other(rounds);
    if k >= MAX_ATTEMPTS {
        lemma_out_of_attempts(rounds);
    } else {
        lemma_goes_on(0, rounds, k);
        if k < rounds.len() {
            assert(rounds.skip(k)[0] == rounds[k]);
        }
    }
    if run(rounds) is Some && run(rounds)->0 is Denied && k < MAX_ATTEMPTS {
        assert(rounds[k].code == ERROR_CANCELLED_CODE);
    }
    assert forall|c: int|
        #![trigger rounds[c]]
        {
            &&& wrong_before(rounds, c)
            &&& c < rounds.len()
            &&& c < MAX_ATTEMPTS
            &&& rounds[c].code == ERROR_CANCELLED_CODE
        } implies run(rounds) == Some(OutcomeView::Denied(CANCELLED@)) by {
        lemma_goes_on(0, rounds, c);
        assert(rounds.skip(c)[0] == rounds[c]);
    }
}

/// Everything that one attempt with submitted credentials depends on.
pub struct Attempt {
    pub present: bool,
    pub size: u32,
    pub user_len: u32,
    pub pass_len: u32,
    pub unpacked: bool,
    pub reply: ReplyView,
}

/// What one attempt shows: the first refusal on the way, or what the logon shows.
pub open spec fn attempt_check(attempt: Attempt) -> CheckView {
    match empty_refusal(attempt.present, attempt.size) {
        Some(check) => check,
        None => match sizing_refusal(attempt.user_len, attempt.pass_len) {
            Some(check) => check,
            None => match unpacking_refusal(attempt.unpacked) {
                Some(check) => check,
                None => logon_check(attempt.reply),
            },
        },
    }
}

/// Only an accepted logon verifies, and only the system's refusal of the password
/// counts as a wrong one: every other failure makes the check unavailable.
pub proof fn attempt_verified_iff_logon_accepted(attempt: Attempt)
    ensures
        ({
            let logged_on = attempt.present && attempt.size > 0 && attempt.user_len > 0
                && attempt.pass_len > 0 && attempt.unpacked;
            &&& attempt_check(attempt) is Verified <==> logged_on && attempt.reply is Accepted
            &&& attempt_check(attempt) is WrongPassword <==> logged_on && (attempt.reply
                matches ReplyView::Refused(code, _) && code % 0x1_0000 == ERROR_LOGON_FAILURE_CODE)
        }),
{
}

/// The codes of the system and the number of attempts.
pub proof fn codes_and_attempts(round: Round)
    ensures
        ERROR_SUCCESS_CODE == 0,
        ERROR_CANCELLED_CODE == 1223,
        ERROR_LOGON_FAILURE_CODE == 1326,
        MAX_ATTEMPTS == 3,
        CAPTION@ == "gocode-dev"@,
        wrong(round) <==> round.code == 0 && round.check is WrongPassword,
{
}

/// What follows from each code of the dialog: submitted credentials are checked,
/// a cancelled dialog is a denial, and any other code makes the check unavailable
/// and is named in eight hexadecimal digits.
pub proof fn dialog_code_decides(code: u32, action: GateAction)
    requires
        action@ == after_prompt(code),
    ensures
        code == 0 <==> action is VerifyBuffer,
        code == 1223 <==> (action matches GateAction::Finish(PresenceOutcome::Denied(_))),
        action matches GateAction::Finish(PresenceOutcome::Denied(why)) ==> why@
            == "user cancelled the password prompt"@,
        code != 0 && code != 1223 ==> (action matches GateAction::Finish(
            PresenceOutcome::Unavailable(why),
        ) && why@ == "CredUIPromptForWindowsCredentialsW failed (0x"@ + hex8(code) + ")"@),
{
}

/// What follows from a check: the right password verifies, a wrong one is asked
/// for again with the hint that it was wrong until the third, which is denied, and
/// a check that is unavailable is so for its own reason.
pub proof fn check_decides(attempts: nat, check: AuthCheck, action: GateAction)
    requires
        action@ == after_check(attempts, check@),
    ensures
        check is Verified <==> (action matches GateAction::Finish(PresenceOutcome::Verified)),
        check is WrongPassword && attempts < 3 ==> (action matches GateAction::Prompt { auth_error }
            && auth_error == 1326),
        check is WrongPassword && attempts >= 3 ==> (action matches GateAction::Finish(
            PresenceOutcome::Denied(why),
        ) && why@ == "Windows password could not be verified"@),
        check matches AuthCheck::Unavailable(reason) ==> (action matches GateAction::Finish(
            PresenceOutcome::Unavailable(why),
        ) && why@ == reason@),
        !(action is VerifyBuffer),
{
}

/// What a logon shows: an accepted one verifies, a refusal with the code of a wrong
/// password in its low sixteen bits counts as one, and any other refusal makes the
/// check unavailable, with the system's text.
pub proof fn logon_decides(reply: LogonReply, check: AuthCheck)
    requires
        check@ == logon_check(reply@),
    ensures
        check is Verified <==> reply is Accepted,
        check is WrongPassword <==> (reply matches LogonReply::Refused { code, .. } && code % 0x1_0000
            == 1326),
        reply matches LogonReply::Refused { code, text } ==> code % 0x1_0000 != 1326 ==> (check
            matches AuthCheck::Unavailable(why) && why@
            == "LogonUserW could not validate the account: "@ + text@),
{
}

/// Scrubbed buffers hold a zero in place of each code unit that they held.
pub proof fn scrubbed_buffers_hold_zeros(buffers: BuffersView)
    ensures
        scrubbed(buffers).user.len() == buffers.user.len(),
        scrubbed(buffers).domain.len() == buffers.domain.len(),
        scrubbed(buffers).password.len() == buffers.password.len(),
        forall|i: int| 0 <= i < buffers.user.len() ==> #[trigger] scrubbed(buffers).user[i] == 0u16,
        forall|i: int| 0 <= i < buffers.domain.len() ==> #[trigger] scrubbed(buffers).domain[i] == 0u16,
        forall|i: int|
            0 <= i < buffers.password.len() ==> #[trigger] scrubbed(buffers).password[i] == 0u16,
{
}

/// New buffers are as long as asked for and hold zeros.
pub proof fn new_units_are_zero(len: nat)
    ensures
        zero_units(len).len() == len,
        forall|i: int| 0 <= i < len ==> #[trigger] zero_units(len)[i] == 0u16,
{
}

/// Credentials are refused, in this order, where there are none, where user or
/// password has no length, and where they do not unpack; each refusal says which.
pub proof fn refusals_say_which(
    present: bool,
    size: u32,
    user_len: u32,
    pass_len: u32,
    unpacked: bool,
)
    ensures
        empty_refusal(present, size) == if present && size > 0 {
            None
        } else {
            Some(CheckView::Unavailable("empty credential buffer"@))
        },
        sizing_refusal(user_len, pass_len) == if user_len > 0 && pass_len > 0 {
            None
        } else {
            Some(CheckView::Unavailable("could not size unpacked credentials"@))
        },
        unpacking_refusal(unpacked) == if unpacked {
            None
        } else {
            Some(CheckView::Unavailable("could not unpack credentials"@))
        },
{
}

/// The dialog shows the reason and the caption, each with a zero behind it.
pub proof fn dialog_shows_reason_and_caption(reason: &str, texts: (Vec<u16>, Vec<u16>))
    requires
        call_ensures(prompt_texts, (reason,), texts),
    ensures
        texts.0@ == utf16_encode(reason@) + seq![0u16],
        texts.1@ == utf16_encode("gocode-dev"@) + seq![0u16],
{
    assert(texts.0@ =~= utf16_encode(reason@) + seq![0u16]);
    assert(texts.1@ =~= utf16_encode("gocode-dev"@) + seq![0u16]);
}

/// Credentials are there exactly if the dialog gave a buffer that is not empty;
/// room for them is made as long as told, with at least a zero for the domain.
pub proof fn buffers_are_made_as_told(
    present: bool,
    size: u32,
    begun: Result<(), AuthCheck>,
    lens: (u32, u32, u32),
    made: Result<CredentialBuffers, AuthCheck>,
)
    requires
        call_ensures(begin_check, (present, size), begun),
        call_ensures(CredentialBuffers::allocate, lens, made),
    ensures
        begun is Ok <==> present && size > 0,
        made is Ok <==> lens.0 > 0 && lens.2 > 0,
        made matches Ok(buffers) ==> {
            &&& buffers@.user.len() == lens.0
            &&& buffers@.domain.len() == if lens.1 == 0 {
                1
            } else {
                lens.1 as int
            }
            &&& buffers@.password.len() == lens.2
            &&& forall|i: int| 0 <= i < lens.2 ==> #[trigger] buffers@.password[i] == 0u16
        },
{
}

} // verus!
