use vstd::prelude::*;

verus! {

/// A request as it arrives: the token issue's fields are absent where the body
/// lacked them.
#[derive(Debug, Clone, PartialEq, Eq)]
pub enum Request {
    IssueToken { account_code: Option<String>, amount: Option<u64> },
    Vote,
    VotingOn,
    VotingOff,
}

/// One call into the ledger contract.
#[derive(Debug, Clone, PartialEq, Eq)]
pub enum LedgerCall {
    IssueToken { account_code: String, amount: u64 },
    VotingOn,
    VotingOff,
}

/// Why a request did not succeed. `InvalidInput` comes before any ledger call,
/// so nothing changed; `LedgerFailed` comes after a call was attempted.
#[derive(Debug, Clone, Copy, PartialEq, Eq)]
pub enum Failure {
    InvalidInput,
    LedgerFailed,
}

/// What the ledger answered to a call.
#[derive(Debug, Clone, Copy, PartialEq, Eq)]
pub enum LedgerReply {
    Confirmed,
    Failed,
}

/// What to do with a received request: make one ledger call, or answer at once.
#[derive(Debug, PartialEq, Eq)]
pub enum Step {
    Call(LedgerCall),
    Respond(Result<(), Failure>),
}

/// What this process last learned of the ledger's voting session. The ledger
/// holds the authoritative state; this copy may be stale.
#[derive(Debug, Clone, Copy, PartialEq, Eq)]
pub enum SessionState {
    Unknown,
    On,
    Off,
}

/// The step that a request calls for.
pub open spec fn planned(req: Request) -> Step {
    match req {
        Request::IssueToken { account_code: Some(c), amount: Some(a) } => Step::Call(
            LedgerCall::IssueToken { account_code: c, amount: a },
        ),
        Request::IssueToken { .. } => Step::Respond(Err(Failure::InvalidInput)),
        Request::Vote => Step::Respond(Ok(())),
        Request::VotingOn => Step::Call(LedgerCall::VotingOn),
        Request::VotingOff => Step::Call(LedgerCall::VotingOff),
    }
}

/// What the caller learns once the ledger answered.
pub open spec fn settled(reply: LedgerReply) -> Result<(), Failure> {
    match reply {
        LedgerReply::Confirmed => Ok(()),
        LedgerReply::Failed => Err(Failure::LedgerFailed),
    }
}

/// The session state known after `call` was confirmed.
pub open spec fn session_after(s: SessionState, call: LedgerCall) -> SessionState {
    match call {
        LedgerCall::IssueToken { .. } => s,
        LedgerCall::VotingOn => SessionState::On,
        LedgerCall::VotingOff => SessionState::Off,
    }
}

/// The HTTP status for an outcome: 200, 400 for input rejected before any call,
/// 500 for a failed ledger call.
pub open spec fn status_of(outcome: Result<(), Failure>) -> u16 {
    match outcome {
        Ok(()) => 200,
        Err(Failure::InvalidInput) => 400,
        Err(Failure::LedgerFailed) => 500,
    }
}

/// Decides, for a received request, whether it is rejected, answered at once,
/// or dispatched as exactly one ledger call. A token issue needs both of its
/// fields; a vote is accepted without contacting the ledger.
pub fn plan(req: Request) -> (r: Step)
    ensures
        r == planned(req),
{
    match req {
        Request::IssueToken { account_code, amount } => match (account_code, amount) {
            (Some(c), Some(a)) => Step::Call(LedgerCall::IssueToken { account_code: c, amount: a }),
            _ => Step::Respond(Err(Failure::InvalidInput)),
        },
        Request::Vote => Step::Respond(Ok(())),
        Request::VotingOn => Step::Call(LedgerCall::VotingOn),
        Request::VotingOff => Step::Call(LedgerCall::VotingOff),
    }
}

/// The HTTP status that reports `outcome` to the caller.
pub fn status_code(outcome: &Result<(), Failure>) -> (r: u16)
    ensures
        r == status_of(*outcome),
{
    match outcome {
        Ok(()) => 200,
        Err(Failure::InvalidInput) => 400,
        Err(Failure::LedgerFailed) => 500,
    }
}

/// The orchestrator's own state: its advisory copy of the voting session.
pub struct Gateway {
    session: SessionState,
}

impl Gateway {
    /// The session state as last learned.
    pub closed spec fn view(&self) -> SessionState {
        self.session
    }

    /// A gateway that knows nothing yet of the session.
    pub fn new() -> (r: Self)
        ensures
            r@ == SessionState::Unknown,
    {
        Gateway { session: SessionState::Unknown }
    }

    /// The session state as last learned.
    pub fn session(&self) -> (r: SessionState)
        ensures
            r == self@,
    {
        self.session
    }

    /// Ends a dispatched request with the ledger's reply. Success is reported
    /// only for a confirmed call; a failed call leaves the gateway as it was.
    pub fn settle(&mut self, call: &LedgerCall, reply: LedgerReply) -> (r: Result<(), Failure>)
        ensures
            r == settled(reply),
            reply == LedgerReply::Confirmed ==> final(self)@ == session_after(old(self)@, *call),
            reply == LedgerReply::Failed ==> final(self)@ == old(self)@,
    {
        match reply {
            LedgerReply::Confirmed => {
                match call {
                    LedgerCall::IssueToken { .. } => {},
                    LedgerCall::VotingOn => {
                        self.session = SessionState::On;
                    },
                    LedgerCall::VotingOff => {
                        self.session = SessionState::Off;
                    },
                }
                Ok(())
            },
            LedgerReply::Failed => Err(Failure::LedgerFailed),
        }
    }
}

} // verus!
