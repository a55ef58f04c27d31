use voting_api::gateway::{
    plan, status_code, Failure, Gateway, LedgerCall, LedgerReply, Request, SessionState, Step,
};
use voting_api::ranking::Ranking;

/// A ledger stand-in that records each call and answers with a fixed reply.
struct StubLedger {
    reply: LedgerReply,
    calls: Vec<LedgerCall>,
}

impl StubLedger {
    fn call(&mut self, c: &LedgerCall) -> LedgerReply {
        self.calls.push(c.clone());
        self.reply
    }
}

fn serve(g: &mut Gateway, ledger: &mut StubLedger, req: Request) -> Result<(), Failure> {
    match plan(req) {
        Step::Call(call) => {
            let reply = ledger.call(&call);
            g.settle(&call, reply)
        }
        Step::Respond(r) => r,
    }
}

fn issue(code: &str, amount: u64) -> Request {
    Request::IssueToken { account_code: Some(code.to_string()), amount: Some(amount) }
}

#[test]
fn issue_token_against_confirming_ledger() {
    let mut g = Gateway::new();
    let mut ledger = StubLedger { reply: LedgerReply::Confirmed, calls: Vec::new() };
    let r = serve(&mut g, &mut ledger, issue("ACC1", 100));
    assert_eq!(r, Ok(()));
    assert_eq!(status_code(&r), 200);
    assert_eq!(
        ledger.calls,
        vec![LedgerCall::IssueToken { account_code: "ACC1".to_string(), amount: 100 }]
    );
}

#[test]
fn issue_token_against_failing_ledger() {
    let mut g = Gateway::new();
    let mut ranking = Ranking::new();
    ranking.add_vote("alice".to_string(), 3);
    let before = ranking.get_ranking();
    let mut ledger = StubLedger { reply: LedgerReply::Failed, calls: Vec::new() };
    let r = serve(&mut g, &mut ledger, issue("ACC1", 100));
    assert_eq!(r, Err(Failure::LedgerFailed));
    assert_eq!(status_code(&r), 500);
    assert_eq!(g.session(), SessionState::Unknown);
    assert_eq!(ranking.get_ranking(), before);
    assert_eq!(ledger.calls.len(), 1);
}

#[test]
fn missing_field_is_rejected_before_dispatch() {
    let mut g = Gateway::new();
    let mut ledger = StubLedger { reply: LedgerReply::Confirmed, calls: Vec::new() };
    let no_amount = Request::IssueToken { account_code: Some("ACC1".to_string()), amount: None };
    let no_code = Request::IssueToken { account_code: None, amount: Some(5) };
    for req in [no_amount, no_code] {
        let r = serve(&mut g, &mut ledger, req);
        assert_eq!(r, Err(Failure::InvalidInput));
        assert_eq!(status_code(&r), 400);
    }
    assert!(ledger.calls.is_empty());
}

#[test]
fn vote_answers_without_ledger() {
    assert_eq!(plan(Request::Vote), Step::Respond(Ok(())));
}

#[test]
fn voting_toggles_are_passed_through() {
    assert_eq!(plan(Request::VotingOn), Step::Call(LedgerCall::VotingOn));
    assert_eq!(plan(Request::VotingOff), Step::Call(LedgerCall::VotingOff));
}

#[test]
fn confirmed_toggles_update_session() {
    let mut g = Gateway::new();
    let mut ledger = StubLedger { reply: LedgerReply::Confirmed, calls: Vec::new() };
    assert_eq!(serve(&mut g, &mut ledger, Request::VotingOn), Ok(()));
    assert_eq!(g.session(), SessionState::On);
    assert_eq!(serve(&mut g, &mut ledger, issue("B", 1)), Ok(()));
    assert_eq!(g.session(), SessionState::On);
    assert_eq!(serve(&mut g, &mut ledger, Request::VotingOff), Ok(()));
    assert_eq!(g.session(), SessionState::Off);
    assert_eq!(ledger.calls.len(), 3);
}

#[test]
fn failed_toggle_keeps_session() {
    let mut g = Gateway::new();
    let r = g.settle(&LedgerCall::VotingOn, LedgerReply::Confirmed);
    assert_eq!(r, Ok(()));
    let r = g.settle(&LedgerCall::VotingOff, LedgerReply::Failed);
    assert_eq!(r, Err(Failure::LedgerFailed));
    assert_eq!(g.session(), SessionState::On);
}
