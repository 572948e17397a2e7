use aleo_prover_actor::client::{
    connect_step, on_read, process_message, ClientStep, ConnectOutcome, ConnectStep, PoolReply,
    ReadOutcome,
};
use aleo_prover_actor::prover::ProverMsg;

#[test]
fn refused_authorization_stops_the_client() {
    let r = process_message::<u8, u8>(PoolReply::AuthorizeResult(false, Some("bad name".to_string())));
    assert_eq!(r.err(), Some("Authorization failed: bad name".to_string()));
    let r = process_message::<u8, u8>(PoolReply::AuthorizeResult(false, None));
    assert_eq!(r.err(), Some("Authorization failed: ".to_string()));
    assert!(matches!(process_message::<u8, u8>(PoolReply::AuthorizeResult(true, None)), Ok(None)));
}

#[test]
fn work_and_results_go_to_the_prover() {
    match process_message::<u32, u8>(PoolReply::Notify(5, 600)) {
        Ok(Some(ProverMsg::NewWork(t, d))) => assert_eq!((t, d), (5, 600)),
        _ => panic!("expected new work"),
    }
    match process_message::<u32, u8>(PoolReply::SubmitResult(true, Some("ok".to_string()))) {
        Ok(Some(ProverMsg::SubmitResult(v, m))) => {
            assert!(v);
            assert_eq!(m.as_deref(), Some("ok"));
        }
        _ => panic!("expected a share result"),
    }
    assert!(matches!(process_message::<u32, u8>(PoolReply::Other), Ok(None)));
}

#[test]
fn read_outcomes() {
    assert!(matches!(on_read::<u8, u8>(ReadOutcome::Failed), ClientStep::Continue));
    assert!(matches!(on_read::<u8, u8>(ReadOutcome::Closed), ClientStep::StopAfter(5)));
    assert!(matches!(on_read::<u8, u8>(ReadOutcome::Message(PoolReply::Other)), ClientStep::Continue));
    match on_read::<u8, u8>(ReadOutcome::Message(PoolReply::AuthorizeResult(false, None))) {
        ClientStep::Stop(text) => assert_eq!(text, "Authorization failed: "),
        _ => panic!("expected a stop"),
    }
    assert!(matches!(
        on_read::<u8, u8>(ReadOutcome::Message(PoolReply::Notify(1, 2))),
        ClientStep::Forward(ProverMsg::NewWork(1, 2))
    ));
}

#[test]
fn connection_retries() {
    assert_eq!(connect_step(ConnectOutcome::Connected), ConnectStep::Authorize);
    assert_eq!(connect_step(ConnectOutcome::Refused), ConnectStep::RetryAfter(5));
    assert_eq!(connect_step(ConnectOutcome::TimedOut), ConnectStep::RetryNow);
}
