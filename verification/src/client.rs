//! The pool client: how it reacts to what the pool sends and to connection outcomes.
use vstd::prelude::*;
use crate::prover::ProverMsg;

verus! {

/// Seconds allowed for a connection attempt.
pub const CONNECT_TIMEOUT_SECS: u64 = 5;

/// Seconds to wait after a refused connection, and after the pool hung up.
pub const RETRY_PAUSE_SECS: u64 = 5;

/// A message to the client; `M` is a message for the pool, `R` answers an exit request.
pub enum ClientMsg<M, R> {
    /// Send this message to the pool.
    PoolMessage(M),
    /// Acknowledge through `R`; the client keeps running.
    Exit(R),
}

/// What the pool sent, as far as the client tells messages apart; `T` is a block template.
pub enum PoolReply<T> {
    /// The answer to the authorization: granted or not, with an optional note.
    AuthorizeResult(bool, Option<String>),
    /// New work: a block template and the share difficulty target.
    Notify(T, u64),
    /// The answer to a submitted share: accepted or not, with an optional note.
    SubmitResult(bool, Option<String>),
    /// Any other message, which the client ignores.
    Other,
}

/// The text of a refused authorization.
pub open spec fn authorization_failure(note: Option<String>) -> Seq<char> {
    "Authorization failed: "@ + match note {
        Some(m) => m@,
        None => Seq::empty(),
    }
}

/// How the client handles `message`: `Ok(Some(m))` hands `m` to the prover, `Ok(None)`
/// goes on, `Err(text)` stops the client.
pub open spec fn processed<T, R>(message: PoolReply<T>, r: Result<Option<ProverMsg<T, R>>, String>) -> bool {
    match message {
        PoolReply::AuthorizeResult(granted, note) => if granted {
            r == Ok::<Option<ProverMsg<T, R>>, String>(None)
        } else {
            r matches Err(text) && text@ == authorization_failure(note)
        },
        PoolReply::Notify(template, difficulty) => r == Ok::<Option<ProverMsg<T, R>>, String>(
            Some(ProverMsg::NewWork(template, difficulty)),
        ),
        PoolReply::SubmitResult(accepted, note) => r == Ok::<Option<ProverMsg<T, R>>, String>(
            Some(ProverMsg::SubmitResult(accepted, note)),
        ),
        PoolReply::Other => r == Ok::<Option<ProverMsg<T, R>>, String>(None),
    }
}

/// Handles a message from the pool.
pub fn process_message<T, R>(message: PoolReply<T>) -> (r: Result<Option<ProverMsg<T, R>>, String>)
    ensures
        processed(message, r),
{
    match message {
        PoolReply::AuthorizeResult(granted, note) => {
            if granted {
                Ok(None)
            } else {
                let mut text = String::from_str("Authorization failed: ");
                match note {
                    Some(m) => text.append(m.as_str()),
                    None => {},
                }
                assert(text@ =~= authorization_failure(note));
                Err(text)
            }
        },
        PoolReply::Notify(template, difficulty) => Ok(Some(ProverMsg::NewWork(template, difficulty))),
        PoolReply::SubmitResult(accepted, note) => Ok(Some(ProverMsg::SubmitResult(accepted, note))),
        PoolReply::Other => Ok(None),
    }
}

/// The result of reading from the pool connection.
pub enum ReadOutcome<T> {
    Message(PoolReply<T>),
    /// A message could not be decoded.
    Failed,
    /// The pool closed the connection.
    Closed,
}

/// What the client does after a read.
pub enum ClientStep<T, R> {
    /// Read on.
    Continue,
    /// Hand this message to the prover; stop if it cannot be delivered.
    Forward(ProverMsg<T, R>),
    /// Stop, the message telling why.
    Stop(String),
    /// Wait this many seconds, then stop.
    StopAfter(u64),
}

/// The step after a read.
pub open spec fn read_step<T, R>(outcome: ReadOutcome<T>, step: ClientStep<T, R>) -> bool {
    match outcome {
        ReadOutcome::Message(m) => match m {
            PoolReply::AuthorizeResult(granted, note) => if granted {
                step is Continue
            } else {
                step matches ClientStep::Stop(text) && text@ == authorization_failure(note)
            },
            PoolReply::Notify(template, difficulty) => step == ClientStep::<T, R>::Forward(
                ProverMsg::NewWork(template, difficulty),
            ),
            PoolReply::SubmitResult(accepted, note) => step == ClientStep::<T, R>::Forward(
                ProverMsg::SubmitResult(accepted, note),
            ),
            PoolReply::Other => step is Continue,
        },
        ReadOutcome::Failed => step is Continue,
        ReadOutcome::Closed => step == ClientStep::<T, R>::StopAfter(RETRY_PAUSE_SECS),
    }
}

/// Decides what to do after a read from the pool.
pub fn on_read<T, R>(outcome: ReadOutcome<T>) -> (step: ClientStep<T, R>)
    ensures
        read_step(outcome, step),
{
    match outcome {
        ReadOutcome::Message(m) => match process_message(m) {
            Ok(Some(msg)) => ClientStep::Forward(msg),
            Ok(None) => ClientStep::Continue,
            Err(text) => ClientStep::Stop(text),
        },
        ReadOutcome::Failed => ClientStep::Continue,
        ReadOutcome::Closed => ClientStep::StopAfter(RETRY_PAUSE_SECS),
    }
}

/// A share result from the pool reaches the prover as the pool sent it: the accepted flag
/// (a rejection as well as an acceptance) and the note are passed on unchanged, both by
/// `process_message` and by the step after reading it.
pub proof fn law_share_result_forwarded_unchanged<T, R>(
    accepted: bool,
    note: Option<String>,
    r: Result<Option<ProverMsg<T, R>>, String>,
    step: ClientStep<T, R>,
)
    requires
        processed(PoolReply::<T>::SubmitResult(accepted, note), r),
        read_step(ReadOutcome::Message(PoolReply::<T>::SubmitResult(accepted, note)), step),
    ensures
        r matches Ok(Some(m)) && (m matches ProverMsg::SubmitResult(a, n) && a == accepted && n == note),
        step matches ClientStep::Forward(m) && (m matches ProverMsg::SubmitResult(a, n) && a == accepted
            && n == note),
{
}

/// New work from the pool reaches the prover as the pool sent it: the template and the
/// share difficulty are passed on unchanged, both by `process_message` and by the step
/// after reading it.
pub proof fn law_new_work_forwarded_unchanged<T, R>(
    template: T,
    difficulty: u64,
    r: Result<Option<ProverMsg<T, R>>, String>,
    step: ClientStep<T, R>,
)
    requires
        processed(PoolReply::<T>::Notify(template, difficulty), r),
        read_step(ReadOutcome::Message(PoolReply::<T>::Notify(template, difficulty)), step),
    ensures
        r matches Ok(Some(m)) && (m matches ProverMsg::NewWork(t, d) && t == template && d == difficulty),
        step matches ClientStep::Forward(m) && (m matches ProverMsg::NewWork(t, d) && t == template
            && d == difficulty),
{
}

/// Reading a message from the pool does what processing it says: the step forwards exactly
/// the message that processing hands to the prover, reads on exactly when processing goes
/// on, and stops with exactly the text of a processing error.
pub proof fn law_read_follows_processing<T, R>(
    message: PoolReply<T>,
    r: Result<Option<ProverMsg<T, R>>, String>,
    step: ClientStep<T, R>,
)
    requires
        processed(message, r),
        read_step(ReadOutcome::Message(message), step),
    ensures
        r matches Ok(Some(m)) ==> step == ClientStep::<T, R>::Forward(m),
        r matches Ok(None) ==> step is Continue,
        r matches Err(text) ==> (step matches ClientStep::Stop(t) && t@ == text@),
        !(step is StopAfter),
{
}

/// The result of one connection attempt.
#[derive(Clone, Copy, PartialEq, Eq, Debug)]
pub enum ConnectOutcome {
    Connected,
    Refused,
    TimedOut,
}

/// What the client does after a connection attempt.
#[derive(Clone, Copy, PartialEq, Eq, Debug)]
pub enum ConnectStep {
    /// Send the authorization on the new connection.
    Authorize,
    /// Wait this many seconds, then try again.
    RetryAfter(u64),
    /// Try again at once.
    RetryNow,
}

pub open spec fn connect_step_spec(outcome: ConnectOutcome) -> ConnectStep {
    match outcome {
        ConnectOutcome::Connected => ConnectStep::Authorize,
        ConnectOutcome::Refused => ConnectStep::RetryAfter(RETRY_PAUSE_SECS),
        ConnectOutcome::TimedOut => ConnectStep::RetryNow,
    }
}

/// Decides what to do after a connection attempt.
pub fn connect_step(outcome: ConnectOutcome) -> (step: ConnectStep)
    ensures
        step == connect_step_spec(outcome),
{
    match outcome {
        ConnectOutcome::Connected => ConnectStep::Authorize,
        ConnectOutcome::Refused => ConnectStep::RetryAfter(RETRY_PAUSE_SECS),
        ConnectOutcome::TimedOut => ConnectStep::RetryNow,
    }
}

} // verus!
