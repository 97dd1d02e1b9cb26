//! The external process interface: the per-subprocess protocol state and
//! the meaning of each call and reply.
//!
//! A subprocess serves many trials over one pipe pair. The host first waits
//! for the one specification cast, then alternates between sending a call
//! and waiting for exactly the matching reply; casts need no reply. The
//! transport lives outside; the state machine and the interpretation of
//! every message are verified here, so no reply can be mistaken for another
//! and no call can be issued in the wrong state.

use crate::message::{ProblemMessage, SolverMessage};
use crate::trial::{EvaluatedTrial, NextTrial, Params, Values};
use crate::ErrorKind;
use vstd::prelude::*;

verus! {

/// The lifecycle of one subprocess channel.
#[derive(Debug, Clone, Copy, PartialEq, Eq, Structural)]
pub enum ChannelState {
    /// Spawned; nothing received yet. Only the specification cast may come.
    Launched,
    /// The specification arrived; the host may issue any call or cast.
    Ready,
    /// A call is outstanding; only its reply or an error reply may come.
    AwaitingReply,
    /// Tearing down; only drop casts may still go out.
    Terminating,
}

/// What happens on the channel, as the state machine sees it.
#[derive(Debug, Clone, Copy, PartialEq, Eq, Structural)]
pub enum ChannelEvent {
    /// The child's one specification cast arrived.
    SpecCastReceived,
    /// The host sent a call and now waits for the reply.
    CallSent,
    /// The matching reply (or an error reply) arrived.
    ReplyReceived,
    /// The host sent a cast that needs no reply.
    CastSent,
    /// Teardown begins.
    Shutdown,
}

/// The transition table of the subprocess lifecycle: `None` is a protocol
/// violation, fatal for the subprocess.
pub open spec fn spec_channel_step(s: ChannelState, e: ChannelEvent) -> Option<ChannelState> {
    match (s, e) {
        (ChannelState::Launched, ChannelEvent::SpecCastReceived) => Some(ChannelState::Ready),
        (ChannelState::Ready, ChannelEvent::CallSent) => Some(ChannelState::AwaitingReply),
        (ChannelState::Ready, ChannelEvent::CastSent) => Some(ChannelState::Ready),
        (ChannelState::AwaitingReply, ChannelEvent::ReplyReceived) => Some(ChannelState::Ready),
        (ChannelState::Terminating, ChannelEvent::CastSent) => Some(ChannelState::Terminating),
        (_, ChannelEvent::Shutdown) => Some(ChannelState::Terminating),
        (_, _) => None,
    }
}

impl ChannelState {
    /// Applies one event, or reports the protocol violation that ends the
    /// subprocess.
    pub fn step(&mut self, event: ChannelEvent) -> (r: Result<(), ErrorKind>)
        ensures
            match spec_channel_step(*old(self), event) {
                Some(next) => r.is_ok() && *final(self) == next,
                None => r == Result::<(), ErrorKind>::Err(ErrorKind::Bug) && *final(self) == *old(
                    self,
                ),
            },
    {
        let next = match (*self, event) {
            (ChannelState::Launched, ChannelEvent::SpecCastReceived) => ChannelState::Ready,
            (ChannelState::Ready, ChannelEvent::CallSent) => ChannelState::AwaitingReply,
            (ChannelState::Ready, ChannelEvent::CastSent) => ChannelState::Ready,
            (ChannelState::AwaitingReply, ChannelEvent::ReplyReceived) => ChannelState::Ready,
            (ChannelState::Terminating, ChannelEvent::CastSent) => ChannelState::Terminating,
            (_, ChannelEvent::Shutdown) => ChannelState::Terminating,
            (_, _) => {
                return Err(ErrorKind::Bug);
            },
        };
        *self = next;
        Ok(())
    }
}

/// An error reply of a subprocess, or a protocol violation found by the
/// host.
#[derive(Debug, PartialEq, Eq)]
pub struct EpiError {
    pub kind: ErrorKind,
    pub message: Option<String>,
}

/// The call that creates an evaluator for a trial's parameters.
pub fn create_evaluator_call(problem_id: u64, evaluator_id: u64, params: Params) -> (r:
    ProblemMessage)
    ensures
        r@ == (crate::message::ProblemMessageView::CreateEvaluatorCall {
            problem_id: problem_id as int,
            evaluator_id: evaluator_id as int,
            params: params@,
        }),
{
    ProblemMessage::CreateEvaluatorCall { problem_id, evaluator_id, params }
}

/// The call that advances an evaluator to `next_step`.
pub fn evaluate_call(problem_id: u64, evaluator_id: u64, next_step: u64) -> (r: ProblemMessage)
    ensures
        r@ == (crate::message::ProblemMessageView::EvaluateCall {
            problem_id: problem_id as int,
            evaluator_id: evaluator_id as int,
            next_step: next_step as int,
        }),
{
    ProblemMessage::EvaluateCall { problem_id, evaluator_id, next_step }
}

/// What a reply to `CreateEvaluatorCall` means: the affirmative reply, a
/// typed error of the subprocess, or — for any other variant — a protocol
/// violation.
pub fn interpret_create_evaluator_reply(m: ProblemMessage) -> (r: Result<(), EpiError>)
    ensures
        m is CreateEvaluatorReply <==> r.is_ok(),
        m matches ProblemMessage::ErrorReply { kind, message } ==> (r matches Err(e) && e.kind
            == kind && e.message == message),
        !(m is CreateEvaluatorReply) && !(m is ErrorReply) ==> (r matches Err(e) && e.kind
            == ErrorKind::Other && e.message is None),
{
    match m {
        ProblemMessage::CreateEvaluatorReply => Ok(()),
        ProblemMessage::ErrorReply { kind, message } => Err(EpiError { kind, message }),
        _ => Err(EpiError { kind: ErrorKind::Other, message: None }),
    }
}

/// What a reply to `EvaluateCall` means: the reported step and values, a
/// typed error, or a protocol violation.
pub fn interpret_evaluate_reply(m: ProblemMessage) -> (r: Result<(u64, Values), EpiError>)
    ensures
        m matches ProblemMessage::EvaluateReply { current_step, values } ==> (r matches Ok(
            (c, v),
        ) && c == current_step && v == values),
        r.is_ok() ==> m is EvaluateReply,
        m matches ProblemMessage::ErrorReply { kind, message } ==> (r matches Err(e) && e.kind
            == kind && e.message == message),
        !(m is EvaluateReply) && !(m is ErrorReply) ==> (r matches Err(e) && e.kind
            == ErrorKind::Other && e.message is None),
{
    match m {
        ProblemMessage::EvaluateReply { current_step, values } => Ok((current_step, values)),
        ProblemMessage::ErrorReply { kind, message } => Err(EpiError { kind, message }),
        _ => Err(EpiError { kind: ErrorKind::Other, message: None }),
    }
}

/// What a reply to `AskCall` means: the proposed trial with the id hint, a
/// typed error, or a protocol violation.
pub fn interpret_ask_reply(m: SolverMessage) -> (r: Result<(NextTrial, u64), EpiError>)
    ensures
        m matches SolverMessage::AskReply { trial, next_trial_id } ==> (r matches Ok((t, n))
            && t == trial && n == next_trial_id),
        r.is_ok() ==> m is AskReply,
        m matches SolverMessage::ErrorReply { kind, message } ==> (r matches Err(e) && e.kind
            == kind && e.message == message),
        !(m is AskReply) && !(m is ErrorReply) ==> (r matches Err(e) && e.kind == ErrorKind::Other
            && e.message is None),
{
    match m {
        SolverMessage::AskReply { trial, next_trial_id } => Ok((trial, next_trial_id)),
        SolverMessage::ErrorReply { kind, message } => Err(EpiError { kind, message }),
        _ => Err(EpiError { kind: ErrorKind::Other, message: None }),
    }
}

/// What a reply to `TellCall` means.
pub fn interpret_tell_reply(m: SolverMessage) -> (r: Result<(), EpiError>)
    ensures
        m is TellReply <==> r.is_ok(),
        m matches SolverMessage::ErrorReply { kind, message } ==> (r matches Err(e) && e.kind
            == kind && e.message == message),
        !(m is TellReply) && !(m is ErrorReply) ==> (r matches Err(e) && e.kind == ErrorKind::Other
            && e.message is None),
{
    match m {
        SolverMessage::TellReply => Ok(()),
        SolverMessage::ErrorReply { kind, message } => Err(EpiError { kind, message }),
        _ => Err(EpiError { kind: ErrorKind::Other, message: None }),
    }
}

/// What the first message of a problem subprocess means: its specification,
/// or a protocol violation.
pub fn interpret_problem_spec_cast(m: ProblemMessage) -> (r: Result<
    crate::problem::ProblemSpec,
    EpiError,
>)
    ensures
        m matches ProblemMessage::ProblemSpecCast { spec } ==> (r matches Ok(s) && s == spec),
        r.is_ok() ==> m is ProblemSpecCast,
        !(m is ProblemSpecCast) ==> (r matches Err(e) && e.kind == ErrorKind::InvalidInput),
{
    match m {
        ProblemMessage::ProblemSpecCast { spec } => Ok(spec),
        _ => Err(EpiError { kind: ErrorKind::InvalidInput, message: None }),
    }
}

/// What the first message of a solver subprocess means: its specification,
/// or a protocol violation.
pub fn interpret_solver_spec_cast(m: SolverMessage) -> (r: Result<
    crate::capability::SolverSpec,
    EpiError,
>)
    ensures
        m matches SolverMessage::SolverSpecCast { spec } ==> (r matches Ok(s) && s == spec),
        r.is_ok() ==> m is SolverSpecCast,
        !(m is SolverSpecCast) ==> (r matches Err(e) && e.kind == ErrorKind::InvalidInput),
{
    match m {
        SolverMessage::SolverSpecCast { spec } => Ok(spec),
        _ => Err(EpiError { kind: ErrorKind::InvalidInput, message: None }),
    }
}

} // verus!
