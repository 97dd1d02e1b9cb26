//! Messages exchanged with external problem and solver processes.

use crate::capability::{SolverSpec, SolverSpecView};
use crate::problem::{ProblemSpec, ProblemSpecView};
use crate::trial::{EvaluatedTrial, EvaluatedTrialView, NextTrial, NextTrialView, Params, Values};
use crate::ErrorKind;
use vstd::prelude::*;

verus! {

/// A message of the problem protocol. On spawn the problem process casts its
/// specification once; afterwards the host drives request/reply pairs keyed
/// by a factory-local `problem_id` and a problem-local `evaluator_id`.
#[derive(Debug)]
pub enum ProblemMessage {
    ProblemSpecCast { spec: ProblemSpec },
    CreateProblemCast { problem_id: u64, random_seed: u64 },
    DropProblemCast { problem_id: u64 },
    CreateEvaluatorCall { problem_id: u64, evaluator_id: u64, params: Params },
    CreateEvaluatorReply,
    DropEvaluatorCast { problem_id: u64, evaluator_id: u64 },
    EvaluateCall { problem_id: u64, evaluator_id: u64, next_step: u64 },
    EvaluateReply { current_step: u64, values: Values },
    ErrorReply { kind: ErrorKind, message: Option<String> },
}

/// Mathematical model of a `ProblemMessage`.
pub enum ProblemMessageView {
    ProblemSpecCast { spec: ProblemSpecView },
    CreateProblemCast { problem_id: int, random_seed: int },
    DropProblemCast { problem_id: int },
    CreateEvaluatorCall { problem_id: int, evaluator_id: int, params: Seq<Option<int>> },
    CreateEvaluatorReply,
    DropEvaluatorCast { problem_id: int, evaluator_id: int },
    EvaluateCall { problem_id: int, evaluator_id: int, next_step: int },
    EvaluateReply { current_step: int, values: Seq<int> },
    ErrorReply { kind: ErrorKind, message: Option<Seq<char>> },
}

impl View for ProblemMessage {
    type V = ProblemMessageView;

    open spec fn view(&self) -> ProblemMessageView {
        match self {
            ProblemMessage::ProblemSpecCast { spec } => ProblemMessageView::ProblemSpecCast {
                spec: spec@,
            },
            ProblemMessage::CreateProblemCast { problem_id, random_seed } => {
                ProblemMessageView::CreateProblemCast {
                    problem_id: *problem_id as int,
                    random_seed: *random_seed as int,
                }
            },
            ProblemMessage::DropProblemCast { problem_id } => ProblemMessageView::DropProblemCast {
                problem_id: *problem_id as int,
            },
            ProblemMessage::CreateEvaluatorCall { problem_id, evaluator_id, params } => {
                ProblemMessageView::CreateEvaluatorCall {
                    problem_id: *problem_id as int,
                    evaluator_id: *evaluator_id as int,
                    params: params@,
                }
            },
            ProblemMessage::CreateEvaluatorReply => ProblemMessageView::CreateEvaluatorReply,
            ProblemMessage::DropEvaluatorCast { problem_id, evaluator_id } => {
                ProblemMessageView::DropEvaluatorCast {
                    problem_id: *problem_id as int,
                    evaluator_id: *evaluator_id as int,
                }
            },
            ProblemMessage::EvaluateCall { problem_id, evaluator_id, next_step } => {
                ProblemMessageView::EvaluateCall {
                    problem_id: *problem_id as int,
                    evaluator_id: *evaluator_id as int,
                    next_step: *next_step as int,
                }
            },
            ProblemMessage::EvaluateReply { current_step, values } => {
                ProblemMessageView::EvaluateReply {
                    current_step: *current_step as int,
                    values: values@,
                }
            },
            ProblemMessage::ErrorReply { kind, message } => ProblemMessageView::ErrorReply {
                kind: *kind,
                message: match message {
                    Some(m) => Some(m@),
                    None => None,
                },
            },
        }
    }
}

/// A message of the solver protocol. On spawn the solver process casts its
/// specification once; afterwards the host drives request/reply pairs keyed
/// by a factory-local `solver_id`.
#[derive(Debug)]
pub enum SolverMessage {
    SolverSpecCast { spec: SolverSpec },
    CreateSolverCast { solver_id: u64, random_seed: u64, problem: ProblemSpec },
    DropSolverCast { solver_id: u64 },
    AskCall { solver_id: u64, next_trial_id: u64 },
    AskReply { trial: NextTrial, next_trial_id: u64 },
    TellCall { solver_id: u64, trial: EvaluatedTrial },
    TellReply,
    ErrorReply { kind: ErrorKind, message: Option<String> },
}

/// Mathematical model of a `SolverMessage`.
pub enum SolverMessageView {
    SolverSpecCast { spec: SolverSpecView },
    CreateSolverCast { solver_id: int, random_seed: int, problem: ProblemSpecView },
    DropSolverCast { solver_id: int },
    AskCall { solver_id: int, next_trial_id: int },
    AskReply { trial: NextTrialView, next_trial_id: int },
    TellCall { solver_id: int, trial: EvaluatedTrialView },
    TellReply,
    ErrorReply { kind: ErrorKind, message: Option<Seq<char>> },
}

impl View for SolverMessage {
    type V = SolverMessageView;

    open spec fn view(&self) -> SolverMessageView {
        match self {
            SolverMessage::SolverSpecCast { spec } => SolverMessageView::SolverSpecCast {
                spec: spec@,
            },
            SolverMessage::CreateSolverCast { solver_id, random_seed, problem } => {
                SolverMessageView::CreateSolverCast {
                    solver_id: *solver_id as int,
                    random_seed: *random_seed as int,
                    problem: problem@,
                }
            },
            SolverMessage::DropSolverCast { solver_id } => SolverMessageView::DropSolverCast {
                solver_id: *solver_id as int,
            },
            SolverMessage::AskCall { solver_id, next_trial_id } => SolverMessageView::AskCall {
                solver_id: *solver_id as int,
                next_trial_id: *next_trial_id as int,
            },
            SolverMessage::AskReply { trial, next_trial_id } => SolverMessageView::AskReply {
                trial: trial@,
                next_trial_id: *next_trial_id as int,
            },
            SolverMessage::TellCall { solver_id, trial } => SolverMessageView::TellCall {
                solver_id: *solver_id as int,
                trial: trial@,
            },
            SolverMessage::TellReply => SolverMessageView::TellReply,
            SolverMessage::ErrorReply { kind, message } => SolverMessageView::ErrorReply {
                kind: *kind,
                message: match message {
                    Some(m) => Some(m@),
                    None => None,
                },
            },
        }
    }
}

} // verus!
