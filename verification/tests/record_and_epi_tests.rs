use kurobako::capability::{Capabilities, SolverSpecBuilder};
use kurobako::channel::ChannelError;
use kurobako::epi::{
    interpret_ask_reply, interpret_create_evaluator_reply, interpret_evaluate_reply,
    interpret_problem_spec_cast, interpret_tell_reply, ChannelEvent, ChannelState,
};
use kurobako::message::{ProblemMessage, SolverMessage};
use kurobako::record::{AskRecord, EvalRecord, RecipeAndSpec, Scorer, StudyRecord, TrialRecord};
use kurobako::runner::StudyRunnerOptions;
use kurobako::trial::{Params, Values};
use kurobako::ErrorKind;

#[test]
fn the_subprocess_lifecycle_rejects_out_of_order_events() {
    let mut s = ChannelState::Launched;
    assert!(s.step(ChannelEvent::CallSent).is_err());
    assert_eq!(s, ChannelState::Launched);
    assert!(s.step(ChannelEvent::SpecCastReceived).is_ok());
    assert_eq!(s, ChannelState::Ready);
    assert!(s.step(ChannelEvent::ReplyReceived).is_err());
    assert!(s.step(ChannelEvent::CallSent).is_ok());
    assert_eq!(s, ChannelState::AwaitingReply);
    assert!(s.step(ChannelEvent::CallSent).is_err());
    assert!(s.step(ChannelEvent::ReplyReceived).is_ok());
    assert!(s.step(ChannelEvent::CastSent).is_ok());
    assert!(s.step(ChannelEvent::Shutdown).is_ok());
    assert_eq!(s, ChannelState::Terminating);
    assert!(s.step(ChannelEvent::CastSent).is_ok());
    assert!(s.step(ChannelEvent::CallSent).is_err());
}

#[test]
fn replies_are_interpreted_by_their_variant() {
    assert!(interpret_create_evaluator_reply(ProblemMessage::CreateEvaluatorReply).is_ok());
    let e = interpret_create_evaluator_reply(ProblemMessage::ErrorReply {
        kind: ErrorKind::Unevaluable,
        message: Some("infeasible".to_string()),
    })
    .unwrap_err();
    assert_eq!(e.kind, ErrorKind::Unevaluable);
    assert_eq!(e.message.as_deref(), Some("infeasible"));
    let e = interpret_create_evaluator_reply(ProblemMessage::DropProblemCast { problem_id: 0 })
        .unwrap_err();
    assert_eq!(e.kind, ErrorKind::Other);

    let (step, values) = interpret_evaluate_reply(ProblemMessage::EvaluateReply {
        current_step: 2,
        values: Values(vec![5]),
    })
    .unwrap();
    assert_eq!(step, 2);
    assert_eq!(values.0, vec![5]);

    let (trial, hint) = interpret_ask_reply(SolverMessage::AskReply {
        trial: kurobako::trial::NextTrial { id: 3, params: Params(vec![]), next_step: None },
        next_trial_id: 4,
    })
    .unwrap();
    assert_eq!(trial.id, 3);
    assert_eq!(hint, 4);
    assert!(interpret_tell_reply(SolverMessage::TellReply).is_ok());

    let spec = kurobako::problem::ProblemSpecBuilder::new("p")
        .value(kurobako::domain::var("v"))
        .finish()
        .unwrap();
    let got = interpret_problem_spec_cast(ProblemMessage::ProblemSpecCast { spec }).unwrap();
    assert_eq!(got.name, "p");
    assert!(
        interpret_problem_spec_cast(ProblemMessage::CreateEvaluatorReply).is_err(),
        "anything but the spec cast violates the launch protocol"
    );
}

#[test]
fn the_scorer_tracks_running_bests_within_budget() {
    let solver_spec = SolverSpecBuilder::new("s").capabilities(Capabilities::all()).finish();
    let problem_spec = kurobako::problem::ProblemSpecBuilder::new("p")
        .value(kurobako::domain::var("v"))
        .finish()
        .unwrap();
    let mut record = StudyRecord::new(
        "{}".to_string(),
        solver_spec,
        "{}".to_string(),
        problem_spec,
        StudyRunnerOptions { budget: 10 },
    );
    for (id, value, cost) in [(0u64, 50i64, 1u64), (1, 30, 1), (2, 40, 1), (3, 30, 1), (4, 10, 1)]
    {
        record.trials.push(TrialRecord {
            trial_id: id,
            ask: AskRecord::new(Params(vec![]), 0, 1),
            evals: vec![EvalRecord::new(value, cost, 1, 2)],
            complete: true,
        });
    }
    record.finish();
    let scorer: Scorer = record.scorer();
    // a trial completes once its accumulated cost reaches the per-trial
    // budget; the very first best is booked at consumption zero
    assert_eq!(scorer.bests, vec![(0, 50), (2, 30), (4, 30), (5, 10)]);
    assert_eq!(scorer.best_value(0), Some(50));
    assert_eq!(scorer.best_value(1), Some(50));
    assert_eq!(scorer.best_value(3), Some(30));
    assert_eq!(scorer.best_value(100), Some(10));

    let (name, version, recipe) = record.solver.id();
    assert_eq!(name, "s");
    assert!(version.is_none());
    assert_eq!(recipe, "{}");
    assert_eq!(record.trial_budget(), 1);
    assert_eq!(record.study_budget(), 10);
    assert_eq!(record.trials[0].value(), Some(50));
    assert_eq!(record.trials[0].end_time(), 2);
    assert_eq!(record.trials[0].ask.latency(), 1);
}

#[test]
fn the_best_observation_of_a_nested_study_only_improves() {
    let problem = kurobako::optuna::OptunaProblem { budget: 3 };
    let mut e = problem.create_evaluator();
    assert!(e.wants_more());
    e.observe(Values(vec![5, 9]), 1);
    assert_eq!(e.best().unwrap().0, vec![5, 9]);
    e.observe(Values(vec![5, 11]), 1);
    assert_eq!(e.best().unwrap().0, vec![5, 9], "a lexicographically larger outcome is ignored");
    e.observe(Values(vec![4, 100]), 1);
    assert_eq!(e.best().unwrap().0, vec![4, 100]);
    assert!(!e.wants_more(), "three rounds consume a budget of three");
}

#[test]
fn channel_errors_are_distinct() {
    assert_ne!(ChannelError::TransportClosed, ChannelError::MalformedMessage);
}
