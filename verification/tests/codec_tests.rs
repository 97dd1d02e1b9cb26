use kurobako::capability::{Capabilities, SolverSpec};
use kurobako::channel::{classify_line, frame_line, MessageReceiver, MessageSender};
use kurobako::codec::{decode_problem_message, decode_solver_message, encode_problem_message, encode_solver_message};
use kurobako::domain::{var, Condition, SCALE};
use kurobako::message::{ProblemMessage, SolverMessage};
use kurobako::problem::ProblemSpecBuilder;
use kurobako::trial::{EvaluatedTrial, NextTrial, Params, Values};
use kurobako::ErrorKind;

fn sample_problem_spec() -> kurobako::problem::ProblemSpec {
    ProblemSpecBuilder::new("quad\"ratic")
        .attr("kind", "demo")
        .param(var("x").continuous(-10 * SCALE, 30 * SCALE))
        .param(var("d").discrete(-2, 7))
        .param(
            var("c")
                .categorical(vec!["low".to_string(), "high".to_string()])
                .condition(Condition::Eq { target: "d".to_string(), value: 3 * SCALE }),
        )
        .param(var("l").continuous(SCALE / 2, 4 * SCALE).log_uniform())
        .value(var("value"))
        .evaluation_steps(10)
        .finish()
        .unwrap()
}

fn roundtrip_problem(m: &ProblemMessage) -> String {
    let text = encode_problem_message(m);
    let back = decode_problem_message(&text).expect("decoding an encoded message");
    let again = encode_problem_message(&back);
    assert_eq!(text, again);
    text
}

fn roundtrip_solver(m: &SolverMessage) -> String {
    let text = encode_solver_message(m);
    let back = decode_solver_message(&text).expect("decoding an encoded message");
    let again = encode_solver_message(&back);
    assert_eq!(text, again);
    text
}

#[test]
fn every_problem_message_round_trips() {
    let spec = sample_problem_spec();
    roundtrip_problem(&ProblemMessage::ProblemSpecCast { spec });
    roundtrip_problem(&ProblemMessage::CreateProblemCast { problem_id: 7, random_seed: 12345 });
    roundtrip_problem(&ProblemMessage::DropProblemCast { problem_id: 7 });
    roundtrip_problem(&ProblemMessage::CreateEvaluatorCall {
        problem_id: 0,
        evaluator_id: 3,
        params: Params(vec![Some(1_500_000), None, Some(-2_000_000)]),
    });
    roundtrip_problem(&ProblemMessage::CreateEvaluatorReply);
    roundtrip_problem(&ProblemMessage::DropEvaluatorCast { problem_id: 0, evaluator_id: 3 });
    roundtrip_problem(&ProblemMessage::EvaluateCall {
        problem_id: 0,
        evaluator_id: 3,
        next_step: 10,
    });
    roundtrip_problem(&ProblemMessage::EvaluateReply {
        current_step: 4,
        values: Values(vec![4_151_720, -7]),
    });
    roundtrip_problem(&ProblemMessage::ErrorReply {
        kind: ErrorKind::Unevaluable,
        message: Some("infeasible \"branch\"".to_string()),
    });
    roundtrip_problem(&ProblemMessage::ErrorReply { kind: ErrorKind::Bug, message: None });
}

#[test]
fn every_solver_message_round_trips() {
    let spec = sample_problem_spec();
    let sspec = SolverSpec {
        name: "Random".to_string(),
        attrs: vec![("version".to_string(), "1".to_string())],
        capabilities: Capabilities::all(),
    };
    roundtrip_solver(&SolverMessage::SolverSpecCast { spec: sspec });
    roundtrip_solver(&SolverMessage::CreateSolverCast {
        solver_id: 1,
        random_seed: 99,
        problem: spec,
    });
    roundtrip_solver(&SolverMessage::DropSolverCast { solver_id: 1 });
    roundtrip_solver(&SolverMessage::AskCall { solver_id: 1, next_trial_id: 5 });
    roundtrip_solver(&SolverMessage::AskReply {
        trial: NextTrial {
            id: 5,
            params: Params(vec![Some(0), Some(2_500_000)]),
            next_step: Some(3),
        },
        next_trial_id: 6,
    });
    roundtrip_solver(&SolverMessage::AskReply {
        trial: NextTrial { id: 5, params: Params(vec![]), next_step: None },
        next_trial_id: 6,
    });
    roundtrip_solver(&SolverMessage::TellCall {
        solver_id: 1,
        trial: EvaluatedTrial { id: 5, values: Some(Values(vec![7])), current_step: 3 },
    });
    roundtrip_solver(&SolverMessage::TellCall {
        solver_id: 1,
        trial: EvaluatedTrial { id: 5, values: None, current_step: 3 },
    });
    roundtrip_solver(&SolverMessage::TellReply);
    roundtrip_solver(&SolverMessage::ErrorReply { kind: ErrorKind::IoError, message: None });
}

#[test]
fn canonical_text_is_plain_json() {
    let text = encode_problem_message(&ProblemMessage::EvaluateCall {
        problem_id: 2,
        evaluator_id: 9,
        next_step: 10,
    });
    assert_eq!(
        text,
        "{\"type\":\"EVALUATE_CALL\",\"problem_id\":2,\"evaluator_id\":9,\"next_step\":10}"
    );
    let v: serde_json::Value = serde_json::from_str(&text).expect("canonical text parses as JSON");
    assert_eq!(v["type"], "EVALUATE_CALL");
    assert_eq!(v["problem_id"], 2);
    assert_eq!(v["next_step"], 10);

    let text = encode_problem_message(&ProblemMessage::EvaluateReply {
        current_step: 1,
        values: Values(vec![1_500_000, -2]),
    });
    let v: serde_json::Value = serde_json::from_str(&text).expect("canonical text parses as JSON");
    assert_eq!(v["current_step"], 1);
    assert!((v["values"][0].as_f64().unwrap() - 1.5).abs() < 1e-9);

    let spec_text = encode_problem_message(&ProblemMessage::ProblemSpecCast {
        spec: sample_problem_spec(),
    });
    let v: serde_json::Value =
        serde_json::from_str(&spec_text).expect("canonical spec text parses as JSON");
    assert_eq!(v["type"], "PROBLEM_SPEC_CAST");
    assert_eq!(v["spec"]["name"], "quad\"ratic");
    assert_eq!(v["spec"]["evaluation_steps"], 10);
    assert_eq!(v["spec"]["params_domain"].as_array().unwrap().len(), 4);
}

#[test]
fn framed_lines_round_trip_and_log_lines_go_to_the_log() {
    let m = ProblemMessage::CreateProblemCast { problem_id: 1, random_seed: 2 };
    let payload = encode_problem_message(&m);
    let line = frame_line(&payload);
    assert!(line.starts_with("kurobako:"));
    assert!(line.ends_with('\n'));
    let stripped = &line[..line.len() - 1];
    let suffix = classify_line(stripped).expect("a tagged line yields its payload");
    assert_eq!(suffix, payload);
    assert!(classify_line("some child chatter").is_none());

    let mut rx = MessageReceiver::new();
    let got = rx.on_problem_line(stripped.to_string());
    match got {
        Some(Ok(back)) => assert_eq!(encode_problem_message(&back), payload),
        _ => panic!("a framed message must parse"),
    }
    assert_eq!(rx.log.len(), 0);

    assert!(rx.on_problem_line("debug: child output".to_string()).is_none());
    assert_eq!(rx.log.len(), 1);
    assert_eq!(rx.log[0], "debug: child output");

    match rx.on_problem_line("kurobako:{not json".to_string()) {
        Some(Err(e)) => assert_eq!(e, kurobako::channel::ChannelError::MalformedMessage),
        _ => panic!("a malformed tagged line is an error, not a log line"),
    }
    assert_eq!(rx.log.len(), 1);

    let mut tx = MessageSender::new();
    tx.send_problem(&m);
    assert_eq!(tx.queued.len(), 1);
    assert_eq!(tx.queued[0], line);
}

#[test]
fn garbage_does_not_decode() {
    assert!(decode_problem_message("").is_none());
    assert!(decode_problem_message("{}").is_none());
    assert!(decode_problem_message("{\"type\":\"NO_SUCH_TYPE\"}").is_none());
    assert!(decode_problem_message("{\"type\":\"EVALUATE_CALL\",\"problem_id\":x}").is_none());
    assert!(decode_solver_message("{\"type\":\"TELL_REPLY\"}junk").is_none());
}
