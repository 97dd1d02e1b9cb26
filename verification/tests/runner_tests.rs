use kurobako::capability::Capabilities;
use kurobako::rng::StudyRng;
use kurobako::runner::{RunnerError, StepOutcome, StudyRunnerOptions, StudyState};
use kurobako::solver::{KurobakoSolver, KurobakoSolverRecipe};
use kurobako::random::RandomSolverRecipe;
use kurobako::sphere::{SphereProblemRecipe};
use kurobako::trial::IdGen;

#[test]
fn a_study_of_budget_three_runs_exactly_three_full_trials() {
    let recipe = SphereProblemRecipe { dim: 1, evaluation_steps: 1 };
    let spec = recipe.specification().unwrap();
    let options = StudyRunnerOptions { budget: 3 };
    let mut state = StudyState::start(&Capabilities::all(), &spec, &options).unwrap();
    let problem = recipe.create_problem(42);
    let mut solver = KurobakoSolverRecipe::Random(RandomSolverRecipe { ask_all_steps: false })
        .create_solver(StudyRng::seed_from(42), &spec);
    let mut idg = IdGen::new();
    let mut seen = Vec::new();
    while state.should_continue() {
        let trial = match &mut solver {
            KurobakoSolver::Random(s) => s.ask(&mut idg).unwrap(),
        };
        let target = state.target_step(&trial);
        let mut evaluator = problem.create_evaluator(trial.params.clone());
        let (cur, values) = evaluator.evaluate(target);
        match state.on_evaluated(trial.id, cur).unwrap() {
            StepOutcome::Advanced { delta } => assert_eq!(delta, 1),
            StepOutcome::NoProgress => panic!("the sphere always advances"),
        }
        let evaluated = kurobako::trial::EvaluatedTrial {
            id: trial.id,
            values: Some(values),
            current_step: cur,
        };
        match &mut solver {
            KurobakoSolver::Random(s) => s.tell(&evaluated).unwrap(),
        }
        seen.push((trial.id, cur));
    }
    assert_eq!(seen, vec![(0, 1), (1, 1), (2, 1)]);
    assert_eq!(state.consumed_steps, 3);
    assert!(state.consumed_steps <= options.budget + spec.evaluation_steps);
}

#[test]
fn a_solver_without_the_required_capability_is_rejected() {
    let spec = kurobako::problem::ProblemSpecBuilder::new("p")
        .param(kurobako::domain::var("c").categorical(vec!["a".to_string(), "b".to_string()]))
        .value(kurobako::domain::var("v"))
        .finish()
        .unwrap();
    let caps = Capabilities::empty().uniform_continuous();
    let r = StudyState::start(&caps, &spec, &StudyRunnerOptions { budget: 10 });
    assert_eq!(r.unwrap_err(), RunnerError::CapabilityMismatch);
    assert!(StudyState::start(&Capabilities::all(), &spec, &StudyRunnerOptions { budget: 10 })
        .is_ok());
}

#[test]
fn reasking_a_trial_charges_only_the_step_difference() {
    let recipe = SphereProblemRecipe { dim: 2, evaluation_steps: 5 };
    let spec = recipe.specification().unwrap();
    let mut state =
        StudyState::start(&Capabilities::all(), &spec, &StudyRunnerOptions { budget: 10 })
            .unwrap();
    let problem = recipe.create_problem(7);
    let mut evaluator =
        problem.create_evaluator(kurobako::trial::Params(vec![Some(1_000_000), Some(0)]));

    let (cur, _) = evaluator.evaluate(1);
    assert_eq!(cur, 1);
    match state.on_evaluated(0, cur).unwrap() {
        StepOutcome::Advanced { delta } => assert_eq!(delta, 1),
        _ => panic!(),
    }
    let (cur, _) = evaluator.evaluate(3);
    assert_eq!(cur, 3);
    match state.on_evaluated(0, cur).unwrap() {
        StepOutcome::Advanced { delta } => assert_eq!(delta, 2),
        _ => panic!(),
    }
    assert_eq!(state.consumed_steps, 3);
    assert_eq!(state.last_step_of(0), Some(3));

    // the same step again makes no progress: the trial is dropped
    match state.on_evaluated(0, 3).unwrap() {
        StepOutcome::NoProgress => {}
        _ => panic!(),
    }
    assert_eq!(state.last_step_of(0), None);
    assert_eq!(state.unevaluable_trials, 1);

    // a reply that runs backwards is a protocol violation
    state.on_evaluated(1, 4).unwrap();
    assert_eq!(state.on_evaluated(1, 2).unwrap_err(), RunnerError::ProtocolViolation);
    // and so is one beyond the problem's fidelity
    assert_eq!(state.on_evaluated(2, 6).unwrap_err(), RunnerError::ProtocolViolation);
}

#[test]
fn equal_seeds_replay_equal_studies() {
    let recipe = SphereProblemRecipe { dim: 3, evaluation_steps: 1 };
    let spec = recipe.specification().unwrap();
    let mut outcomes = Vec::new();
    for _ in 0..2 {
        let mut solver = KurobakoSolverRecipe::Random(RandomSolverRecipe { ask_all_steps: false })
            .create_solver(StudyRng::seed_from(2024), &spec);
        let problem = recipe.create_problem(2024);
        let mut idg = IdGen::new();
        let mut run = Vec::new();
        for _ in 0..4 {
            let trial = match &mut solver {
                KurobakoSolver::Random(s) => s.ask(&mut idg).unwrap(),
            };
            let mut evaluator = problem.create_evaluator(trial.params.clone());
            let (cur, values) = evaluator.evaluate(1);
            run.push((trial.id, trial.params.0.clone(), cur, values.0.clone()));
        }
        outcomes.push(run);
    }
    assert_eq!(outcomes[0], outcomes[1]);
}

#[test]
fn random_params_respect_ranges_and_conditions() {
    let spec = kurobako::problem::ProblemSpecBuilder::new("p")
        .param(kurobako::domain::var("a").categorical(vec!["p".to_string(), "q".to_string()]))
        .param(
            kurobako::domain::var("b")
                .continuous(0, kurobako::domain::SCALE)
                .condition(kurobako::domain::Condition::Eq { target: "a".to_string(), value: 0 }),
        )
        .param(kurobako::domain::var("d").discrete(-5, 5))
        .value(kurobako::domain::var("v"))
        .finish()
        .unwrap();
    let mut solver = kurobako::random::RandomSolverFactory { ask_all_steps: false }
        .create_solver(StudyRng::seed_from(7), &spec);
    let mut idg = IdGen::new();
    for _ in 0..50 {
        let t = solver.ask(&mut idg).unwrap();
        let p = &t.params.0;
        assert_eq!(p.len(), 3);
        let a = p[0].unwrap();
        assert!(a == 0 || a == kurobako::domain::SCALE);
        match p[1] {
            Some(b) => {
                assert_eq!(a, 0, "b may only be active when a is the first choice");
                assert!(0 <= b && b < kurobako::domain::SCALE);
            }
            None => assert_ne!(a, 0, "b must be active when a is the first choice"),
        }
        let d = p[2].unwrap();
        assert!(d % kurobako::domain::SCALE == 0);
        assert!(-5 * kurobako::domain::SCALE <= d && d < 5 * kurobako::domain::SCALE);
    }
}

#[test]
fn an_exhausted_step_ladder_is_an_error() {
    let recipe = SphereProblemRecipe { dim: 1, evaluation_steps: 2 };
    let spec = recipe.specification().unwrap();
    let mut solver = kurobako::random::RandomSolverFactory { ask_all_steps: true }
        .create_solver(StudyRng::seed_from(3), &spec);
    let mut idg = IdGen::new();
    // step tracking starts at zero: the first asks climb the ladder
    let t = solver.ask(&mut idg).unwrap();
    assert_eq!(t.next_step, Some(1));
    solver
        .tell(&kurobako::trial::EvaluatedTrial { id: t.id, values: None, current_step: 1 })
        .unwrap();
    let t = solver.ask(&mut idg).unwrap();
    assert_eq!(t.next_step, Some(2));
    solver
        .tell(&kurobako::trial::EvaluatedTrial { id: t.id, values: None, current_step: 2 })
        .unwrap();
    // the last told step reached the problem's fidelity: no step remains
    assert_eq!(solver.ask(&mut idg).unwrap_err(), kurobako::ErrorKind::Bug);
    // without tracking the solver always asks for a full evaluation
    let mut solver = kurobako::random::RandomSolverFactory { ask_all_steps: false }
        .create_solver(StudyRng::seed_from(3), &spec);
    let t = solver.ask(&mut idg).unwrap();
    assert_eq!(t.next_step, None);
}
