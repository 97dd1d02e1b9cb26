use kurobako::bench::AckleyProblem;
use kurobako::domain::{Range, SCALE};

#[test]
fn ackley_works() {
    let p = AckleyProblem { dim: 2 };
    // the search space the library declares for the Ackley benchmark
    let space = p.problem_space();
    assert_eq!(space.distributions().len(), 2);
    for r in space.distributions() {
        match r {
            Range::Continuous { low, high } => {
                assert_eq!(*low, -10 * SCALE);
                assert_eq!(*high, 30 * SCALE);
            }
            _ => panic!("the Ackley space is continuous"),
        }
    }
    // the objective formula itself needs real arithmetic and runs outside
    // the verified core; this mirrors it at the benchmark's reference point
    let xs: [f64; 2] = [-0.991579880560538, 0.7860986559165095];
    let dim = p.dim as f64;
    let a = 20.0;
    let b = 0.2;
    let c = 2.0 * std::f64::consts::PI;
    let d = -a * (-b * (1.0 / dim * xs.iter().map(|&x| x.powi(2)).sum::<f64>()).sqrt()).exp();
    let e = (1.0 / dim * xs.iter().map(|&x| (x * c).cos()).sum::<f64>()).exp();
    let f = a + 1f64.exp();
    let v = d - e + f;
    assert_eq!(v, 4.151720074504926);
}

#[test]
fn the_sphere_problem_matches_its_specification() {
    let recipe = kurobako::sphere::SphereProblemRecipe { dim: 2, evaluation_steps: 3 };
    let spec = recipe.specification().unwrap();
    assert_eq!(spec.name, "sphere");
    assert_eq!(spec.evaluation_steps, 3);
    assert_eq!(spec.params_domain.0.len(), 2);
    let problem = recipe.create_problem(1);
    let mut e = problem.create_evaluator(kurobako::trial::Params(vec![
        Some(2 * SCALE),
        Some(-3 * SCALE),
    ]));
    let (cur, values) = e.evaluate(3);
    assert_eq!(cur, 3);
    // 2^2 + (-3)^2 = 13 units
    assert_eq!(values.0, vec![13 * SCALE]);
    // the value is a function of the parameters alone: asking again at the
    // same fidelity reports the same value and the same step
    let (cur2, values2) = e.evaluate(3);
    assert_eq!((cur2, values2.0), (3, vec![13 * SCALE]));
}
