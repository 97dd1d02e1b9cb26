use kurobako::domain::{
    var, Condition, Distribution, Domain, Range, VariableBuilder, SCALE,
};

#[test]
fn continuous_empty_range_is_rejected() {
    let b = var("x").continuous(5 * SCALE, 5 * SCALE);
    assert!(b.finish().is_err());
    let b = var("x").continuous(7 * SCALE, 2 * SCALE);
    assert!(b.finish().is_err());
}

#[test]
fn log_uniform_needs_positive_range() {
    let b = var("x").continuous(0, 10 * SCALE).log_uniform();
    assert!(b.finish().is_err());
    let b = var("x").discrete(-3, 10).log_uniform();
    assert!(b.finish().is_err());
    let b = var("x").continuous(1, 10 * SCALE).log_uniform();
    assert!(b.finish().is_ok());
}

#[test]
fn categorical_needs_choices() {
    let b = var("x").categorical(Vec::new());
    assert!(b.finish().is_err());
    let b = var("x").categorical(vec!["a".to_string(), "b".to_string()]);
    assert!(b.finish().is_ok());
}

#[test]
fn evaluation_steps_zero_is_rejected() {
    let b = kurobako::problem::ProblemSpecBuilder::new("p")
        .param(var("x").continuous(0, SCALE))
        .value(var("v"))
        .evaluation_steps(0);
    assert!(b.finish().is_err());
    let b = kurobako::problem::ProblemSpecBuilder::new("p")
        .param(var("x").continuous(0, SCALE))
        .value(var("v"))
        .evaluation_steps(1);
    assert!(b.finish().is_ok());
}

#[test]
fn conditions_must_name_an_earlier_variable_whose_range_has_the_value() {
    // a valid condition: `b` is gated on `a == 0`
    let vars = vec![
        var("a").categorical(vec!["p".to_string(), "q".to_string()]),
        var("b").continuous(0, SCALE).condition(Condition::Eq {
            target: "a".to_string(),
            value: 0,
        }),
    ];
    assert!(Domain::new(vars).is_ok());

    // the target does not exist
    let vars = vec![
        var("a").categorical(vec!["p".to_string(), "q".to_string()]),
        var("b").continuous(0, SCALE).condition(Condition::Eq {
            target: "zzz".to_string(),
            value: 0,
        }),
    ];
    assert!(Domain::new(vars).is_err());

    // the target is declared later, not earlier
    let vars = vec![
        var("b").continuous(0, SCALE).condition(Condition::Eq {
            target: "a".to_string(),
            value: 0,
        }),
        var("a").categorical(vec!["p".to_string(), "q".to_string()]),
    ];
    assert!(Domain::new(vars).is_err());

    // the value lies outside the target's range
    let vars = vec![
        var("a").categorical(vec!["p".to_string(), "q".to_string()]),
        var("b").continuous(0, SCALE).condition(Condition::Eq {
            target: "a".to_string(),
            value: 5 * SCALE,
        }),
    ];
    assert!(Domain::new(vars).is_err());
}

#[test]
fn duplicate_names_are_rejected() {
    let vars = vec![var("x").continuous(0, SCALE), var("x").discrete(0, 5)];
    assert!(Domain::new(vars).is_err());
}

#[test]
fn range_contains_scales_discrete_and_categorical_values() {
    let r = Range::Continuous { low: -SCALE, high: SCALE };
    assert!(r.contains(0));
    assert!(r.contains(-SCALE));
    assert!(!r.contains(SCALE));

    let r = Range::Discrete { low: -2, high: 3 };
    assert!(r.contains(-2 * SCALE));
    assert!(r.contains(2 * SCALE));
    assert!(!r.contains(3 * SCALE));

    let r = Range::Categorical { choices: vec!["a".to_string(), "b".to_string()] };
    assert!(r.contains(0));
    assert!(r.contains(SCALE));
    assert!(!r.contains(2 * SCALE));
}

#[test]
fn builder_keeps_fields() {
    let v = var("name").discrete(1, 9).log_uniform().finish().unwrap();
    assert_eq!(v.name(), "name");
    assert_eq!(v.distribution(), Distribution::LogUniform);
    assert!(matches!(v.range(), Range::Discrete { low: 1, high: 9 }));
    assert!(v.conditions().is_empty());
    let b = VariableBuilder::new("flag").boolean().finish().unwrap();
    match b.range() {
        Range::Categorical { choices } => {
            assert_eq!(choices.len(), 2);
            assert_eq!(choices[0], "false");
            assert_eq!(choices[1], "true");
        }
        _ => panic!("boolean should be categorical"),
    }
}
