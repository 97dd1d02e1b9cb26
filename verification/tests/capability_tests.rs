use kurobako::capability::{Capabilities, Capability, SolverSpecBuilder};
use kurobako::domain::{var, SCALE};
use kurobako::problem::ProblemSpecBuilder;

#[test]
fn capability_set_operations() {
    let all = Capabilities::all();
    let empty = Capabilities::empty();
    assert!(empty.is_empty());
    assert!(!all.is_empty());
    assert!(all.is_superset(&empty));
    assert!(!empty.is_superset(&all));
    assert_eq!(all.iter().len(), 7);
    assert_eq!(empty.iter().len(), 0);

    let some = Capabilities::empty().categorical().conditional();
    assert!(some.contains(Capability::Categorical));
    assert!(!some.contains(Capability::UniformContinuous));
    let missing = some.incapables(&all);
    assert!(missing.contains(Capability::UniformContinuous));
    assert!(!missing.contains(Capability::Categorical));

    let mut shrunk = some;
    shrunk.remove(Capability::Categorical);
    assert!(!shrunk.contains(Capability::Categorical));
    assert!(shrunk.contains(Capability::Conditional));

    let joined = Capabilities::empty().categorical().union(Capabilities::empty().conditional());
    assert!(joined.contains(Capability::Categorical));
    assert!(joined.contains(Capability::Conditional));
}

#[test]
fn one_log_uniform_param_and_two_values_require_exactly_two_capabilities() {
    let spec = ProblemSpecBuilder::new("p")
        .param(var("x").continuous(SCALE, 10 * SCALE).log_uniform())
        .value(var("v1"))
        .value(var("v2"))
        .finish()
        .unwrap();
    let req = spec.requirements();
    assert!(req.contains(Capability::LogUniformContinuous));
    assert!(req.contains(Capability::MultiObjective));
    assert!(!req.contains(Capability::UniformContinuous));
    assert!(!req.contains(Capability::UniformDiscrete));
    assert!(!req.contains(Capability::LogUniformDiscrete));
    assert!(!req.contains(Capability::Categorical));
    assert!(!req.contains(Capability::Conditional));
    assert_eq!(req.iter().len(), 2);
}

#[test]
fn solver_spec_builder_collects_capabilities() {
    let spec = SolverSpecBuilder::new("mysolver")
        .attr("version", "1")
        .capable(Capability::UniformContinuous)
        .capable(Capability::Categorical)
        .finish();
    assert_eq!(spec.name, "mysolver");
    assert!(spec.capabilities.contains(Capability::UniformContinuous));
    assert!(spec.capabilities.contains(Capability::Categorical));
    assert!(!spec.capabilities.contains(Capability::Conditional));
}
