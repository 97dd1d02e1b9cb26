use kurobako::domain::{var, Range, SCALE};
use kurobako::filters::{
    DiscreteToContinuousFilterRecipe, GaussianNoiseFilterRecipe, OneHotEncodingFilter,
    OneHotEncodingFilterRecipe,
};
use kurobako::stats::{OptimizerStats, ProblemStats, Stats, StatsSummary};
use kurobako::problem::ProblemSpecBuilder;
use kurobako::rng::StudyRng;
use kurobako::stats::{isqrt_u64, BasicStats};
use kurobako::trial::{EvaluatedTrial, NextTrial, Params, Values};

#[test]
fn discrete_params_relax_to_continuous_and_round_back() {
    let spec = ProblemSpecBuilder::new("p")
        .param(var("x").continuous(0, SCALE))
        .param(var("d").discrete(-2, 7))
        .value(var("v"))
        .finish()
        .unwrap();
    let mut filter = DiscreteToContinuousFilterRecipe {}.create_filter();
    let relaxed = filter.filter_problem_spec(spec);
    match relaxed.params_domain.0[1].range() {
        Range::Continuous { low, high } => {
            assert_eq!(*low, -2 * SCALE);
            assert_eq!(*high, 7 * SCALE);
        }
        _ => panic!("the discrete variable must have become continuous"),
    }
    assert!(matches!(relaxed.params_domain.0[0].range(), Range::Continuous { .. }));

    let trial = NextTrial {
        id: 9,
        params: Params(vec![Some(123_456), Some(3_700_000)]),
        next_step: None,
    };
    let out = filter.filter_ask(trial);
    assert_eq!(out.params.0[0], Some(123_456));
    assert_eq!(out.params.0[1], Some(3_000_000), "relaxed entries round to the unit grid");

    let evaluated = EvaluatedTrial { id: 9, values: None, current_step: 1 };
    let originals = filter.filter_tell(&evaluated).unwrap();
    assert_eq!(originals.0, vec![Some(123_456), Some(3_700_000)]);
    assert!(filter.filter_tell(&evaluated).is_err(), "the side map is cleared on tell");
}

#[test]
fn one_hot_blocks_fold_to_the_strongest_indicator() {
    let params = Params(vec![Some(100), Some(900_000), Some(500), Some(7)]);
    let folded = OneHotEncodingFilter::fold_block(&params, 0, 3);
    assert_eq!(folded, SCALE, "the second indicator wins, so the choice index is one");

    let mut filter = OneHotEncodingFilterRecipe {}.create_filter();
    let trial = NextTrial { id: 4, params, next_step: Some(2) };
    let blocks = vec![(0u64, 3u64)];
    let out = filter.filter_ask(trial, &blocks);
    assert_eq!(out.params.0[0], Some(SCALE));
    assert_eq!(out.params.0[1], None);
    assert_eq!(out.params.0[2], None);
    assert_eq!(out.params.0[3], Some(7));

    let evaluated = EvaluatedTrial { id: 4, values: None, current_step: 1 };
    let originals = filter.filter_tell(&evaluated).unwrap();
    assert_eq!(originals.0.len(), 4);
    assert_eq!(originals.0[1], Some(900_000));
}

#[test]
fn gaussian_noise_keeps_the_first_observation_and_bounds_later_ones() {
    let mut filter = GaussianNoiseFilterRecipe { level: SCALE / 10 }.create_filter();
    let mut rng = StudyRng::seed_from(5);
    let first = filter.filter_tell(&mut rng, &Values(vec![10 * SCALE, -3 * SCALE]));
    assert_eq!(first.0, vec![10 * SCALE, -3 * SCALE], "the first tell is not perturbed");
    assert_eq!(filter.values_domain.len(), 2);

    let second = filter.filter_tell(&mut rng, &Values(vec![12 * SCALE, -5 * SCALE]));
    assert_eq!(second.0.len(), 2);
    assert_eq!(filter.values_domain[0], (10 * SCALE, 12 * SCALE));
    assert_eq!(filter.values_domain[1], (-5 * SCALE, -3 * SCALE));
    // width 2 units, level a tenth: the noise stays within 6 * 0.2 units
    let noise = (second.0[0] - 12 * SCALE).abs();
    assert!(noise <= 2 * SCALE / 10 * 6);

    // a zero level leaves every later observation exactly unchanged
    let mut quiet = GaussianNoiseFilterRecipe { level: 0 }.create_filter();
    let mut rng = StudyRng::seed_from(9);
    let _ = quiet.filter_tell(&mut rng, &Values(vec![5 * SCALE]));
    let again = quiet.filter_tell(&mut rng, &Values(vec![7 * SCALE]));
    assert_eq!(again.0, vec![7 * SCALE]);
    assert_eq!(quiet.values_domain[0], (5 * SCALE, 7 * SCALE));
}

#[test]
fn integer_square_root_is_exact() {
    assert_eq!(isqrt_u64(0), 0);
    assert_eq!(isqrt_u64(1), 1);
    assert_eq!(isqrt_u64(3), 1);
    assert_eq!(isqrt_u64(4), 2);
    assert_eq!(isqrt_u64(999_999), 999);
    assert_eq!(isqrt_u64(1_000_000), 1000);
    assert_eq!(isqrt_u64(u64::MAX), 4_294_967_295);
}

#[test]
fn basic_stats_mean_is_exact() {
    let s = BasicStats::new(&vec![1_000_000, 2_000_000, 3_000_000]);
    assert_eq!(s.avg, 2_000_000);
    assert!(s.sd >= 0);
    let s = BasicStats::new(&vec![-3, -4]);
    assert_eq!(s.avg, -3, "the mean truncates toward zero");
}

#[test]
fn one_hot_expands_categorical_variables_into_indicators() {
    let spec = ProblemSpecBuilder::new("p")
        .param(var("x").continuous(0, SCALE))
        .param(var("c").categorical(vec!["a".to_string(), "b".to_string(), "z".to_string()]))
        .param(var("d").discrete(0, 4))
        .value(var("v"))
        .finish()
        .unwrap();
    let mut filter = OneHotEncodingFilterRecipe {}.create_filter();
    let (expanded, blocks) = filter.filter_problem_spec(spec);
    let vars = &expanded.params_domain.0;
    assert_eq!(vars.len(), 5, "one plain var, three indicators, one plain var");
    assert_eq!(vars[0].name(), "x");
    assert_eq!(vars[1].name(), "c_0");
    assert_eq!(vars[2].name(), "c_1");
    assert_eq!(vars[3].name(), "c_2");
    assert_eq!(vars[4].name(), "d");
    assert!(matches!(vars[1].range(), Range::Continuous { low: 0, high } if *high == SCALE));
    assert_eq!(blocks, vec![(1u64, 3u64)]);

    // entries outside the block pass through; the block folds to its winner
    let trial = NextTrial {
        id: 11,
        params: Params(vec![Some(7), Some(10), Some(999_000), Some(500), Some(2 * SCALE)]),
        next_step: None,
    };
    let out = filter.filter_ask(trial, &blocks);
    assert_eq!(out.params.0[0], Some(7));
    assert_eq!(out.params.0[1], Some(SCALE), "the middle indicator wins: choice index one");
    assert_eq!(out.params.0[2], None);
    assert_eq!(out.params.0[3], None);
    assert_eq!(out.params.0[4], Some(2 * SCALE));
}

#[test]
fn the_summary_tallies_every_measure() {
    let problem = ProblemStats {
        problem: "p".to_string(),
        version: None,
        recipe: "{}".to_string(),
        optimizers: vec![
            OptimizerStats {
                optimizer: "alpha".to_string(),
                best_score: BasicStats { avg: 1, sd: 0 },
                auc: BasicStats { avg: 5, sd: 0 },
                latency: BasicStats { avg: 9, sd: 0 },
            },
            OptimizerStats {
                optimizer: "beta".to_string(),
                best_score: BasicStats { avg: 2, sd: 0 },
                auc: BasicStats { avg: 4, sd: 0 },
                latency: BasicStats { avg: 3, sd: 0 },
            },
        ],
    };
    let summary = StatsSummary::new(&Stats(vec![problem]));
    assert_eq!(summary.0.len(), 2);
    let alpha = &summary.0[0];
    assert_eq!(alpha.name, "alpha");
    // the lowest best-score average counts as the worst, the highest as the
    // best; for latency the orientation flips
    assert_eq!((alpha.best_score.bests, alpha.best_score.worsts), (0, 1));
    assert_eq!((alpha.auc.bests, alpha.auc.worsts), (1, 0));
    assert_eq!((alpha.latency.bests, alpha.latency.worsts), (0, 1));
    let beta = &summary.0[1];
    assert_eq!((beta.best_score.bests, beta.best_score.worsts), (1, 0));
    assert_eq!((beta.auc.bests, beta.auc.worsts), (0, 1));
    assert_eq!((beta.latency.bests, beta.latency.worsts), (1, 0));
    let table = summary.write_markdown();
    assert!(table.contains("alpha"));
    assert!(table.contains("AUC"));
}
