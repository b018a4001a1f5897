use cfrp_detector::bench::{scenarios, summarize, Figures};

#[test]
fn the_figures_are_those_of_the_samples() {
    assert_eq!(
        summarize(&vec![30, 10, 20], 70),
        Figures { avg_ns: 23, min_ns: 10, max_ns: 30 }
    );
    assert_eq!(summarize(&vec![7], 9), Figures { avg_ns: 9, min_ns: 7, max_ns: 7 });
    assert_eq!(
        summarize(&Vec::new(), 5),
        Figures { avg_ns: 5, min_ns: u128::MAX, max_ns: 0 }
    );
}

#[test]
fn a_quick_measurement_takes_fewer_samples() {
    let full = scenarios(false);
    let quick = scenarios(true);
    let counts = |v: &Vec<cfrp_detector::bench::Scenario>| -> Vec<(usize, usize)> {
        v.iter().map(|s| (s.iterations, s.warmup)).collect()
    };
    assert_eq!(counts(&full), [(50_000, 500), (50_000, 500), (1_000, 100), (50_000, 500), (50_000, 500)]);
    assert_eq!(counts(&quick), [(2_000, 50), (2_000, 50), (40, 10), (2_000, 50), (2_000, 50)]);
    let hints: Vec<u128> = full.iter().map(|s| s.hint_ns).collect();
    assert_eq!(hints, [2500, 180, 450_000, 80, 40]);
    assert_eq!(full[2].name, "connector.PinnedConnector_new_default");
    assert_eq!(quick[3].component, "go-cfrp-detector/internal/config");
}
