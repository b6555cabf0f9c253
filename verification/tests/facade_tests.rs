//! The symbolic layer, determinism, and storage invariance.

use rebop::expr::PExpr;
use rebop::facade::{Gillespie, RateSpec};
use rebop::gillespie::{Gillespie as Engine, Rate};

fn sir_system() -> Gillespie {
    let mut sir = Gillespie::new();
    sir.add_reaction(
        RateSpec::Lma(1e-4f64.to_bits()),
        vec!["S".to_string(), "I".to_string()],
        vec!["I".to_string(), "I".to_string()],
        None,
    )
    .unwrap();
    sir.add_reaction(
        RateSpec::Lma(0.01f64.to_bits()),
        vec!["I".to_string()],
        vec!["R".to_string()],
        None,
    )
    .unwrap();
    sir
}

#[test]
fn facade_sir_conservation() {
    let mut sir = sir_system();
    let warned = sir.set_init(vec![("S".to_string(), 999), ("I".to_string(), 1)]);
    assert!(!warned);
    let (times, vars) = sir
        .run(250.0f64.to_bits(), 250, Vec::new(), Some(0), None, None)
        .unwrap();
    assert_eq!(times.len(), 251);
    assert_eq!(f64::from_bits(times[0]), 0.0);
    assert_eq!(f64::from_bits(times[250]), 250.0);
    let s = &vars.iter().find(|p| p.0 == "S").unwrap().1;
    let i = &vars.iter().find(|p| p.0 == "I").unwrap().1;
    let r = &vars.iter().find(|p| p.0 == "R").unwrap().1;
    for k in 0..=250 {
        assert_eq!(s[k] + i[k] + r[k], 1000);
    }
}

#[test]
fn facade_determinism() {
    let sir = sir_system();
    let mut sys = sir;
    sys.set_init(vec![("S".to_string(), 999), ("I".to_string(), 1)]);
    let out1 = sys
        .run(100.0f64.to_bits(), 100, Vec::new(), Some(42), None, None)
        .unwrap();
    let out2 = sys
        .run(100.0f64.to_bits(), 100, Vec::new(), Some(42), None, None)
        .unwrap();
    assert_eq!(out1.0, out2.0);
    assert_eq!(out1.1, out2.1);
}

#[test]
fn facade_storage_invariance() {
    let mut sys = sir_system();
    sys.set_init(vec![("S".to_string(), 999), ("I".to_string(), 1)]);
    let dense = sys
        .run(100.0f64.to_bits(), 100, Vec::new(), Some(7), Some(false), None)
        .unwrap();
    let sparse = sys
        .run(100.0f64.to_bits(), 100, Vec::new(), Some(7), Some(true), None)
        .unwrap();
    assert_eq!(dense.0, sparse.0);
    assert_eq!(dense.1, sparse.1);
}

#[test]
fn engine_storage_invariance() {
    let mut a = Engine::new_with_seed(&[999, 1, 0], false, 11);
    let mut b = Engine::new_with_seed(&[999, 1, 0], true, 11);
    for g in [&mut a, &mut b] {
        g.add_reaction(Rate::lma(1e-4f64.to_bits(), &[1, 1, 0]), &[-1, 1, 0]);
        g.add_reaction(Rate::lma(0.01f64.to_bits(), &[0, 1, 0]), &[0, -1, 1]);
    }
    for t in 1..=100 {
        a.advance_until((t as f64).to_bits());
        b.advance_until((t as f64).to_bits());
        assert_eq!(a.get_time(), b.get_time());
        for s in 0..3 {
            assert_eq!(a.get_species(s), b.get_species(s));
        }
    }
}

#[test]
fn engine_determinism() {
    let mut a = Engine::new_with_seed(&[100, 0], false, 3);
    let mut b = Engine::new_with_seed(&[100, 0], false, 3);
    for g in [&mut a, &mut b] {
        g.add_reaction(Rate::lma(1.0f64.to_bits(), &[1, 0]), &[-1, 1]);
        g.add_reaction(Rate::lma(0.5f64.to_bits(), &[0, 1]), &[1, -1]);
    }
    for _ in 0..200 {
        a.advance_one_reaction();
        b.advance_one_reaction();
        assert_eq!(a.get_time(), b.get_time());
        assert_eq!(a.get_species(0), b.get_species(0));
        assert_eq!(a.get_species(1), b.get_species(1));
    }
}

#[test]
fn cloned_engine_follows_the_same_trajectory() {
    let mut a = Engine::new_with_seed(&[100, 0], false, 21);
    a.add_reaction(Rate::lma(1.0f64.to_bits(), &[1, 0]), &[-1, 1]);
    let mut b = a.clone();
    for _ in 0..50 {
        a.advance_one_reaction();
        b.advance_one_reaction();
        assert_eq!(a.get_time(), b.get_time());
        assert_eq!(a.get_species(0), b.get_species(0));
    }
}

#[test]
fn different_seeds_give_different_trajectories() {
    let mut a = Engine::new_with_seed(&[0], false, 1);
    let mut b = Engine::new_with_seed(&[0], false, 2);
    for g in [&mut a, &mut b] {
        g.add_reaction(Rate::lma(10.0f64.to_bits(), &[0]), &[1]);
    }
    a.advance_one_reaction();
    b.advance_one_reaction();
    assert_ne!(a.get_time(), b.get_time());
}

#[test]
fn zero_propensity_clamps_to_horizon() {
    let mut g = Engine::new(&[0], false);
    g.add_reaction(Rate::lma(10.0f64.to_bits(), &[1]), &[1]);
    g.advance_until(100.0f64.to_bits());
    assert_eq!(f64::from_bits(g.get_time()), 100.0);
    assert_eq!(g.get_species(0), 0);
}

#[test]
fn monotone_time_one_reaction_steps() {
    let mut g = Engine::new_with_seed(&[50, 0], false, 9);
    g.add_reaction(Rate::lma(1.0f64.to_bits(), &[1, 0]), &[-1, 1]);
    let mut last = f64::from_bits(g.get_time());
    for _ in 0..80 {
        g.advance_one_reaction();
        let now = f64::from_bits(g.get_time());
        assert!(last <= now);
        last = now;
    }
}

#[test]
fn expression_rate_runs() {
    let mut sys = Gillespie::new();
    sys.add_reaction(
        RateSpec::Expr("k * S".to_string()),
        vec!["S".to_string()],
        vec![],
        None,
    )
    .unwrap();
    sys.set_init(vec![("S".to_string(), 1000)]);
    let params = vec![("k".to_string(), 2.0f64.to_bits())];
    let (times, vars) = sys
        .run(10.0f64.to_bits(), 10, params, Some(1), None, None)
        .unwrap();
    assert_eq!(times.len(), 11);
    let s = &vars.iter().find(|p| p.0 == "S").unwrap().1;
    assert_eq!(s[0], 1000);
    // decay at rate 2 per individual: essentially everything is gone
    assert!(s[10] < 10);
}

#[test]
fn parse_error_is_reported() {
    let mut sys = Gillespie::new();
    let r = sys.add_reaction(
        RateSpec::Expr("+".to_string()),
        vec!["A".to_string()],
        vec![],
        None,
    );
    assert!(r.is_err());
}

#[test]
fn unbound_parameter_is_reported() {
    let mut sys = Gillespie::new();
    sys.add_reaction(
        RateSpec::Expr("missing * A".to_string()),
        vec!["A".to_string()],
        vec![],
        None,
    )
    .unwrap();
    sys.set_init(vec![("A".to_string(), 5)]);
    let r = sys.run(1.0f64.to_bits(), 1, Vec::new(), Some(0), None, None);
    assert!(r.is_err());
}

#[test]
fn species_cannot_be_parameter() {
    let mut sys = Gillespie::new();
    sys.add_reaction(
        RateSpec::Lma(1.0f64.to_bits()),
        vec!["A".to_string()],
        vec![],
        None,
    )
    .unwrap();
    let params = vec![("A".to_string(), 1.0f64.to_bits())];
    let r = sys.run(1.0f64.to_bits(), 1, params, Some(0), None, None);
    assert!(r.is_err());
}

#[test]
fn set_init_warns_on_unknown_species() {
    let mut sys = Gillespie::new();
    sys.add_reaction(
        RateSpec::Lma(1.0f64.to_bits()),
        vec!["A".to_string()],
        vec![],
        None,
    )
    .unwrap();
    let warned = sys.set_init(vec![("B".to_string(), 3)]);
    assert!(warned);
    assert_eq!(sys.nb_species(), 2);
}

#[test]
fn reverse_rate_registers_mirror_reaction() {
    let mut sys = Gillespie::new();
    sys.add_reaction(
        RateSpec::Lma(1.0f64.to_bits()),
        vec!["A".to_string()],
        vec!["B".to_string()],
        Some(RateSpec::Lma(2.0f64.to_bits())),
    )
    .unwrap();
    assert_eq!(sys.nb_reactions(), 2);
}

#[test]
fn summary_text() {
    let mut sys = Gillespie::new();
    sys.add_reaction(
        RateSpec::Lma(1e-4f64.to_bits()),
        vec!["S".to_string(), "I".to_string()],
        vec!["I".to_string(), "I".to_string()],
        None,
    )
    .unwrap();
    sys.add_reaction(
        RateSpec::Lma(0.01f64.to_bits()),
        vec!["I".to_string()],
        vec!["R".to_string()],
        None,
    )
    .unwrap();
    let text = sys.to_text().unwrap();
    assert_eq!(
        text,
        "3 species and 2 reactions\nS + I --> I + I @ LMA(0.0001)\nI --> R @ LMA(0.01)\n"
    );
}

#[test]
fn exponential_node_evaluates() {
    let pe: PExpr = "exp(1)".parse().unwrap();
    let e = pe.to_expr(&Vec::new(), &Vec::new()).unwrap();
    let v = f64::from_bits(e.eval(&Vec::new()));
    assert!(v > 2.718281828);
    assert!(v < 2.718281829);
}

#[test]
fn stepwise_trace_ends_at_or_after_horizon() {
    let mut sys = Gillespie::new();
    sys.add_reaction(
        RateSpec::Lma(1.0f64.to_bits()),
        vec!["A".to_string()],
        vec![],
        None,
    )
    .unwrap();
    sys.set_init(vec![("A".to_string(), 100)]);
    let (times, vars) = sys
        .run(2.0f64.to_bits(), 0, Vec::new(), Some(5), None, None)
        .unwrap();
    assert!(times.len() >= 2);
    assert_eq!(f64::from_bits(times[0]), 0.0);
    let a = &vars.iter().find(|p| p.0 == "A").unwrap().1;
    assert_eq!(a.len(), times.len());
    assert_eq!(a[0], 100);
    // every step is one reaction; the last recorded time is the first
    // at or past the horizon
    for k in 1..times.len() {
        assert!(f64::from_bits(times[k - 1]) <= f64::from_bits(times[k]));
        assert_eq!(a[k - 1] - a[k], 1);
    }
    assert!(f64::from_bits(times[times.len() - 1]) >= 2.0);
    assert!(f64::from_bits(times[times.len() - 2]) < 2.0);
}

#[test]
fn uniform_grid_times() {
    let mut sys = Gillespie::new();
    sys.add_reaction(
        RateSpec::Lma(1.0f64.to_bits()),
        vec!["A".to_string()],
        vec![],
        None,
    )
    .unwrap();
    sys.set_init(vec![("A".to_string(), 10)]);
    let (times, _) = sys
        .run(5.0f64.to_bits(), 10, Vec::new(), Some(0), None, None)
        .unwrap();
    for i in 0..=10 {
        assert_eq!(f64::from_bits(times[i]), 5.0 * i as f64 / 10.0);
    }
}
