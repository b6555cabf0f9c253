use rebop::expr::Expr;
use rebop::gillespie::{Gillespie, Jump, Rate};

#[test]
fn rate_conversion() {
    let rate = Rate::lma(2.0f64.to_bits(), &[3]);
    assert_eq!(rate.clone().dense(), rate);
    assert_eq!(rate.clone().sparse(), Rate::lma_sparse(2.0f64.to_bits(), &[(0, 3)]));
    assert_eq!(rate.clone().sparse().dense(), rate);
    let rate = Rate::lma_sparse(2.0f64.to_bits(), &[(0, 1), (3, 2)]);
    assert_eq!(rate.clone().sparse(), rate);
    assert_eq!(rate.clone().dense(), Rate::lma(2.0f64.to_bits(), &[1, 0, 0, 2]));
    assert_eq!(rate.clone().dense().sparse(), rate);
    let rate = Rate::expr(Expr::Constant(4.1f64.to_bits()));
    assert_eq!(rate.clone().dense(), rate);
    assert_eq!(rate.clone().sparse(), rate);
}

#[test]
fn rate_sparse() {
    let rate = Rate::lma(2.0f64.to_bits(), &[3]);
    assert_eq!(rate.sparse(), Rate::LMASparse(2.0f64.to_bits(), vec![(0, 3)]));
    let rate = Rate::lma(2.0f64.to_bits(), &[0, 3]);
    assert_eq!(rate.sparse(), Rate::LMASparse(2.0f64.to_bits(), vec![(1, 3)]));
    let rate = Rate::lma(2.0f64.to_bits(), &[0, 3, 0]);
    assert_eq!(rate.sparse(), Rate::LMASparse(2.0f64.to_bits(), vec![(1, 3)]));
    let rate = Rate::lma(2.0f64.to_bits(), &[0, 3, 0, 1, 0, 0]);
    assert_eq!(rate.sparse(), Rate::LMASparse(2.0f64.to_bits(), vec![(1, 3), (3, 1)]));
}

#[test]
fn rate_lma() {
    fn check_rate(rate: &Rate, species: &Vec<isize>, expected: f64) {
        assert_eq!(f64::from_bits(rate.clone().dense().rate(species)), expected);
        assert_eq!(f64::from_bits(rate.clone().sparse().rate(species)), expected);
    }

    let species: Vec<isize> = vec![5, 3];
    check_rate(&Rate::lma(2.0f64.to_bits(), &[1, 0]), &species, 10.0);
    check_rate(&Rate::lma(2.0f64.to_bits(), &[2, 0]), &species, 40.0);
    check_rate(&Rate::lma(2.0f64.to_bits(), &[3, 0]), &species, 120.0);
    check_rate(&Rate::lma(2.0f64.to_bits(), &[4, 0]), &species, 240.0);
    check_rate(&Rate::lma(2.0f64.to_bits(), &[5, 0]), &species, 240.0);
    check_rate(&Rate::lma(2.0f64.to_bits(), &[6, 0]), &species, 0.0);
    check_rate(&Rate::lma(2.0f64.to_bits(), &[7, 0]), &species, 0.0);
    check_rate(&Rate::lma(2.0f64.to_bits(), &[0, 1]), &species, 6.0);
    check_rate(&Rate::lma(2.0f64.to_bits(), &[0, 2]), &species, 12.0);
    check_rate(&Rate::lma(2.0f64.to_bits(), &[0, 3]), &species, 12.0);
    check_rate(&Rate::lma(2.0f64.to_bits(), &[0, 4]), &species, 0.0);
    check_rate(&Rate::lma(2.0f64.to_bits(), &[0, 5]), &species, 0.0);
    check_rate(&Rate::lma(2.0f64.to_bits(), &[1, 1]), &species, 30.0);
    check_rate(&Rate::lma(2.0f64.to_bits(), &[1, 2]), &species, 60.0);
    check_rate(&Rate::lma(2.0f64.to_bits(), &[2, 1]), &species, 120.0);
    check_rate(&Rate::lma(2.0f64.to_bits(), &[1, 20]), &species, 0.0);
}

#[test]
fn jump_conversion() {
    let djump = Jump::new(&[-1, 0, 3, -2]);
    let sjump = Jump::new_sparse(&[(0, -1), (2, 3), (3, -2)]);
    assert_eq!(djump.clone().dense(), djump);
    assert_eq!(djump.clone().sparse(), sjump);
    assert_eq!(sjump.clone().sparse(), sjump);
    assert_eq!(sjump.clone().dense(), djump);
}

#[test]
fn jump_affect() {
    let djump = Jump::new(&[-1, 0, 3, -2]);
    let mut species: Vec<isize> = vec![10; 4];
    djump.affect(&mut species);
    assert_eq!(species, vec![9, 10, 13, 8]);
    let sjump = Jump::new_sparse(&[(0, -1), (2, 3), (3, -2)]);
    let mut species: Vec<isize> = vec![10; 4];
    sjump.affect(&mut species);
    assert_eq!(species, vec![9, 10, 13, 8]);
}

#[test]
fn gillespie_sir() {
    let mut sir = Gillespie::new(&[9999, 1, 0], false);
    sir.add_reaction(Rate::lma((0.1 / 10000.0f64).to_bits(), &[1, 1, 0]), &[-1, 1, 0]);
    sir.add_reaction(Rate::lma(0.01f64.to_bits(), &[0, 1, 0]), &[0, -1, 1]);
    for i in 1..=250 {
        sir.advance_until((i as f64).to_bits());
        assert_eq!(
            sir.get_species(0) + sir.get_species(1) + sir.get_species(2),
            10000
        );
    }
}

#[test]
fn gillespie_dimers() {
    let mut dimers = Gillespie::new(&[1, 0, 0, 0], false);
    dimers.add_reaction(Rate::lma(25.0f64.to_bits(), &[1, 0, 0, 0]), &[0, 1, 0, 0]);
    dimers.add_reaction(Rate::lma(1000.0f64.to_bits(), &[0, 1, 0, 0]), &[0, 0, 1, 0]);
    dimers.add_reaction(Rate::lma(0.001f64.to_bits(), &[0, 0, 2, 0]), &[0, 0, -2, 1]);
    dimers.add_reaction(Rate::lma(0.1f64.to_bits(), &[0, 1, 0, 0]), &[0, -1, 0, 0]);
    dimers.add_reaction(Rate::lma(1.0f64.to_bits(), &[0, 0, 1, 0]), &[0, 0, -1, 0]);
    dimers.advance_until(1.0f64.to_bits());
    assert_eq!(dimers.get_species(0), 1);
    assert!(1000 < dimers.get_species(2));
    assert!(dimers.get_species(3) < 10000);
}
