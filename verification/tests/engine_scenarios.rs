//! Engine-level counterparts of the classic small models.

use rebop::gillespie::{Gillespie, Rate};

#[test]
fn sir() {
    let mut sir = Gillespie::new(&[9999, 1, 0], false);
    sir.add_reaction(Rate::lma((0.1 / 10000.0f64).to_bits(), &[1, 1, 0]), &[-1, 1, 0]);
    sir.add_reaction(Rate::lma(0.01f64.to_bits(), &[0, 1, 0]), &[0, -1, 1]);
    sir.advance_until(1000.0f64.to_bits());
    assert_eq!(sir.get_species(0) + sir.get_species(1) + sir.get_species(2), 10000);
}

#[test]
fn dimers() {
    let mut dimers = Gillespie::new(&[1, 0, 0, 0], false);
    dimers.add_reaction(Rate::lma(25.0f64.to_bits(), &[1, 0, 0, 0]), &[0, 1, 0, 0]);
    dimers.add_reaction(Rate::lma(1000.0f64.to_bits(), &[0, 1, 0, 0]), &[0, 0, 1, 0]);
    dimers.add_reaction(Rate::lma(0.001f64.to_bits(), &[0, 0, 2, 0]), &[0, 0, -2, 1]);
    dimers.add_reaction(Rate::lma(0.1f64.to_bits(), &[0, 1, 0, 0]), &[0, -1, 0, 0]);
    dimers.add_reaction(Rate::lma(1.0f64.to_bits(), &[0, 0, 1, 0]), &[0, 0, -1, 0]);
    dimers.advance_until(1.0f64.to_bits());
    assert_eq!(dimers.get_species(0), 1);
    assert!(1000 < dimers.get_species(3));
    assert!(dimers.get_species(3) < 10000);
}

#[test]
fn birth_death() {
    let mut birth_death = Gillespie::new(&[0], false);
    birth_death.add_reaction(Rate::lma(10.0f64.to_bits(), &[0]), &[1]);
    birth_death.add_reaction(Rate::lma(0.1f64.to_bits(), &[1]), &[-1]);
    birth_death.advance_until(100.0f64.to_bits());
    assert!(50 < birth_death.get_species(0));
    assert!(birth_death.get_species(0) < 200);
}

#[test]
fn birth_death_forgot_a_parameter() {
    let mut birth_death = Gillespie::new(&[0], false);
    birth_death.add_reaction(Rate::lma(10.0f64.to_bits(), &[0]), &[1]);
    // the death rate was never given a value, so it is NaN and no
    // reaction happens
    birth_death.add_reaction(Rate::lma(f64::NAN.to_bits(), &[1]), &[-1]);
    birth_death.advance_until(100.0f64.to_bits());
    assert!((f64::from_bits(birth_death.get_time()) - 100.0).abs() < f64::EPSILON);
    assert_eq!(birth_death.get_species(0), 0);
}

#[test]
fn no_reactions() {
    let mut foobarbuz = Gillespie::new(&[42, 1337, 0], false);
    foobarbuz.advance_until(1e20f64.to_bits());
    assert!((f64::from_bits(foobarbuz.get_time()) - 1e20).abs() < f64::EPSILON);
    assert_eq!(foobarbuz.get_species(0), 42);
    assert_eq!(foobarbuz.get_species(1), 1337);
    assert_eq!(foobarbuz.get_species(2), 0);
}
