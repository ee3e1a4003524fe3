use hlanalysis::utils::physchem::atomic_data::{atomic_numbers, element_table, mass_of_number, mass_of_symbol};

#[test]
fn element_lookups() {
    assert_eq!(atomic_numbers("O"), Some(8));
    assert_eq!(atomic_numbers("Si"), Some(14));
    assert_eq!(atomic_numbers("Og"), Some(118));
    assert_eq!(atomic_numbers("Xx"), None);
    assert_eq!(atomic_numbers("o"), None);
    assert_eq!(mass_of_symbol("H"), Some(10080));
    assert_eq!(mass_of_symbol("He"), Some(40026));
    assert_eq!(mass_of_number(8), Some(159990));
    assert_eq!(mass_of_number(0), None);
    assert_eq!(mass_of_number(119), None);
    // the table lists nickel as 27 and cobalt as 28
    assert_eq!(atomic_numbers("Ni"), Some(27));
    assert_eq!(atomic_numbers("Co"), Some(28));
    assert_eq!(atomic_numbers("I"), Some(53));
    assert_eq!(mass_of_number(52), Some(1276000));
}

#[test]
fn masses_by_symbol_and_number_agree() {
    for (sym, n, m) in element_table().iter() {
        assert_eq!(atomic_numbers(sym), Some(*n));
        assert_eq!(mass_of_symbol(sym), Some(*m));
        assert_eq!(mass_of_number(*n), Some(*m));
    }
    let mut numbers: Vec<i32> = element_table().iter().map(|e| e.1).collect();
    numbers.sort();
    assert_eq!(numbers, (1..=118).collect::<Vec<i32>>());
}

#[test]
fn masses_read_as_the_listed_floats() {
    assert_eq!(mass_of_symbol("O").map(|m| m as f64 / 1e4), Some(15.999));
    assert_eq!(mass_of_symbol("Si").map(|m| m as f64 / 1e4), Some(28.085));
}
