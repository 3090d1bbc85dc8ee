use tetrino::modes::versus::calculate_garbage;

#[test]
fn base_clears() {
    assert_eq!(calculate_garbage(0, false, false, 0, 0, false), 0);
    assert_eq!(calculate_garbage(1, false, false, 0, 0, false), 0);
    assert_eq!(calculate_garbage(2, false, false, 0, 0, false), 1);
    assert_eq!(calculate_garbage(3, false, false, 0, 0, false), 2);
    assert_eq!(calculate_garbage(4, false, false, 0, 0, false), 4);
}

#[test]
fn tspin_clears() {
    assert_eq!(calculate_garbage(1, true, false, 0, 0, false), 2);
    assert_eq!(calculate_garbage(2, true, false, 0, 0, false), 4);
    assert_eq!(calculate_garbage(3, true, false, 0, 0, false), 6);
}

#[test]
fn mini_tspin_uses_base() {
    assert_eq!(calculate_garbage(1, true, true, 0, 0, false), 0);
    assert_eq!(calculate_garbage(2, true, true, 0, 0, false), 1);
}

#[test]
fn b2b_bonus() {
    assert_eq!(calculate_garbage(4, false, false, 2, 0, false), 5);
    assert_eq!(calculate_garbage(1, true, false, 2, 0, false), 3);
    assert_eq!(calculate_garbage(4, false, false, 1, 0, false), 4);
}

#[test]
fn combo_bonus() {
    assert_eq!(calculate_garbage(1, false, false, 0, 1, false), 0);
    assert_eq!(calculate_garbage(1, false, false, 0, 2, false), 1);
    assert_eq!(calculate_garbage(1, false, false, 0, 3, false), 1);
    assert_eq!(calculate_garbage(1, false, false, 0, 4, false), 2);
    assert_eq!(calculate_garbage(1, false, false, 0, 10, false), 5);
    assert_eq!(calculate_garbage(1, false, false, 0, 20, false), 5);
}

#[test]
fn perfect_clear() {
    assert_eq!(calculate_garbage(4, false, false, 0, 0, true), 14);
    assert_eq!(calculate_garbage(1, false, false, 0, 0, true), 10);
}

#[test]
fn combined_b2b_combo_pc() {
    assert_eq!(calculate_garbage(4, false, false, 3, 6, true), 18);
}

#[test]
fn garbage_extremes() {
    // The most a single clear can send: T-spin triple, back-to-back, a long
    // combo and a perfect clear.
    assert_eq!(calculate_garbage(3, true, false, 5, 100, true), 22);
    // No lines, no garbage, whatever the chains.
    assert_eq!(calculate_garbage(0, true, false, 5, 0, false), 0);
    // A back-to-back bonus needs a clear.
    assert_eq!(calculate_garbage(0, true, false, 5, 0, false), 0);
    // Negative combos send nothing.
    assert_eq!(calculate_garbage(1, false, false, 0, -4, false), 0);
}
