use rust_phi::basis::BitBasis;
use rust_phi::link_fn::get_link_fns;
use rust_phi::sif::parse_sif_line;
use rust_phi::sif::LinkType;
use rust_phi::tpm::calc_elementary_marginal_tpm;
use rust_phi::tpm::calc_fixed_marginal_tpm;
use rust_phi::tpm::calc_tpm;
use rust_phi::tpm::RowCounter;

const EPSILON: f64 = 1.0e-9;

/// The published transition matrix of the three-element OR/AND/XOR
/// network, row = current joint state, column = next joint state.
fn reference_tpm() -> Vec<Vec<f64>> {
    let values = [
        [1.0, 0.0, 0.0, 0.0, 0.0, 0.0, 0.0, 0.0],
        [0.0, 0.0, 0.0, 0.0, 1.0, 0.0, 0.0, 0.0],
        [0.0, 0.0, 0.0, 0.0, 0.0, 1.0, 0.0, 0.0],
        [0.0, 1.0, 0.0, 0.0, 0.0, 0.0, 0.0, 0.0],
        [0.0, 1.0, 0.0, 0.0, 0.0, 0.0, 0.0, 0.0],
        [0.0, 0.0, 0.0, 0.0, 0.0, 0.0, 0.0, 1.0],
        [0.0, 0.0, 0.0, 0.0, 0.0, 1.0, 0.0, 0.0],
        [0.0, 0.0, 0.0, 1.0, 0.0, 0.0, 0.0, 0.0],
    ];
    values.iter().map(|row| row.to_vec()).collect()
}

fn reference_links() -> Vec<(LinkType, u64)> {
    let mut infos = Vec::new();
    for line in ["A OR B C", "B AND A C", "C XOR A B"] {
        infos.push(parse_sif_line(line).unwrap());
    }
    get_link_fns(&infos).unwrap()
}

#[test]
fn test_calc_tpm_matches_reference() {
    let links = reference_links();
    let tpm = calc_tpm(&links);
    let den = 8.0;
    let expected = reference_tpm();
    assert_eq!(tpm.len(), 8);
    for r in 0..8 {
        assert_eq!(tpm[r].len(), 8);
        for c in 0..8 {
            let actual = tpm[r][c] as f64 / den;
            assert!((actual - expected[r][c]).abs() < EPSILON);
        }
    }
}

#[test]
fn test_calc_tpm_rows_sum_to_one() {
    // Every row of a built matrix is a probability distribution: the
    // numerators of each row sum to exactly the denominator, and no
    // entry exceeds it.
    let mut infos = Vec::new();
    for line in ["A NOISY B", "B XOR A C", "C EVEN A B C"] {
        infos.push(parse_sif_line(line).unwrap());
    }
    let links = get_link_fns(&infos).unwrap();
    let tpm = calc_tpm(&links);
    for row in &tpm {
        let total: u64 = row.iter().sum();
        assert_eq!(total, 8);
        for &entry in row {
            assert!(entry <= 8);
        }
    }
}

#[test]
fn test_calc_tpm_noisy_is_uniform() {
    let mut infos = Vec::new();
    for line in ["A NOISY A"] {
        infos.push(parse_sif_line(line).unwrap());
    }
    let links = get_link_fns(&infos).unwrap();
    let tpm = calc_tpm(&links);
    assert_eq!(tpm, vec![vec![1u64, 1u64], vec![1u64, 1u64]]);
}

#[test]
fn test_fixed_marginal_of_six_element_wrapper() {
    // The three-element network wrapped with three noisy bystanders:
    // marginalising the 64x64 matrix onto ABC at the observed full
    // state recovers the published 8x8 matrix.
    let mut infos = Vec::new();
    for line in [
        "A OR B C",
        "B AND A C",
        "C XOR A B",
        "D NOISY A",
        "E NOISY A",
        "F NOISY A",
    ] {
        infos.push(parse_sif_line(line).unwrap());
    }
    let links = get_link_fns(&infos).unwrap();
    let full_tpm = calc_tpm(&links);
    assert_eq!(full_tpm.len(), 64);
    let full_state = 0b010001u64;
    let surviving = BitBasis::construct_from_mask(0b000111, 6);
    let marginal = calc_fixed_marginal_tpm(&surviving, full_state, &full_tpm);
    let den = 64.0;
    let expected = reference_tpm();
    assert_eq!(marginal.len(), 8);
    for r in 0..8 {
        assert_eq!(marginal[r].len(), 8);
        for c in 0..8 {
            let actual = marginal[r][c] as f64 / den;
            assert!((actual - expected[r][c]).abs() < EPSILON);
        }
    }
}

#[test]
fn test_fixed_marginal_identity_on_full_basis() {
    // Marginalising onto the whole universe changes nothing.
    let links = reference_links();
    let tpm = calc_tpm(&links);
    let surviving = BitBasis::construct_from_mask(0b111, 3);
    let marginal = calc_fixed_marginal_tpm(&surviving, 0, &tpm);
    assert_eq!(marginal, tpm);
}

#[test]
fn test_elementary_marginal_columns_agree_on_target_bit() {
    // Every column of the elementary marginal depends only on the
    // target element's bit: columns in the same class are equal.
    let links = reference_links();
    let tpm = calc_tpm(&links);
    let system = BitBasis::construct_from_mask(0b111, 3);
    for target_mask in [0b001u64, 0b010u64, 0b100u64] {
        let target = BitBasis::construct_from_mask(target_mask, 3);
        let marginal = calc_elementary_marginal_tpm(&target, &system, &tpm, 8);
        for r in 0..8 {
            assert!(marginal.den[r] > 0);
            for c1 in 0..8u64 {
                for c2 in 0..8u64 {
                    if (c1 & target_mask != 0) == (c2 & target_mask != 0) {
                        assert_eq!(
                            marginal.num[r][c1 as usize],
                            marginal.num[r][c2 as usize]
                        );
                    }
                }
            }
        }
    }
}

#[test]
fn test_elementary_marginal_values() {
    // With the whole system surviving, each row class is a single row,
    // so the marginal of element A is that row's chance of A coming
    // ON. From state 0 the OR gate keeps A OFF.
    let links = reference_links();
    let tpm = calc_tpm(&links);
    let system = BitBasis::construct_from_mask(0b111, 3);
    let target = BitBasis::construct_from_mask(0b001, 3);
    let marginal = calc_elementary_marginal_tpm(&target, &system, &tpm, 8);
    assert_eq!(marginal.den[0], 8);
    assert_eq!(marginal.num[0][0], 8);
    assert_eq!(marginal.num[0][1], 0);
    // From state 0b010 (B alone ON) the OR gate turns A ON.
    assert_eq!(marginal.num[2][0], 0);
    assert_eq!(marginal.num[2][1], 8);
}

#[test]
fn test_row_counter() {
    let mut counter = RowCounter::construct(2);
    assert_eq!(counter.get_nrow(), Some(0));
    assert_eq!(counter.get_nrow(), Some(1));
    assert_eq!(counter.get_nrow(), None);
    assert_eq!(counter.get_nrow(), None);
}

#[test]
fn test_all_noisy_network_is_uniform() {
    // With every link NOISY the matrix is uniform, and each element's
    // marginal sends the same mass to both of its sides in every row:
    // no cut changes anything about such a network.
    let mut infos = Vec::new();
    for line in ["A NOISY B", "B NOISY C", "C NOISY A"] {
        infos.push(parse_sif_line(line).unwrap());
    }
    let links = get_link_fns(&infos).unwrap();
    let tpm = calc_tpm(&links);
    for row in &tpm {
        for &entry in row {
            assert_eq!(entry, 1);
        }
    }
    let system = BitBasis::construct_from_mask(0b111, 3);
    for target_mask in [0b001u64, 0b010u64, 0b100u64] {
        let target = BitBasis::construct_from_mask(target_mask, 3);
        let marginal = calc_elementary_marginal_tpm(&target, &system, &tpm, 8);
        for r in 0..8 {
            for c in 0..8usize {
                assert_eq!(2 * marginal.num[r][c], marginal.den[r]);
            }
        }
    }
}
