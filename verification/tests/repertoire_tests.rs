use rust_phi::basis::BitBasis;
use rust_phi::mechanism::generate_all_repertoire_parts;
use rust_phi::mechanism::RepertoireType;
use rust_phi::repertoire::calc_cause_repertoire;
use rust_phi::repertoire::calc_effect_repertoire;

const EPSILON: f64 = 1.0e-7;

/// The published transition matrix of the three-element OR/AND/XOR
/// network, as exact numerators over the denominator 8.
fn reference_tpm_numerators() -> Vec<Vec<u64>> {
    let values = [
        [1, 0, 0, 0, 0, 0, 0, 0],
        [0, 0, 0, 0, 1, 0, 0, 0],
        [0, 0, 0, 0, 0, 1, 0, 0],
        [0, 1, 0, 0, 0, 0, 0, 0],
        [0, 1, 0, 0, 0, 0, 0, 0],
        [0, 0, 0, 0, 0, 0, 0, 1],
        [0, 0, 0, 0, 0, 1, 0, 0],
        [0, 0, 0, 1, 0, 0, 0, 0],
    ];
    values.iter().map(|row| row.iter().map(|&x: &u64| x * 8).collect()).collect()
}

fn reference_state() -> u64 {
    // A=ON, B=OFF, C=OFF
    0b001
}

/// Scales a vector so it sums to one.
fn normalized(v: &[f64]) -> Vec<f64> {
    let total: f64 = v.iter().sum();
    v.iter().map(|x| x / total).collect()
}

fn assert_almost_equal_vec(actual: &[f64], expected: &[f64]) {
    assert_eq!(actual.len(), expected.len());
    for i in 0..actual.len() {
        let diff = (actual[i] - expected[i]).abs();
        if diff > EPSILON {
            panic!(
                "vectors differ at {}: actual {:?} expected {:?}",
                i, actual, expected
            );
        }
    }
}

/// The marginal times the unconstrained complement factor, as the
/// probability distribution it stands for.
fn cause_distribution(purview_mask: u64, mechanism_mask: u64) -> Vec<f64> {
    let tpm = reference_tpm_numerators();
    let state = reference_state();
    let purview = BitBasis::construct_from_mask(purview_mask, 3);
    let c_purview = purview.generate_complement_basis();
    let mechanism = BitBasis::construct_from_mask(mechanism_mask, 3);
    let null = BitBasis::null_basis(3);
    let marginal = calc_cause_repertoire(&purview, &mechanism, state, &tpm, 8);
    let unconstrained = calc_cause_repertoire(&c_purview, &null, state, &tpm, 8);
    let product: Vec<f64> = (0..8)
        .map(|i| (marginal[i] as f64) * (unconstrained[i] as f64))
        .collect();
    normalized(&product)
}

fn effect_distribution(purview_mask: u64, mechanism_mask: u64) -> Vec<f64> {
    let tpm = reference_tpm_numerators();
    let state = reference_state();
    let purview = BitBasis::construct_from_mask(purview_mask, 3);
    let c_purview = purview.generate_complement_basis();
    let mechanism = BitBasis::construct_from_mask(mechanism_mask, 3);
    let null = BitBasis::null_basis(3);
    let marginal = calc_effect_repertoire(&purview, &mechanism, state, &tpm, 8);
    let unconstrained = calc_effect_repertoire(&c_purview, &null, state, &tpm, 8);
    let product: Vec<f64> = (0..8)
        .map(|i| (marginal[i] as f64) * (unconstrained[i] as f64))
        .collect();
    normalized(&product)
}

#[test]
fn test_calc_cause_repertoire() {
    // CASE 0, p(ABC^p|A^c=1)
    let e_0 = normalized(&[0.0, 0.0, 1.0, 1.0, 1.0, 1.0, 1.0, 1.0]);
    assert_almost_equal_vec(&cause_distribution(0b111, 0b001), &e_0);

    // CASE 1, p(AB^p|C^c)
    let e_1 = normalized(&[1.0, 0.0, 0.0, 1.0, 1.0, 0.0, 0.0, 1.0]);
    assert_almost_equal_vec(&cause_distribution(0b011, 0b100), &e_1);

    // CASE 2, p(AC^p|B^c)
    let e_2 = normalized(&[1.0, 1.0, 1.0, 1.0, 1.0, 0.0, 1.0, 0.0]);
    assert_almost_equal_vec(&cause_distribution(0b101, 0b010), &e_2);

    // CASE 3, p(BC^p|A^c)
    let e_3 = normalized(&[0.0, 0.0, 1.0, 1.0, 1.0, 1.0, 1.0, 1.0]);
    assert_almost_equal_vec(&cause_distribution(0b110, 0b001), &e_3);

    // CASE 4, p(ABC^p|ABC^c)
    let e_4 = normalized(&[0.0, 0.0, 0.0, 1.0, 1.0, 0.0, 0.0, 0.0]);
    assert_almost_equal_vec(&cause_distribution(0b111, 0b111), &e_4);

    // CASE 5, p(AB^p|BC^c)
    let e_5 = normalized(&[2.0, 0.0, 0.0, 1.0, 2.0, 0.0, 0.0, 1.0]);
    assert_almost_equal_vec(&cause_distribution(0b011, 0b110), &e_5);

    // CASE 6, p(ABC^p|AB^c)
    let e_6 = normalized(&[0.0, 0.0, 1.0, 1.0, 1.0, 0.0, 1.0, 0.0]);
    assert_almost_equal_vec(&cause_distribution(0b111, 0b011), &e_6);

    // CASE 7, p(ABC^p)
    let e_7 = normalized(&[1.0, 1.0, 1.0, 1.0, 1.0, 1.0, 1.0, 1.0]);
    assert_almost_equal_vec(&cause_distribution(0b111, 0b000), &e_7);

    // CASE 8, p([])
    let e_8 = normalized(&[1.0, 1.0, 1.0, 1.0, 1.0, 1.0, 1.0, 1.0]);
    assert_almost_equal_vec(&cause_distribution(0b000, 0b000), &e_8);

    // CASE 9, p([]|ABC^c)
    let e_9 = normalized(&[1.0, 1.0, 1.0, 1.0, 1.0, 1.0, 1.0, 1.0]);
    assert_almost_equal_vec(&cause_distribution(0b000, 0b111), &e_9);
}

#[test]
fn test_calc_effect_repertoire() {
    let uc_a = [0.25, 0.75, 0.25, 0.75, 0.25, 0.75, 0.25, 0.75];
    let uc_b = [0.75, 0.75, 0.25, 0.25, 0.75, 0.75, 0.25, 0.25];
    let uc_c = [0.5f64; 8];
    let uc_abc: Vec<f64> = (0..8).map(|i| uc_a[i] * uc_b[i] * uc_c[i]).collect();

    // CASE 0, p(ABC^f)
    assert_almost_equal_vec(&effect_distribution(0b111, 0b000), &uc_abc);

    // CASE 1, p([])
    assert_almost_equal_vec(&effect_distribution(0b000, 0b000), &uc_abc);

    // CASE 2, p(AC^f|ABC^c)
    let m_2 = [0.0, 0.0, 0.0, 0.0, 1.0, 0.0, 1.0, 0.0];
    let e_2: Vec<f64> = (0..8).map(|i| m_2[i] * uc_b[i]).collect();
    assert_almost_equal_vec(&effect_distribution(0b101, 0b111), &e_2);

    // CASE 3, p(A^f|BC^c)
    let m_3 = [1.0, 0.0, 1.0, 0.0, 1.0, 0.0, 1.0, 0.0];
    let e_3: Vec<f64> = (0..8).map(|i| m_3[i] * uc_b[i] * uc_c[i]).collect();
    assert_almost_equal_vec(&effect_distribution(0b001, 0b110), &e_3);

    // CASE 4, p(C^f|AB^c)
    let m_4 = [0.0, 0.0, 0.0, 0.0, 1.0, 1.0, 1.0, 1.0];
    let e_4: Vec<f64> = (0..8).map(|i| m_4[i] * uc_a[i] * uc_b[i]).collect();
    assert_almost_equal_vec(&effect_distribution(0b100, 0b011), &e_4);

    // CASE 5, p(AB^f|C^c)
    let m_5 = [0.5, 0.5, 0.0, 0.0, 0.5, 0.5, 0.0, 0.0];
    let e_5: Vec<f64> = (0..8).map(|i| m_5[i] * uc_c[i]).collect();
    assert_almost_equal_vec(&effect_distribution(0b011, 0b100), &e_5);

    // CASE 6, p(A^f|B^c)
    let m_6 = [0.5f64; 8];
    let e_6: Vec<f64> = (0..8).map(|i| m_6[i] * uc_b[i] * uc_c[i]).collect();
    assert_almost_equal_vec(&effect_distribution(0b001, 0b100), &e_6);

    // CASE 7, p(B^f|A^c)
    let m_7 = [0.5f64; 8];
    let e_7: Vec<f64> = (0..8).map(|i| m_7[i] * uc_a[i] * uc_c[i]).collect();
    assert_almost_equal_vec(&effect_distribution(0b010, 0b001), &e_7);
}

#[test]
fn test_unconstrained_cause_is_uniform() {
    // With an empty mechanism the cause repertoire is uniform: every
    // numerator equal, and multiplied by the unconstrained complement
    // it is the uniform distribution on the full space.
    let tpm = reference_tpm_numerators();
    let purview = BitBasis::construct_from_mask(0b011, 3);
    let null = BitBasis::null_basis(3);
    let rep = calc_cause_repertoire(&purview, &null, reference_state(), &tpm, 8);
    assert_eq!(rep, vec![1u128; 8]);
    let d = cause_distribution(0b011, 0b000);
    assert_almost_equal_vec(&d, &[0.125f64; 8]);
}

#[test]
fn test_generate_all_repertoire_parts_layout() {
    // Row p * 8 + m of the parts table is exactly the repertoire of
    // purview mask p and mechanism mask m.
    let tpm = reference_tpm_numerators();
    let state = reference_state();
    let cause_parts = generate_all_repertoire_parts(RepertoireType::CAUSE, state, &tpm, 8);
    let effect_parts = generate_all_repertoire_parts(RepertoireType::EFFECT, state, &tpm, 8);
    assert_eq!(cause_parts.len(), 64);
    assert_eq!(effect_parts.len(), 64);
    for p in 0..8u64 {
        for m in 0..8u64 {
            let purview = BitBasis::construct_from_mask(p, 3);
            let mechanism = BitBasis::construct_from_mask(m, 3);
            let cause = calc_cause_repertoire(&purview, &mechanism, state, &tpm, 8);
            let effect = calc_effect_repertoire(&purview, &mechanism, state, &tpm, 8);
            let row = (p * 8 + m) as usize;
            assert_eq!(cause_parts[row], cause);
            assert_eq!(effect_parts[row], effect);
        }
    }
}
