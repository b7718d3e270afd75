use rust_phi::basis::BitBasis;
use rust_phi::bitwise::generate_indices;
use rust_phi::bitwise::generate_mask;
use rust_phi::bitwise::generate_vectors_from_indices;
use rust_phi::bitwise::generate_vectors_from_mask;

#[test]
fn test_generate_mask_and_indices_round_trip() {
    let indices: Vec<usize> = vec![0, 2, 5];
    let mask = generate_mask(&indices);
    assert_eq!(mask, 0b100101u64);
    let back = generate_indices(mask);
    assert_eq!(back, indices);
}

#[test]
fn test_generate_vectors() {
    let indices: Vec<usize> = vec![1, 3];
    let vectors = generate_vectors_from_indices(&indices);
    assert_eq!(vectors, vec![2u64, 8u64]);
    let vectors2 = generate_vectors_from_mask(0b1010u64);
    assert_eq!(vectors2, vec![2u64, 8u64]);
}

#[test]
fn test_construct_from_mask() {
    let basis = BitBasis::construct_from_mask(0b101, 3);
    assert_eq!(basis.dim, 2);
    assert_eq!(basis.codim, 1);
    assert_eq!(basis.max_dim, 3);
    assert_eq!(basis.vectors, vec![1u64, 4u64]);
    assert_eq!(basis.to_mask(), 0b101u64);
    assert_eq!(basis.image_size(), 4);
    assert_eq!(basis.codim_image_size(), 2);
    assert_eq!(basis.max_image_size(), 8);
}

#[test]
fn test_construct_round_trip() {
    // Rebuilding from the basis's own mask gives the same basis back.
    let basis = BitBasis::construct_from_mask(0b110101, 6);
    let again = BitBasis::construct_from_mask(basis.to_mask(), basis.max_dim);
    assert_eq!(again.dim, basis.dim);
    assert_eq!(again.codim, basis.codim);
    assert_eq!(again.max_dim, basis.max_dim);
    assert_eq!(again.unused_mask, basis.unused_mask);
    assert_eq!(again.vectors, basis.vectors);
}

#[test]
fn test_complement_twice_has_same_vectors() {
    let basis = BitBasis::construct_from_mask(0b101, 3);
    let complement = basis.generate_complement_basis();
    assert_eq!(complement.vectors, vec![2u64]);
    assert_eq!(complement.dim, 1);
    let twice = complement.generate_complement_basis();
    let mut expected = basis.vectors.clone();
    expected.sort();
    let mut actual = twice.vectors.clone();
    actual.sort();
    assert_eq!(actual, expected);
}

#[test]
fn test_fixed_state() {
    let basis = BitBasis::construct_from_mask(0b011, 3);
    assert_eq!(basis.fixed_state(0b111), 0b011);
    assert_eq!(basis.fixed_state(0b100), 0);
}

#[test]
fn test_span_yields_distinct_subsets() {
    // span(0) over a 2-dimensional subspace reaches exactly 4 distinct
    // values, each a subset of the subspace's mask.
    let basis = BitBasis::construct_from_mask(0b101, 3);
    let mask = basis.to_mask();
    let mut it = basis.span(0);
    let mut seen: Vec<u64> = Vec::new();
    while let Some(v) = it.next() {
        assert_eq!(v & mask, v);
        assert!(!seen.contains(&v));
        seen.push(v);
    }
    assert_eq!(seen.len(), 4);
    assert_eq!(seen, vec![0u64, 1u64, 4u64, 5u64]);
}

#[test]
fn test_span_keeps_initial_bits() {
    let basis = BitBasis::construct_from_mask(0b001, 3);
    let mut it = basis.span(0b010);
    assert_eq!(it.next(), Some(0b010));
    assert_eq!(it.next(), Some(0b011));
    assert_eq!(it.next(), None);
}

#[test]
fn test_sub_basis() {
    let basis = BitBasis::construct_from_mask(0b111, 3);
    let index: Vec<usize> = vec![2, 0];
    let sub = basis.sub_basis(&index);
    assert_eq!(sub.vectors, vec![4u64, 1u64]);
    assert_eq!(sub.dim, 2);
    assert_eq!(sub.max_dim, 3);
}

#[test]
fn test_null_basis() {
    let basis = BitBasis::null_basis(3);
    assert_eq!(basis.dim, 0);
    assert_eq!(basis.codim, 3);
    assert!(basis.vectors.is_empty());
    let mut it = basis.span(0b101);
    assert_eq!(it.next(), Some(0b101));
    assert_eq!(it.next(), None);
}

#[test]
fn test_construct_from_max_image_size() {
    let basis = BitBasis::construct_from_max_image_size(8).unwrap();
    assert_eq!(basis.max_dim, 3);
    assert_eq!(basis.dim, 3);
    assert_eq!(basis.to_mask(), 0b111u64);
    assert!(BitBasis::construct_from_max_image_size(6).is_none());
    assert!(BitBasis::construct_from_max_image_size(0).is_none());
    let unit = BitBasis::construct_from_max_image_size(1).unwrap();
    assert_eq!(unit.max_dim, 0);
}
