use data_walker::constants::{e_base12, ln2_base12, phi_base12, pi_base12, sqrt2_base12};

#[test]
fn test_pi_starts_with_3() {
    let pi = pi_base12(10);
    assert_eq!(pi[0], 3);
}

#[test]
fn test_e_starts_with_2() {
    let e = e_base12(10);
    assert_eq!(e[0], 2);
}

#[test]
fn constants_test_all_digits_valid() {
    let pi = pi_base12(1000);
    assert!(pi.iter().all(|&d| d < 12));
}

#[test]
fn known_prefixes() {
    assert_eq!(pi_base12(5), vec![3, 1, 8, 4, 8]);
    assert_eq!(e_base12(4), vec![2, 8, 7, 5]);
    assert_eq!(sqrt2_base12(3), vec![1, 4, 11]);
    assert_eq!(phi_base12(3), vec![1, 7, 4]);
    assert_eq!(ln2_base12(3), vec![0, 8, 3]);
}

#[test]
fn zero_digits_is_empty() {
    assert!(pi_base12(0).is_empty());
}

#[test]
fn length_is_exactly_the_request() {
    for n in [1usize, 99, 100, 101, 250, 1000] {
        assert_eq!(pi_base12(n).len(), n);
        assert_eq!(sqrt2_base12(n).len(), n);
    }
}

#[test]
fn filler_continues_past_the_table() {
    let pi = pi_base12(104);
    assert_eq!(&pi[100..], &[11, 8, 5, 2]);
    let sqrt2 = sqrt2_base12(103);
    assert_eq!(&sqrt2[100..], &[6, 3, 8]);
}

#[test]
fn longer_requests_extend_shorter_ones() {
    let short = e_base12(150);
    let long = e_base12(400);
    assert_eq!(&long[..150], &short[..]);
}
