use data_walker::fractals::{
    dragon_curve, gosper_curve, hilbert_curve, koch_snowflake, lsystem_to_base12, peano_curve,
    sierpinski_arrowhead,
};

#[test]
fn test_dragon_curve_growth() {
    let d1 = dragon_curve(1);
    let d2 = dragon_curve(2);
    assert!(d2.len() > d1.len());
}

#[test]
fn fractals_test_all_digits_valid() {
    let dragon = dragon_curve(10);
    assert!(dragon.iter().all(|&d| d < 12));

    let koch = koch_snowflake(4);
    assert!(koch.iter().all(|&d| d < 12));
}

#[test]
fn test_koch_starts_with_forward() {
    let koch = koch_snowflake(1);
    assert_eq!(koch[0], 0);
}

#[test]
fn dragon_exact_digits() {
    assert_eq!(dragon_curve(0), vec![0]);
    assert_eq!(dragon_curve(1), vec![0, 10, 10, 10, 10, 10, 10, 0]);
    assert_eq!(dragon_curve(1).len(), 8);
    assert_eq!(dragon_curve(2).len(), 22);
}

#[test]
fn koch_axiom_uses_sixty_degree_turns() {
    let k = koch_snowflake(0);
    assert_eq!(k, vec![0, 11, 11, 11, 11, 11, 11, 11, 11, 0, 11, 11, 11, 11, 11, 11, 11, 11, 0]);
    assert_eq!(koch_snowflake(1).len(), 76);
}

#[test]
fn other_curves_give_turtle_digits() {
    for d in [sierpinski_arrowhead(3), hilbert_curve(2), peano_curve(1), gosper_curve(2)] {
        assert!(!d.is_empty());
        assert!(d.iter().all(|&x| x == 0 || x == 10 || x == 11));
    }
}

#[test]
fn lsystem_symbols() {
    assert_eq!(lsystem_to_base12("F+G", 90), vec![0, 10, 10, 10, 10, 10, 10, 0]);
    assert_eq!(lsystem_to_base12("A-B", 10), vec![0, 11, 0]);
    assert_eq!(lsystem_to_base12("x[y]", 90), Vec::<u8>::new());
}

#[test]
fn dragon_grows_with_every_step() {
    let lengths: Vec<usize> = (0..9).map(|n| dragon_curve(n).len()).collect();
    assert!(lengths.windows(2).all(|w| w[0] < w[1]));
}
