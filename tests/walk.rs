use data_walker::lattice::{lattice_points, walk_base4, LatticePoint};
use data_walker::walk::{action_digit, named_mapping, plan_walk, subsample, Move, IDENTITY};

fn p(x: i64, y: i64, z: i64) -> LatticePoint {
    LatticePoint { x, y, z }
}

#[test]
fn presets_and_unknown_names() {
    assert_eq!(named_mapping("Identity"), IDENTITY);
    assert_eq!(named_mapping("Optimal"), [0, 1, 2, 3, 4, 5, 6, 7, 10, 9, 8, 11]);
    assert_eq!(named_mapping("Spiral"), [0, 2, 4, 6, 8, 10, 1, 3, 5, 7, 9, 11]);
    assert_eq!(named_mapping("Stock-opt"), [1, 0, 2, 4, 10, 5, 6, 9, 8, 7, 3, 11]);
    assert_eq!(named_mapping("NonExistent"), IDENTITY);
    assert_eq!(named_mapping("identity"), IDENTITY);
}

#[test]
fn three_forward_steps_plan() {
    let moves = plan_walk(&[0, 0, 0], &named_mapping("Identity"));
    let step = Move::Step { axis: 0, forward: true };
    assert_eq!(moves, vec![step, step, step]);
}

#[test]
fn moves_of_every_digit() {
    let all: Vec<u8> = (0..12).collect();
    let moves = plan_walk(&all, &IDENTITY);
    assert_eq!(moves.len(), 12);
    assert_eq!(moves[1], Move::Step { axis: 0, forward: false });
    assert_eq!(moves[4], Move::Step { axis: 2, forward: true });
    assert_eq!(moves[6], Move::Turn { axis: 0, positive: true });
    assert_eq!(moves[9], Move::Turn { axis: 1, positive: false });
    assert_eq!(moves[11], Move::Turn { axis: 2, positive: false });
}

#[test]
fn digits_are_reduced_and_mapped() {
    assert_eq!(action_digit(12, &IDENTITY), 0);
    assert_eq!(action_digit(23, &IDENTITY), 11);
    let spiral = named_mapping("Spiral");
    assert_eq!(action_digit(1, &spiral), 2);
    let broken = [0, 200, 2, 3, 4, 5, 6, 7, 8, 9, 10, 11];
    assert_eq!(action_digit(1, &broken), 1);
    assert_eq!(action_digit(13, &broken), 1);
}

#[test]
fn plan_length_matches_digits() {
    let digits: Vec<u8> = (0..500).map(|i| (i * 7 % 256) as u8).collect();
    assert_eq!(plan_walk(&digits, &named_mapping("Optimal")).len(), 500);
    assert!(plan_walk(&[], &IDENTITY).is_empty());
}

#[test]
fn subsample_keeps_short_paths() {
    let path: Vec<u32> = (0..10).collect();
    assert_eq!(subsample(&path, 10), path);
    assert_eq!(subsample(&path, 1000), path);
}

#[test]
fn subsample_keeps_the_final_point() {
    let path: Vec<u32> = (0..1000).collect();
    let thinned = subsample(&path, 100);
    assert_eq!(thinned.len(), 101);
    assert_eq!(thinned[0], 0);
    assert_eq!(thinned[1], 10);
    assert_eq!(*thinned.last().unwrap(), 999);

    let path: Vec<u32> = (0..7).collect();
    assert_eq!(subsample(&path, 3), vec![0, 3, 6]);
    assert_eq!(subsample(&path, 0), vec![0, 6]);
    let path: Vec<u32> = (0..8).collect();
    assert_eq!(subsample(&path, 3), vec![0, 3, 6, 7]);
}

#[test]
fn base4_walk_stacks_revisits() {
    let path = walk_base4(&[0, 1, 0, 1], 1000);
    assert_eq!(path, vec![p(1, 0, 0), p(0, 0, 0), p(1, 0, 1), p(0, 0, 1)]);
    let path = walk_base4(&[2, 3, 2, 4, 6], 1000);
    assert_eq!(path, vec![p(0, 1, 0), p(0, 0, 0), p(0, 1, 1), p(1, 1, 0), p(1, 2, 0)]);
}

#[test]
fn base4_walk_empty_is_origin() {
    assert_eq!(walk_base4(&[], 10), vec![p(0, 0, 0)]);
}

#[test]
fn base4_walk_subsamples() {
    let digits: Vec<u8> = (0..1000).map(|i| (i % 4) as u8).collect();
    let full = lattice_points(&digits);
    let thinned = walk_base4(&digits, 100);
    assert_eq!(thinned.len(), 101);
    assert_eq!(thinned.last(), full.last());
}

#[test]
fn presets_are_permutations() {
    for name in ["Identity", "Optimal", "Spiral", "Stock-opt", "anything"] {
        let mut m = named_mapping(name);
        m.sort();
        assert_eq!(m, IDENTITY);
    }
}

#[test]
fn base4_walk_moves_one_cell_at_a_time() {
    let digits: Vec<u8> = (0..200).map(|i| ((i * 37 + i / 3) % 7) as u8).collect();
    let path = walk_base4(&digits, 1000);
    assert_eq!(path.len(), 200);
    for w in path.windows(2) {
        let dx = (w[1].x - w[0].x).abs();
        let dy = (w[1].y - w[0].y).abs();
        assert_eq!(dx + dy, 1);
    }
}
