use std::collections::HashSet;

use audio_visualiser::visualisation::simulation::{
    count_visible, push_ripple, reconcile_population, ripple_origin, CellGrid, XorShift64,
    MAX_ACTIVE_RIPPLES,
};

#[test]
fn tests_spatial_grid_has_nine_unique_neighbouring_cells() {
    let grid = CellGrid::new(10, 8);
    for cell in 0..80 {
        let neighbours = grid.neighbouring_cells(cell);
        let unique: HashSet<usize> = neighbours.iter().copied().collect();
        assert_eq!(unique.len(), 9);
        assert_eq!(neighbours.len(), 9);
    }
}

#[test]
fn simulation_spatial_grid_has_nine_unique_neighbouring_cells() {
    let grid = CellGrid::new(640 / 60, 480 / 60);
    for cell in 0..(10 * 8) {
        let unique: HashSet<usize> = grid.neighbouring_cells(cell).iter().copied().collect();
        assert_eq!(unique.len(), 9);
    }
}

#[test]
fn narrow_canvas_grid_does_not_visit_the_same_cell_twice() {
    let grid = CellGrid::new(1, 8);
    let neighbours = grid.neighbouring_cells(grid.cell_index(0, 4));
    let unique: HashSet<usize> = neighbours.iter().copied().collect();
    assert_eq!(unique.len(), neighbours.len());
    assert_eq!(neighbours, &[3, 4, 5]);
}

#[test]
fn neighbours_wrap_around_the_edges_in_row_major_order() {
    let grid = CellGrid::new(10, 8);
    assert_eq!(
        grid.neighbouring_cells(0),
        &[79, 70, 71, 9, 0, 1, 19, 10, 11]
    );
    let tiny = CellGrid::new(2, 2);
    assert_eq!(tiny.neighbouring_cells(0), &[3, 2, 1, 0]);
}

#[test]
fn neighbouring_is_symmetric() {
    let grid = CellGrid::new(5, 4);
    for cell in 0..20 {
        for &other in grid.neighbouring_cells(cell) {
            assert!(grid.neighbouring_cells(other).contains(&cell));
        }
    }
}

#[test]
fn cell_coordinates_are_clamped_to_the_grid() {
    let grid = CellGrid::new(10, 8);
    assert_eq!(grid.cell_index(3, 2), 23);
    assert_eq!(grid.cell_index(10, 2), 29);
    assert_eq!(grid.cell_index(400, 400), 79);
}

#[test]
fn rebuild_files_each_visible_boid_under_its_cell() {
    let mut grid = CellGrid::new(3, 3);
    grid.rebuild(&[Some(4), None, Some(0), Some(4), Some(8)]);
    assert_eq!(grid.cell(4), &[0, 3]);
    assert_eq!(grid.cell(0), &[2]);
    assert_eq!(grid.cell(8), &[4]);
    assert!(grid.cell(1).is_empty());
    grid.rebuild(&[None, Some(1)]);
    assert!(grid.cell(4).is_empty());
    assert_eq!(grid.cell(1), &[1]);
}

#[test]
fn population_grows_by_reusing_hidden_boids_first() {
    let mut flags = vec![true, false, true, false, false];
    let spawned = reconcile_population(&mut flags, 4);
    assert_eq!(flags, vec![true, true, true, true, false]);
    assert_eq!(spawned, 0);

    let mut flags = vec![false, true];
    let spawned = reconcile_population(&mut flags, 5);
    assert_eq!(flags, vec![true, true]);
    assert_eq!(spawned, 3);
}

#[test]
fn population_shrinks_from_the_back() {
    let mut flags = vec![true, false, true, true, true];
    let spawned = reconcile_population(&mut flags, 2);
    assert_eq!(flags, vec![true, false, true, false, false]);
    assert_eq!(spawned, 0);

    let mut flags = vec![true, true];
    assert_eq!(reconcile_population(&mut flags, 0), 0);
    assert_eq!(flags, vec![false, false]);
}

#[test]
fn reconciling_twice_changes_nothing_more() {
    for target in [0, 3, 6, 9] {
        let mut flags = vec![false, true, true, false, true, false];
        let spawned = reconcile_population(&mut flags, target);
        assert_eq!(count_visible(&flags) + spawned, target);
        flags.extend(std::iter::repeat(true).take(spawned));
        let before = flags.clone();
        assert_eq!(reconcile_population(&mut flags, target), 0);
        assert_eq!(flags, before);
    }
}

#[test]
fn ripple_origin_picks_the_ranked_visible_boid() {
    let flags = [false, true, false, true, true];
    assert_eq!(ripple_origin(&flags, 0), Some(1));
    assert_eq!(ripple_origin(&flags, 1), Some(3));
    assert_eq!(ripple_origin(&flags, 2), Some(4));
    assert_eq!(ripple_origin(&flags, 9), Some(4));
    assert_eq!(ripple_origin(&[false, false], 0), None);
    assert_eq!(ripple_origin(&[], 0), None);
}

#[test]
fn ripples_beyond_the_limit_drop_the_oldest() {
    let mut ripples = Vec::new();
    for ripple in 0..MAX_ACTIVE_RIPPLES {
        push_ripple(&mut ripples, ripple, MAX_ACTIVE_RIPPLES);
    }
    assert_eq!(ripples.len(), MAX_ACTIVE_RIPPLES);
    push_ripple(&mut ripples, 100, MAX_ACTIVE_RIPPLES);
    assert_eq!(ripples.len(), MAX_ACTIVE_RIPPLES);
    assert_eq!(ripples[0], 1);
    assert_eq!(ripples[MAX_ACTIVE_RIPPLES - 1], 100);

    let mut few = vec![1, 2];
    push_ripple(&mut few, 3, 6);
    assert_eq!(few, vec![1, 2, 3]);
}

#[test]
fn identical_seeds_produce_identical_samples() {
    let mut first = XorShift64::new(4);
    let mut second = XorShift64::new(4);
    for _ in 0..100 {
        assert_eq!(first.next_u32(), second.next_u32());
    }
}

#[test]
fn zero_seed_behaves_like_seed_one() {
    let mut zero = XorShift64::new(0);
    let mut one = XorShift64::new(1);
    let sample = zero.next_u32();
    assert_eq!(sample, 1_082_269_761);
    assert_eq!(one.next_u32(), sample);
}

#[test]
fn generator_state_never_becomes_zero() {
    let mut generator = XorShift64::new(u64::MAX);
    let mut samples = HashSet::new();
    for _ in 0..1_000 {
        samples.insert(generator.next_u32());
    }
    assert!(samples.len() > 990);
}
