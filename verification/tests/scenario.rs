use ripple_board::frame::run_frame;
use ripple_board::grid::{cell_center, interior_index, INTERIOR_CELLS};
use ripple_board::quantizer::{quantize, truncate, DisplaySymbol};
use ripple_board::registry::Registry;
use std::time::Duration;

const CELL_WIDTH: f64 = 16.0;
const CELL_HEIGHT: f64 = 30.0;

fn center(cell: (u32, u32)) -> (f64, f64) {
    let (x, y) = cell_center(cell.0, cell.1);
    (x as f64 * CELL_WIDTH / 2.0, y as f64 * CELL_HEIGHT / 2.0)
}

fn value_at(origin: (f64, f64), age: f64, query: (f64, f64)) -> f64 {
    let r2 = (origin.0 - query.0).powi(2) + (origin.1 - query.1).powi(2);
    100.0 * (-0.5 * age).exp() * (4.0 * age).sin() / (r2 / 10.0 + 0.1).sqrt()
}

fn contribute(origin: (f64, f64), age_nanos: u64, cell: (u32, u32), sum: u64) -> u64 {
    let age = Duration::from_nanos(age_nanos).as_secs_f64();
    (f64::from_bits(sum) + value_at(origin, age, center(cell))).to_bits()
}

#[test]
fn fresh_ripple_contributes_nothing() {
    let mut registry: Registry<(f64, f64)> = Registry::new();
    registry.spawn(center((37, 10)));
    let board = run_frame(&mut registry, 0, contribute);
    assert_eq!(registry.iterate_active(), vec![(center((37, 10)), 0)]);
    for k in 0..INTERIOR_CELLS {
        assert_eq!(f64::from_bits(board.sums[k]), 0.0);
        assert_eq!(board.symbols[k], DisplaySymbol::Placeholder);
    }
}

#[test]
fn one_ripple_rings_at_its_origin() {
    let origin = center((37, 10));
    let mut registry: Registry<(f64, f64)> = Registry::new();
    registry.spawn(origin);
    let board = run_frame(&mut registry, 10_000_000, contribute);
    let at_origin = interior_index(37, 10);
    let expected = 100.0 * (-0.005f64).exp() * (0.04f64).sin() / (0.1f64).sqrt();
    assert!((f64::from_bits(board.sums[at_origin]) - expected).abs() < 1e-9);
    assert_eq!(truncate(board.sums[at_origin]), 12);
    assert_eq!(board.symbols[at_origin], DisplaySymbol::Number(12));
    assert_eq!(board.symbols[at_origin].text(), "12");
}

#[test]
fn one_ripple_shows_the_truncated_field_on_every_frame() {
    let origin = center((37, 10));
    let mut registry: Registry<(f64, f64)> = Registry::new();
    registry.spawn(origin);
    let at_origin = interior_index(37, 10);
    let next_to_it = interior_index(38, 10);
    let frame = 10_000_000u64;
    for n in 1..=1600u64 {
        let board = run_frame(&mut registry, frame, contribute);
        let age = (n * frame) as f64 / 1e9;
        let ring = if age < 15.0 { 100.0 * (-0.5 * age).exp() * (4.0 * age).sin() } else { 0.0 };
        for (k, r2) in [(at_origin, 0.0), (next_to_it, CELL_WIDTH * CELL_WIDTH)] {
            let expected = ring / (r2 / 10.0 + 0.1f64).sqrt();
            let sum = f64::from_bits(board.sums[k]);
            assert!((sum - expected).abs() < 1e-6);
            assert_eq!(board.symbols[k], quantize(board.sums[k]));
            if sum as i32 == 0 {
                assert_eq!(board.symbols[k].text(), "0");
            } else {
                assert_eq!(board.symbols[k].text(), (sum as i32).to_string());
            }
        }
    }
    assert!(registry.is_empty());
}

#[test]
fn far_apart_ripples_do_not_disturb_each_other() {
    let near = center((1, 1));
    let far = (1.0e15, 0.0);
    let mut both: Registry<(f64, f64)> = Registry::new();
    both.spawn(near);
    both.spawn(far);
    let mut only_near: Registry<(f64, f64)> = Registry::new();
    only_near.spawn(near);
    for _ in 0..100 {
        let together = run_frame(&mut both, 16_000_000, contribute);
        let alone = run_frame(&mut only_near, 16_000_000, contribute);
        for k in 0..INTERIOR_CELLS {
            let sum = f64::from_bits(together.sums[k]);
            let single = f64::from_bits(alone.sums[k]);
            assert!((sum - single).abs() < 1e-9);
            let to_next_whole = (single.trunc() + single.signum() - single).abs();
            if (single - single.trunc()).abs() > 1e-6 && to_next_whole > 1e-6 {
                assert_eq!(together.symbols[k], alone.symbols[k]);
            }
        }
    }
}

#[test]
fn two_ripples_superpose() {
    let first = center((10, 5));
    let second = center((60, 15));
    let mut registry: Registry<(f64, f64)> = Registry::new();
    registry.spawn(first);
    registry.advance_all(300_000_000);
    registry.spawn(second);
    let board = run_frame(&mut registry, 100_000_000, contribute);
    for cell in [(10u32, 5u32), (60, 15), (37, 10), (1, 1), (73, 18)] {
        let expected = value_at(first, 0.4, center(cell)) + value_at(second, 0.1, center(cell));
        let sum = f64::from_bits(board.sums[interior_index(cell.0, cell.1)]);
        assert!((sum - expected).abs() < 1e-9);
    }
}
