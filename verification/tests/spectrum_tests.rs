use std::collections::BTreeMap;

use materialize::config::Configuration;
use materialize::spectrum::{fit_to_item_count, take_window};

fn config(items: u32, viewed: u32) -> Configuration {
    let mut c = Configuration::default();
    c.number_of_items.value = items;
    c.viewed_frequencies.value = viewed;
    c
}

#[test]
fn bands_split_by_frequency_and_stop_past_the_last_band() {
    let c = config(4, 400);
    let map: BTreeMap<u32, f32> = [
        (0, 1.0),
        (50, 2.0),
        (100, 3.0),
        (250, 4.0),
        (399, 5.0),
        (400, 6.0),
        (900, 7.0),
    ]
    .into_iter()
    .collect();
    let bands = c.map_to_representation(&map, 0.0f32);
    assert_eq!(
        bands,
        vec![
            vec![0.0, 1.0, 2.0],
            vec![0.0, 3.0],
            vec![0.0, 4.0],
            vec![0.0, 5.0],
        ]
    );
}

#[test]
fn bands_move_on_by_one_at_most() {
    let c = config(4, 400);
    let map: BTreeMap<u32, f32> = [(0, 1.0), (350, 2.0)].into_iter().collect();
    let bands = c.map_to_representation(&map, 0.0f32);
    assert_eq!(bands, vec![vec![0.0, 1.0], vec![0.0, 2.0], vec![0.0], vec![0.0]]);
}

#[test]
fn bands_with_zero_width_advance_on_every_entry() {
    let c = config(3, 2);
    let map: BTreeMap<u32, u8> = [(5, 1), (6, 2), (7, 3), (8, 4)].into_iter().collect();
    let bands = c.map_to_representation(&map, 0u8);
    assert_eq!(bands, vec![vec![0], vec![0, 1], vec![0, 2]]);
}

#[test]
fn bands_of_an_empty_spectrum() {
    let c = config(3, 300);
    let map: BTreeMap<u32, f32> = BTreeMap::new();
    let bands = c.map_to_representation(&map, 0.0f32);
    assert_eq!(bands, vec![vec![0.0], vec![0.0], vec![0.0]]);
}

#[test]
fn bands_keep_every_value_below_the_limit() {
    let c = config(5, 500);
    let map: BTreeMap<u32, u32> = (0..50u32).map(|k| (k * 10, k)).collect();
    let bands = c.map_to_representation(&map, 1000u32);
    assert_eq!(bands.len(), 5);
    let spread: Vec<u32> = bands.iter().flat_map(|b| b[1..].to_vec()).collect();
    assert_eq!(spread, (0..50u32).collect::<Vec<_>>());
    for b in &bands {
        assert_eq!(b[0], 1000);
    }
    for (i, b) in bands.iter().enumerate() {
        for &v in &b[1..] {
            assert!(v * 10 >= (i as u32) * 100);
        }
    }
}

#[test]
fn window_waits_for_enough_samples() {
    let mut points = vec![1, 2, 3];
    assert_eq!(take_window(&mut points, 4), None);
    assert_eq!(points, vec![1, 2, 3]);
}

#[test]
fn window_drops_half_a_window() {
    let mut points = vec![1, 2, 3, 4, 5, 6, 7, 8];
    assert_eq!(take_window(&mut points, 4), Some(vec![1, 2, 3, 4]));
    assert_eq!(points, vec![3, 4, 5, 6, 7, 8]);
    assert_eq!(take_window(&mut points, 4), Some(vec![3, 4, 5, 6]));
    assert_eq!(points, vec![5, 6, 7, 8]);
}

#[test]
fn window_of_odd_size() {
    let mut points = vec![1.0f32, 2.0, 3.0, 4.0];
    assert_eq!(take_window(&mut points, 3), Some(vec![1.0, 2.0, 3.0]));
    assert_eq!(points, vec![2.0, 3.0, 4.0]);
}

#[test]
fn counters_grow_with_fill() {
    let mut counter = vec![(2.0f32, 2.0f32, 2.0f32)];
    let mut values = vec![vec![0.0f32], vec![1.0]];
    fit_to_item_count(&mut counter, &mut values, 3, (1.0, 1.0, 1.0));
    assert_eq!(counter, vec![(2.0, 2.0, 2.0), (1.0, 1.0, 1.0), (1.0, 1.0, 1.0)]);
    assert_eq!(values, vec![vec![0.0], vec![1.0]]);
}

#[test]
fn counters_shrink_with_their_bands() {
    let mut counter = vec![1, 2, 3, 4];
    let mut values = vec![vec![9], vec![8], vec![7], vec![6]];
    fit_to_item_count(&mut counter, &mut values, 2, 0);
    assert_eq!(counter, vec![1, 2]);
    assert_eq!(values, vec![vec![9], vec![8]]);
}

#[test]
fn counters_already_fitting_stay() {
    let mut counter = vec![1, 2];
    let mut values = vec![vec![9], vec![8], vec![7]];
    fit_to_item_count(&mut counter, &mut values, 2, 0);
    assert_eq!(counter, vec![1, 2]);
    assert_eq!(values, vec![vec![9], vec![8], vec![7]]);
}

#[test]
fn bands_depend_only_on_the_map_contents() {
    let c = config(3, 30);
    let mut forward: BTreeMap<u32, i32> = BTreeMap::new();
    let mut backward: BTreeMap<u32, i32> = BTreeMap::new();
    for k in 0..40u32 {
        forward.insert(k, k as i32 * 2);
    }
    for k in (0..40u32).rev() {
        backward.insert(k, k as i32 * 2);
    }
    let a = c.map_to_representation(&forward, -1);
    let b = c.map_to_representation(&backward, -1);
    assert_eq!(a, b);
    assert_eq!(a[0], vec![-1, 0, 2, 4, 6, 8, 10, 12, 14, 16, 18]);
    assert_eq!(a[2], vec![-1, 40, 42, 44, 46, 48, 50, 52, 54, 56, 58]);
}

#[test]
fn bands_hold_their_own_frequencies_when_none_is_skipped() {
    let c = config(4, 400);
    let map: BTreeMap<u32, u32> = [0u32, 30, 120, 150, 210, 399].into_iter().map(|k| (k, k)).collect();
    let bands = c.map_to_representation(&map, u32::MAX);
    assert_eq!(
        bands,
        vec![
            vec![u32::MAX, 0, 30],
            vec![u32::MAX, 120, 150],
            vec![u32::MAX, 210],
            vec![u32::MAX, 399],
        ]
    );
    for (i, band) in bands.iter().enumerate() {
        for &key in &band[1..] {
            assert_eq!(key / 100, i as u32);
        }
    }
}
