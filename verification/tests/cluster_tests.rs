use cross_pattern::cancel::CancelToken;
use cross_pattern::cluster::reduce;
use cross_pattern::color::Rgba;
use cross_pattern::pairs::build_sorted_pairs;
use cross_pattern::point::ColorPoint;
use std::sync::mpsc::channel;

fn quiet_token() -> CancelToken {
    let (tx, rx) = channel::<bool>();
    std::mem::forget(tx);
    CancelToken::new(rx)
}

fn signalled_token() -> CancelToken {
    let (tx, rx) = channel::<bool>();
    tx.send(true).unwrap();
    std::mem::forget(tx);
    CancelToken::new(rx)
}

fn reds(values: &[u8]) -> Vec<ColorPoint> {
    values
        .iter()
        .enumerate()
        .map(|(k, v)| ColorPoint::new(k as i64, 0, Rgba::opaque(*v, 0, 0)))
        .collect()
}

fn four_pure() -> Vec<ColorPoint> {
    vec![
        ColorPoint::new(0, 0, Rgba::opaque(255, 0, 0)),
        ColorPoint::new(1, 0, Rgba::opaque(0, 255, 0)),
        ColorPoint::new(0, -1, Rgba::opaque(0, 0, 255)),
        ColorPoint::new(1, -1, Rgba::opaque(255, 255, 255)),
    ]
}

#[test]
fn reduce_of_nothing_is_nothing() {
    let mut token = quiet_token();
    assert_eq!(reduce(Vec::new(), 3, &mut token), Vec::new());
    assert_eq!(reduce(Vec::new(), 0, &mut token), Vec::new());
}

#[test]
fn reduce_to_as_many_colors_changes_nothing() {
    let mut token = quiet_token();
    assert_eq!(reduce(four_pure(), 4, &mut token), four_pure());
    assert_eq!(reduce(four_pure(), 9, &mut token), four_pure());
    assert!(!token.is_tripped());
}

#[test]
fn reduce_to_one_color_gives_the_mean_of_all() {
    let mut token = quiet_token();
    let out = reduce(four_pure(), 1, &mut token);
    let expected: Vec<ColorPoint> = four_pure()
        .iter()
        .map(|p| ColorPoint::new(p.x, p.y, Rgba::opaque(127, 127, 127)))
        .collect();
    assert_eq!(out, expected);
}

#[test]
fn reduce_to_no_color_leaves_one() {
    let mut token = quiet_token();
    let out = reduce(reds(&[0, 10, 200]), 0, &mut token);
    assert_eq!(out, reds(&[70, 70, 70]));
}

#[test]
fn nearest_pair_merges_first() {
    let mut token = quiet_token();
    let out = reduce(reds(&[0, 10, 200, 205]), 3, &mut token);
    assert_eq!(out, reds(&[0, 10, 202, 202]));
}

#[test]
fn merging_stops_at_the_target() {
    let mut token = quiet_token();
    let out = reduce(reds(&[0, 10, 200, 205]), 2, &mut token);
    assert_eq!(out, reds(&[5, 5, 202, 202]));
}

#[test]
fn equal_distances_merge_in_index_order() {
    let mut token = quiet_token();
    let out = reduce(reds(&[0, 10, 20]), 2, &mut token);
    assert_eq!(out, reds(&[5, 5, 20]));
}

#[test]
fn merged_clusters_grow_by_chains() {
    let mut token = quiet_token();
    let out = reduce(reds(&[0, 4, 9, 100, 250]), 3, &mut token);
    assert_eq!(out, reds(&[4, 4, 4, 100, 250]));
    let out = reduce(reds(&[0, 4, 9, 100, 250]), 2, &mut token);
    assert_eq!(out, reds(&[28, 28, 28, 28, 250]));
}

#[test]
fn mean_is_weighted_by_cluster_size() {
    let mut token = quiet_token();
    let out = reduce(reds(&[0, 0, 0, 30]), 1, &mut token);
    assert_eq!(out, reds(&[7, 7, 7, 7]));
}

#[test]
fn distance_counts_all_three_channels() {
    let points = vec![
        ColorPoint::new(0, 0, Rgba::opaque(0, 0, 0)),
        ColorPoint::new(1, 0, Rgba::opaque(2, 2, 2)),
        ColorPoint::new(2, 0, Rgba::opaque(3, 0, 0)),
    ];
    let mut token = quiet_token();
    let out = reduce(points, 2, &mut token);
    assert_eq!(
        out,
        vec![
            ColorPoint::new(0, 0, Rgba::opaque(1, 0, 0)),
            ColorPoint::new(1, 0, Rgba::opaque(2, 2, 2)),
            ColorPoint::new(2, 0, Rgba::opaque(1, 0, 0)),
        ]
    );
}

#[test]
fn merged_points_keep_their_place_and_turn_opaque() {
    let points = vec![
        ColorPoint::new(7, -3, Rgba::new(10, 20, 30, 40)),
        ColorPoint::new(8, -4, Rgba::new(20, 40, 60, 200)),
        ColorPoint::new(9, -5, Rgba::new(250, 250, 250, 9)),
    ];
    let mut token = quiet_token();
    let out = reduce(points, 2, &mut token);
    assert_eq!(
        out,
        vec![
            ColorPoint::new(7, -3, Rgba::new(15, 30, 45, 255)),
            ColorPoint::new(8, -4, Rgba::new(15, 30, 45, 255)),
            ColorPoint::new(9, -5, Rgba::new(250, 250, 250, 9)),
        ]
    );
}

#[test]
fn point_that_is_never_merged_keeps_its_color() {
    let points = vec![
        ColorPoint::new(0, 0, Rgba::new(1, 2, 3, 0)),
        ColorPoint::new(1, 0, Rgba::new(200, 2, 3, 77)),
        ColorPoint::new(2, 0, Rgba::new(201, 2, 3, 88)),
        ColorPoint::new(3, 0, Rgba::new(100, 100, 100, 1)),
    ];
    let mut token = quiet_token();
    let out = reduce(points.clone(), 3, &mut token);
    assert_eq!(out[0], points[0]);
    assert_eq!(out[3], points[3]);
    assert_eq!(out[1].color, Rgba::new(200, 2, 3, 255));
    assert_eq!(out[2].color, Rgba::new(200, 2, 3, 255));
}

#[test]
fn alpha_takes_no_part_in_the_distance() {
    let points = vec![
        ColorPoint::new(0, 0, Rgba::new(0, 0, 0, 0)),
        ColorPoint::new(1, 0, Rgba::new(9, 0, 0, 0)),
        ColorPoint::new(2, 0, Rgba::new(1, 0, 0, 255)),
    ];
    let mut token = quiet_token();
    let out = reduce(points, 2, &mut token);
    assert_eq!(out[0].color, Rgba::new(0, 0, 0, 255));
    assert_eq!(out[1].color, Rgba::new(9, 0, 0, 0));
    assert_eq!(out[2].color, Rgba::new(0, 0, 0, 255));
}

#[test]
fn points_of_one_cluster_show_one_color() {
    let points = vec![
        ColorPoint::new(0, 0, Rgba::new(10, 10, 10, 1)),
        ColorPoint::new(1, 0, Rgba::new(10, 10, 10, 2)),
        ColorPoint::new(2, 0, Rgba::new(12, 10, 10, 3)),
        ColorPoint::new(3, 0, Rgba::new(90, 90, 90, 4)),
        ColorPoint::new(4, 0, Rgba::new(91, 90, 90, 5)),
    ];
    for target in 1..5usize {
        let mut token = quiet_token();
        let out = reduce(points.clone(), target, &mut token);
        let mut colors: Vec<Rgba> = Vec::new();
        for p in &out {
            if !colors.contains(&p.color) {
                colors.push(p.color);
            }
        }
        assert_eq!(colors.len(), target);
    }
}

#[test]
fn second_reduction_turns_a_merged_translucent_point_opaque() {
    let ring = [(0, 10), (3, 3), (10, 0), (17, 3), (20, 10), (17, 17), (10, 20), (3, 17)];
    let mut points = vec![ColorPoint::new(0, 0, Rgba::new(10, 10, 0, 7))];
    for (k, (r, g)) in ring.iter().enumerate() {
        points.push(ColorPoint::new(k as i64 + 1, 0, Rgba::opaque(*r, *g, 0)));
    }
    let mut token = quiet_token();
    let once = reduce(points.clone(), 2, &mut token);
    assert_eq!(once[0], points[0]);
    for k in 1..9 {
        assert_eq!(once[k].color, Rgba::opaque(10, 10, 0));
    }
    let twice = reduce(once.clone(), 2, &mut token);
    assert_eq!(twice[0].color, Rgba::opaque(10, 10, 0));
    assert_ne!(twice, once);
    let thrice = reduce(twice.clone(), 2, &mut token);
    assert_eq!(thrice, twice);
}

#[test]
fn reducing_opaque_points_twice_is_reducing_once() {
    let points = reds(&[0, 10, 200, 205, 90, 91, 17, 254]);
    for target in 0..10usize {
        let mut token = quiet_token();
        let once = reduce(points.clone(), target, &mut token);
        let twice = reduce(once.clone(), target, &mut token);
        assert_eq!(once, twice);
    }
}

#[test]
fn reduction_has_at_most_target_colors() {
    let points = reds(&[0, 10, 200, 205, 90, 91, 17, 254]);
    for target in 1..9usize {
        let mut token = quiet_token();
        let out = reduce(points.clone(), target, &mut token);
        let mut colors: Vec<u8> = out.iter().map(|p| p.color.r).collect();
        colors.sort();
        colors.dedup();
        assert_eq!(out.len(), points.len());
        assert_eq!(colors.len(), target);
    }
}

#[test]
fn signal_before_the_merge_walk_gives_nothing() {
    let mut token = signalled_token();
    let out = reduce(four_pure(), 2, &mut token);
    assert_eq!(out, Vec::new());
    assert!(token.is_tripped());
}

#[test]
fn tripped_token_gives_nothing() {
    let mut token = signalled_token();
    assert!(token.poll());
    let out = reduce(four_pure(), 1, &mut token);
    assert_eq!(out, Vec::new());
}

#[test]
fn signal_is_not_looked_for_when_nothing_is_merged() {
    let mut token = signalled_token();
    let out = reduce(four_pure(), 4, &mut token);
    assert_eq!(out, four_pure());
    assert!(!token.is_tripped());
}

#[test]
fn closed_channel_cancels_nothing() {
    let (tx, rx) = channel::<bool>();
    drop(tx);
    let mut token = CancelToken::new(rx);
    let out = reduce(reds(&[0, 10, 200, 205]), 2, &mut token);
    assert_eq!(out, reds(&[5, 5, 202, 202]));
    assert!(!token.is_tripped());
}

#[test]
fn pairs_ascend_by_distance_then_index() {
    let pairs = build_sorted_pairs(&reds(&[0, 10, 200, 205]));
    assert_eq!(
        pairs,
        vec![
            (25, 2, 3),
            (100, 0, 1),
            (36100, 1, 2),
            (38025, 1, 3),
            (40000, 0, 2),
            (42025, 0, 3),
        ]
    );
}

#[test]
fn pairs_of_equal_distance_keep_index_order() {
    let pairs = build_sorted_pairs(&reds(&[5, 5, 5]));
    assert_eq!(pairs, vec![(0, 0, 1), (0, 0, 2), (0, 1, 2)]);
    assert_eq!(build_sorted_pairs(&reds(&[5])), Vec::new());
    assert_eq!(build_sorted_pairs(&Vec::new()), Vec::new());
}

#[test]
fn token_without_a_channel_never_cancels() {
    let mut token = CancelToken::never();
    assert!(!token.poll());
    assert!(!token.is_tripped());
    let out = reduce(reds(&[0, 10, 200, 205]), 2, &mut token);
    assert_eq!(out, reds(&[5, 5, 202, 202]));
    assert!(!token.is_tripped());
    assert!(token.latch(true));
    assert_eq!(reduce(reds(&[0, 10, 200, 205]), 2, &mut token), Vec::new());
}

#[test]
fn nearest_pair_shows_one_color() {
    let points = vec![
        ColorPoint::new(0, 0, Rgba::new(0, 0, 0, 1)),
        ColorPoint::new(1, 0, Rgba::new(50, 0, 0, 2)),
        ColorPoint::new(2, 0, Rgba::new(58, 0, 0, 3)),
        ColorPoint::new(3, 0, Rgba::new(200, 0, 0, 4)),
    ];
    for target in 0..4usize {
        let mut token = CancelToken::never();
        let out = reduce(points.clone(), target, &mut token);
        assert_eq!(out[1].color, out[2].color);
    }
}
