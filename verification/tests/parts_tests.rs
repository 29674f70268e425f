use cross_pattern::average::AvgColor;
use cross_pattern::color::{Rgba, MAX_DISTANCE};
use cross_pattern::forest::Forest;
use cross_pattern::plane::{build_vec, vector_add, Vector};
use cross_pattern::point::ColorPoint;
use cross_pattern::vector::create_vec;

#[test]
fn distance_is_the_sum_of_squares() {
    let p = Rgba::new(10, 20, 30, 0);
    let q = Rgba::new(13, 16, 42, 255);
    assert_eq!(p.distance_sq(&q), 9 + 16 + 144);
    assert_eq!(q.distance_sq(&p), 9 + 16 + 144);
    assert_eq!(p.distance_sq(&p), 0);
}

#[test]
fn distance_at_most() {
    let black = Rgba::opaque(0, 0, 0);
    let white = Rgba::opaque(255, 255, 255);
    assert_eq!(black.distance_sq(&white), 195075);
    assert_eq!(MAX_DISTANCE, 195075);
}

#[test]
fn colors_from_channels() {
    assert_eq!(Rgba::new(1, 2, 3, 4), Rgba { r: 1, g: 2, b: 3, a: 4 });
    assert_eq!(Rgba::opaque(1, 2, 3), Rgba { r: 1, g: 2, b: 3, a: 255 });
}

#[test]
fn points_keep_their_place_when_recolored() {
    let p = ColorPoint::new(3, -4, Rgba::opaque(1, 2, 3));
    assert_eq!(p, ColorPoint { x: 3, y: -4, color: Rgba::opaque(1, 2, 3) });
    assert_eq!(
        p.recolored(Rgba::new(9, 8, 7, 6)),
        ColorPoint { x: 3, y: -4, color: Rgba::new(9, 8, 7, 6) }
    );
}

#[test]
fn average_of_nothing_is_black() {
    let avg = AvgColor::new();
    assert_eq!(avg.count(), 0);
    assert_eq!(avg.compute_average(), Rgba::opaque(0, 0, 0));
}

#[test]
fn average_rounds_down_and_is_opaque() {
    let mut avg = AvgColor::new();
    avg.add_color(Rgba::new(10, 0, 255, 3));
    assert_eq!(avg.count(), 1);
    assert_eq!(avg.compute_average(), Rgba::opaque(10, 0, 255));
    avg.add_color(Rgba::new(13, 1, 255, 7));
    avg.add_color(Rgba::new(12, 1, 254, 7));
    assert_eq!(avg.count(), 3);
    assert_eq!(avg.compute_average(), Rgba::opaque(11, 0, 254));
}

#[test]
fn fresh_forest_has_every_index_alone() {
    let mut forest = Forest::new(4);
    assert_eq!(forest.len(), 4);
    assert_eq!(forest.live(), 4);
    for k in 0..4 {
        assert_eq!(forest.find(k), k);
    }
    let mut none = Forest::new(0);
    assert_eq!(none.len(), 0);
    assert_eq!(none.live(), 0);
    assert_eq!(none.len(), 0);
}

#[test]
fn linked_clusters_share_the_lesser_root() {
    let mut forest = Forest::new(5);
    forest.link(3, 1);
    assert_eq!(forest.live(), 4);
    assert_eq!(forest.find(3), 1);
    assert_eq!(forest.find(1), 1);
    forest.link(4, 2);
    let a = forest.find(3);
    let b = forest.find(4);
    forest.link(a, b);
    assert_eq!(forest.live(), 2);
    for k in 1..5 {
        assert_eq!(forest.find(k), 1);
    }
    assert_eq!(forest.find(0), 0);
    forest.link(0, 1);
    assert_eq!(forest.live(), 1);
    for k in 0..5 {
        assert_eq!(forest.find(k), 0);
    }
}

#[test]
fn list_reports_its_length() {
    let mut list = create_vec();
    assert_eq!(list.add_item(22), 1);
    assert_eq!(list.add_item(-5), 2);
    assert_eq!(*list.get_item(0), 22);
    assert_eq!(*list.get_item(1), -5);
    assert_eq!(list.remove_item(), Ok(1));
    assert_eq!(*list.get_item(0), 22);
    assert_eq!(list.remove_item(), Ok(0));
}

#[test]
fn empty_list_has_nothing_to_remove() {
    let mut list = create_vec();
    assert_eq!(list.remove_item(), Err("No more items to remove!"));
    assert_eq!(list.add_item(1), 1);
    assert_eq!(list.remove_item(), Ok(0));
    assert_eq!(list.remove_item(), Err("No more items to remove!"));
}

#[test]
fn plane_vectors() {
    assert_eq!(Vector::zero(), Vector { x: 0, y: 0 });
    assert_eq!(Vector::zero().distance_sqd(), 0);
    assert_eq!(build_vec(2, 4), Vector { x: 2, y: 4 });
    assert_eq!(build_vec(-3, 4).distance_sqd(), 25);
    assert_eq!(build_vec(1, 1).distance_sqd(), 2);
    assert_eq!(vector_add((1, 0), (0, 1)), (1, 1));
    assert_eq!(vector_add((-5, 7), (2, -9)), (-3, -2));
}
