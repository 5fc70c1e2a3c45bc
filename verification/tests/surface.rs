use vipix::bitmap2d::BitMap2D;
use vipix::bitmap2d::PosSet;
use vipix::canvas::Canvas;
use vipix::selection::tile_offsets;
use vipix::visual::even_radius_andres;
use vipix::visual::odd_radius_andres;
use vipix::visual::VisualType;

fn pos_vec(s: &PosSet) -> Vec<(usize, usize)> {
    let mut v = Vec::new();
    let mut i = 0;
    while i < s.len() {
        v.push(s.get(i));
        i += 1;
    }
    v.sort();
    v
}

#[test]
fn canvas_new_is_opaque_black() {
    let c = Canvas::new(4, 3);
    assert_eq!(c.size(), (4, 3));
    assert_eq!(c.width(), 4);
    assert_eq!(c.height(), 3);
    for y in 0..3 {
        for x in 0..4 {
            assert_eq!(c.get_pixel_color(x, y), (0, 0, 0, 255));
        }
    }
}

#[test]
fn canvas_set_and_get_pixel() {
    let mut c = Canvas::new(4, 3);
    c.set_pixel_color(2, 1, (255, 10, 20, 30));
    assert_eq!(c.get_pixel_color(2, 1), (255, 10, 20, 30));
    assert_eq!(c.get_pixel_color(1, 2), (0, 0, 0, 255));
}

#[test]
fn canvas_data_raw_flattens_rgba() {
    let mut c = Canvas::new(2, 2);
    c.set_pixel_color(1, 0, (9, 8, 7, 6));
    let bytes = c.data_raw();
    assert_eq!(bytes.len(), 16);
    assert_eq!(&bytes[0..4], &[0, 0, 0, 255]);
    assert_eq!(&bytes[4..8], &[9, 8, 7, 6]);
    assert_eq!(&bytes[8..12], &[0, 0, 0, 255]);
}

#[test]
fn posset_insert_deduplicates() {
    let mut s = PosSet::new();
    s.insert(1, 2);
    s.insert(1, 2);
    s.insert(3, 4);
    assert_eq!(s.len(), 2);
    assert!(s.contains(1, 2));
    assert!(s.contains(3, 4));
    assert!(!s.contains(2, 1));
}

#[test]
fn posset_remove_and_clear() {
    let mut s = PosSet::new();
    s.insert(1, 1);
    s.insert(2, 2);
    s.remove(1, 1);
    assert!(!s.contains(1, 1));
    assert!(s.contains(2, 2));
    s.clear();
    assert_eq!(s.len(), 0);
}

#[test]
fn posset_as_bitmap() {
    let mut s = PosSet::new();
    s.set_bit(5, 6);
    assert!(s.get_bit(5, 6));
    s.clear_bit(5, 6);
    assert!(!s.get_bit(5, 6));
}

#[test]
fn select_pixels_square_marks_full_rectangle() {
    let mut s = PosSet::new();
    VisualType::Square.select_pixels(&mut s, (1, 1), (2, 3));
    assert_eq!(
        pos_vec(&s),
        vec![(1, 1), (1, 2), (1, 3), (2, 1), (2, 2), (2, 3)]
    );
}

#[test]
fn select_pixels_square_single_cell() {
    let mut s = PosSet::new();
    VisualType::Square.select_pixels(&mut s, (2, 2), (2, 2));
    assert_eq!(pos_vec(&s), vec![(2, 2)]);
}

#[test]
fn select_pixels_circle_even_distance_draws_ring() {
    // Corners (1,1)..(3,3): distance 2, integer-centred ring of radius 1
    // around (2,2), without the centre.
    let mut s = PosSet::new();
    VisualType::Circle.select_pixels(&mut s, (1, 1), (3, 3));
    assert_eq!(
        pos_vec(&s),
        vec![
            (1, 1),
            (1, 2),
            (1, 3),
            (2, 1),
            (2, 3),
            (3, 1),
            (3, 2),
            (3, 3)
        ]
    );
    assert!(!s.contains(2, 2));
}

#[test]
fn select_pixels_circle_odd_distance_draws_block() {
    // Corners (0,0)..(1,1): distance 1, half-centred walk marks the whole
    // two-by-two block.
    let mut s = PosSet::new();
    VisualType::Circle.select_pixels(&mut s, (0, 0), (1, 1));
    assert_eq!(pos_vec(&s), vec![(0, 0), (0, 1), (1, 0), (1, 1)]);
}

#[test]
fn select_pixels_circle_touching_the_origin_edge() {
    // Corners (0,0)..(3,3): distance 3, half-centred walk around (1,1);
    // the ring may hug the canvas' top and left edges.
    let mut s = PosSet::new();
    VisualType::Circle.select_pixels(&mut s, (0, 0), (3, 3));
    assert_eq!(
        pos_vec(&s),
        vec![
            (0, 1),
            (0, 2),
            (1, 0),
            (1, 3),
            (2, 0),
            (2, 3),
            (3, 1),
            (3, 2)
        ]
    );
}

#[test]
fn select_pixels_circle_degenerate_is_centre() {
    let mut s = PosSet::new();
    VisualType::Circle.select_pixels(&mut s, (2, 2), (2, 2));
    assert_eq!(pos_vec(&s), vec![(2, 2)]);
}

#[test]
fn odd_radius_walk_matches_expected_ring() {
    let mut s = PosSet::new();
    odd_radius_andres(&mut s, (2, 2), 1);
    assert_eq!(
        pos_vec(&s),
        vec![
            (1, 1),
            (1, 2),
            (1, 3),
            (2, 1),
            (2, 3),
            (3, 1),
            (3, 2),
            (3, 3)
        ]
    );
}

#[test]
fn even_radius_walk_matches_expected_block() {
    let mut s = PosSet::new();
    even_radius_andres(&mut s, (0, 0), 1);
    assert_eq!(pos_vec(&s), vec![(0, 0), (0, 1), (1, 0), (1, 1)]);
}

#[test]
fn negative_radius_walks_mark_nothing() {
    let mut s = PosSet::new();
    odd_radius_andres(&mut s, (5, 5), -3);
    even_radius_andres(&mut s, (5, 5), 0);
    assert_eq!(s.len(), 0);
}

#[test]
fn tile_offsets_isolated_pixel_has_all_borders() {
    let mut s = PosSet::new();
    s.insert(5, 5);
    assert_eq!(tile_offsets(&s, 5, 5), (3, 3));
}

#[test]
fn tile_offsets_follow_missing_neighbours() {
    let mut s = PosSet::new();
    s.insert(5, 5);
    s.insert(6, 5);
    s.insert(5, 4);
    // Right and upper neighbours present: their weights are dropped.
    assert_eq!(tile_offsets(&s, 5, 5), (1, 1));
    // The pixel to the right misses its own right neighbour.
    assert_eq!(tile_offsets(&s, 6, 5), (2, 3));
}
