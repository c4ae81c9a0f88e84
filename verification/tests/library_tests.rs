use oxidized_image_processing::canny_edge::{
    double_threshold_strengths, non_maxima_suppression_outcomes, normal_orientation,
    AngleBounds, EdgeLine, EdgeOrientation, PixelStrength, SuppressionOutcome,
};
use oxidized_image_processing::float_image::min_max_positions;
use oxidized_image_processing::grid::Grid;
use oxidized_image_processing::haar_filter::{HaarFilter, OffsetAndSign};
use oxidized_image_processing::helper_ops::{
    convolution_layout, flip_2d, flip_across_x, flip_across_y, flip_rows, same_size_crop,
    zero_pad,
};
use oxidized_image_processing::local_statistics::window_element_count;
use oxidized_image_processing::otsu::{above_threshold, make_grayhistrogram};
use std::f32::consts::{FRAC_PI_2, FRAC_PI_4, FRAC_PI_8, PI};

fn cells<T: Copy>(g: &Grid<T>) -> Vec<Vec<T>> {
    (0..g.rows())
        .map(|r| (0..g.cols()).map(|c| *g.get(r, c)).collect())
        .collect()
}

fn key(x: f32) -> Option<i32> {
    if x.is_nan() {
        return None;
    }
    let magnitude = x.abs().to_bits() as i32;
    if x < 0.0 {
        Some(-magnitude)
    } else {
        Some(magnitude)
    }
}

fn key_grid(rows: usize, cols: usize, values: &[f32]) -> Grid<Option<i32>> {
    Grid::from_vec(rows, cols, values.iter().map(|v| key(*v)).collect()).unwrap()
}

#[test]
fn grid_from_vec_checks_the_length() {
    assert!(Grid::from_vec(2, 3, vec![1, 2, 3, 4, 5]).is_none());
    assert!(Grid::from_vec(usize::MAX, 2, vec![1]).is_none());
    let g = Grid::from_vec(2, 3, vec![1, 2, 3, 4, 5, 6]).unwrap();
    assert_eq!(g.rows(), 2);
    assert_eq!(g.cols(), 3);
    assert_eq!(g.size(), 6);
    assert_eq!(cells(&g), vec![vec![1, 2, 3], vec![4, 5, 6]]);
}

#[test]
fn grid_filled_set_and_swap() {
    let mut g = Grid::filled(2, 2, 7u8);
    assert_eq!(cells(&g), vec![vec![7, 7], vec![7, 7]]);
    g.set(0, 1, 3);
    assert_eq!(cells(&g), vec![vec![7, 3], vec![7, 7]]);
    g.swap(0, 1, 1, 0);
    assert_eq!(cells(&g), vec![vec![7, 7], vec![3, 7]]);
}

#[test]
fn flip_across_y_twice_restores() {
    let start = vec![vec![1, 2, 3], vec![4, 5, 6]];
    let mut g = Grid::from_vec(2, 3, vec![1, 2, 3, 4, 5, 6]).unwrap();
    flip_across_y(&mut g);
    assert_eq!(cells(&g), vec![vec![3, 2, 1], vec![6, 5, 4]]);
    flip_across_y(&mut g);
    assert_eq!(cells(&g), start);
}

#[test]
fn flips_commute_and_flip_2d_twice_restores() {
    let mut a = Grid::from_vec(3, 2, vec![1, 2, 3, 4, 5, 6]).unwrap();
    let mut b = Grid::from_vec(3, 2, vec![1, 2, 3, 4, 5, 6]).unwrap();
    flip_across_x(&mut a);
    flip_across_y(&mut a);
    flip_across_y(&mut b);
    flip_across_x(&mut b);
    assert_eq!(cells(&a), cells(&b));
    assert_eq!(cells(&a), vec![vec![6, 5], vec![4, 3], vec![2, 1]]);
    flip_2d(&mut a);
    assert_eq!(cells(&a), vec![vec![1, 2], vec![3, 4], vec![5, 6]]);
}

#[test]
fn zero_pad_places_the_base() {
    let base = Grid::from_vec(2, 2, vec![1, 2, 3, 4]).unwrap();
    let padded = zero_pad(&base, 1, 2, 4, 5, 0);
    assert_eq!(
        cells(&padded),
        vec![
            vec![0, 0, 0, 0, 0],
            vec![0, 0, 1, 2, 0],
            vec![0, 0, 3, 4, 0],
            vec![0, 0, 0, 0, 0],
        ]
    );
    let empty = Grid::from_vec(0, 3, Vec::<i32>::new()).unwrap();
    assert_eq!(cells(&zero_pad(&empty, 9, 9, 1, 2, 5)), vec![vec![5, 5]]);
}

#[test]
fn same_size_crop_keeps_the_image_shape() {
    let full = Grid::from_vec(
        5,
        5,
        vec![
            1, 2, 3, 2, 1, 2, 4, 6, 4, 2, 3, 6, 9, 6, 3, 2, 4, 6, 4, 2, 1, 2, 3, 2, 1,
        ],
    )
    .unwrap();
    let middle = same_size_crop(&full, (3, 3), (3, 3));
    assert_eq!(cells(&middle), vec![vec![4, 6, 4], vec![6, 9, 6], vec![4, 6, 4]]);
    let wide = Grid::from_vec(2, 4, vec![1, 2, 3, 4, 5, 6, 7, 8]).unwrap();
    let cropped = same_size_crop(&wide, (1, 3), (2, 2));
    assert_eq!(cells(&cropped), vec![vec![2, 3], vec![6, 7]]);
    let none = same_size_crop(&Grid::from_vec(2, 2, vec![1, 2, 3, 4]).unwrap(), (3, 3), (0, 0));
    assert_eq!((none.rows(), none.cols()), (0, 0));
}

#[test]
fn window_counts() {
    assert_eq!(window_element_count(5, 5, 10, 10, 5, 5), 25);
    assert_eq!(window_element_count(0, 0, 10, 10, 5, 5), 4);
    assert_eq!(window_element_count(9, 9, 10, 10, 5, 5), 16);
    assert_eq!(window_element_count(0, 5, 10, 10, 5, 5), 10);
    assert_eq!(window_element_count(1, 0, 2, 2, 2, 2), 2);
    assert_eq!(window_element_count(0, 0, 1, 1, 5, 5), 1);
}

#[test]
fn window_counts_never_exceed_the_window() {
    for col in 0..12 {
        for row in 0..12 {
            assert!(window_element_count(col, row, 12, 12, 5, 3) <= 15);
        }
    }
}

#[test]
fn offset_and_sign_new() {
    let o = OffsetAndSign::new(3, 4, -1);
    assert_eq!(o.offset_coords, (3, 4));
    assert_eq!(o.sign, -1);
}

#[test]
fn haar_two_rectangle_horizontal_corners() {
    let f = HaarFilter::two_rectangle_horizontal(20, 25);
    assert_eq!(
        f.corner_descriptors.to_vec(),
        vec![
            (25, 20, -1),
            (0, 20, 1),
            (25, 0, 1),
            (0, 0, -1),
            (50, 20, 1),
            (25, 20, -1),
            (50, 0, -1),
            (25, 0, 1)
        ]
    );
    assert_eq!(f.offset_x, 25);
    assert_eq!(f.offset_y, 10);
    assert_eq!(f.corner_descriptors.len(), 8);
    assert_eq!(f.corner_descriptors.get(4).offset_coords, (50, 20));
}

#[test]
fn haar_other_shapes() {
    let v = HaarFilter::two_rectangle_vertical(4, 6);
    assert_eq!(
        v.corner_descriptors.to_vec(),
        vec![
            (6, 4, -1),
            (0, 4, 1),
            (6, 0, 1),
            (0, 0, -1),
            (6, 8, 1),
            (0, 8, -1),
            (6, 4, -1),
            (0, 4, 1)
        ]
    );
    assert_eq!((v.offset_x, v.offset_y), (3, 4));

    let t = HaarFilter::three_rectangle_horiztonal(4, 3);
    let corners = t.corner_descriptors.to_vec();
    assert_eq!(corners.len(), 12);
    assert_eq!(&corners[8..], &[(9, 4, -1), (6, 4, 1), (9, 0, 1), (6, 0, -1)]);
    assert_eq!((t.offset_x, t.offset_y), (4, 2));

    let q = HaarFilter::four_rectangle(2, 2);
    let corners = q.corner_descriptors.to_vec();
    assert_eq!(corners.len(), 16);
    assert_eq!(&corners[12..], &[(4, 4, 1), (2, 4, -1), (4, 2, -1), (2, 2, 1)]);
    assert_eq!(&corners[..4], &[(2, 2, 1), (0, 2, -1), (2, 0, -1), (0, 0, 1)]);
    assert_eq!((q.offset_x, q.offset_y), (2, 2));
}

#[test]
fn haar_signs_cancel() {
    for f in [
        HaarFilter::two_rectangle_horizontal(3, 5),
        HaarFilter::two_rectangle_vertical(3, 5),
        HaarFilter::three_rectangle_horiztonal(3, 5),
        HaarFilter::four_rectangle(3, 5),
    ] {
        let total: i32 = f.corner_descriptors.to_vec().iter().map(|c| c.2).sum();
        assert_eq!(total, 0);
    }
}

#[test]
fn edge_lines_by_orientation() {
    let v = EdgeLine::for_orientation(EdgeOrientation::Vertical);
    assert_eq!(v.name(), "vertical_edge");
    assert_eq!((v.adjacent1(), v.adjacent2()), ((1, 0), (-1, 0)));
    let n = EdgeLine::for_orientation(EdgeOrientation::NegDiagonal);
    assert_eq!(n.name(), "neg_45_edge");
    assert_eq!((n.adjacent1(), n.adjacent2()), ((1, 1), (-1, -1)));
    let h = EdgeLine::for_orientation(EdgeOrientation::Horizontal);
    assert_eq!(h.name(), "horizontal_edge");
    assert_eq!((h.adjacent1(), h.adjacent2()), ((0, 1), (0, -1)));
    let p = EdgeLine::for_orientation(EdgeOrientation::PosDiagonal);
    assert_eq!(p.name(), "pos_45_edge");
    assert_eq!((p.adjacent1(), p.adjacent2()), ((-1, 1), (1, -1)));
    let b = EdgeLine::for_orientation(EdgeOrientation::Broken);
    assert_eq!(b.name(), "broken");
    assert_eq!((b.adjacent1(), b.adjacent2()), ((100, 100), (-100, -100)));
}

#[test]
fn edge_neighbours_are_opposite() {
    for o in [
        EdgeOrientation::Vertical,
        EdgeOrientation::NegDiagonal,
        EdgeOrientation::Horizontal,
        EdgeOrientation::PosDiagonal,
        EdgeOrientation::Broken,
    ] {
        let e = EdgeLine::for_orientation(o);
        assert_eq!(e.adjacent2(), (-e.adjacent1().0, -e.adjacent1().1));
    }
}

fn bounds() -> AngleBounds {
    AngleBounds {
        pi_8: key(FRAC_PI_8).unwrap(),
        three_pi_8: key(FRAC_PI_8 * 3.0).unwrap(),
        five_pi_8: key(FRAC_PI_8 * 5.0).unwrap(),
        seven_pi_8: key(FRAC_PI_8 * 7.0).unwrap(),
        pi: key(PI).unwrap(),
    }
}

#[test]
fn orientation_of_angles() {
    let b = bounds();
    assert_eq!(normal_orientation(key(0.0), &b), EdgeOrientation::Vertical);
    assert_eq!(normal_orientation(key(-0.0), &b), EdgeOrientation::Vertical);
    assert_eq!(normal_orientation(key(FRAC_PI_8), &b), EdgeOrientation::Vertical);
    assert_eq!(normal_orientation(key(FRAC_PI_4), &b), EdgeOrientation::NegDiagonal);
    assert_eq!(normal_orientation(key(FRAC_PI_2), &b), EdgeOrientation::Horizontal);
    assert_eq!(normal_orientation(key(3.0 * FRAC_PI_4), &b), EdgeOrientation::PosDiagonal);
    assert_eq!(normal_orientation(key(PI), &b), EdgeOrientation::Vertical);
    assert_eq!(normal_orientation(key(-PI), &b), EdgeOrientation::Vertical);
    assert_eq!(normal_orientation(key(-3.0 * FRAC_PI_4), &b), EdgeOrientation::NegDiagonal);
    assert_eq!(normal_orientation(key(-FRAC_PI_2), &b), EdgeOrientation::Horizontal);
    assert_eq!(normal_orientation(key(-FRAC_PI_4), &b), EdgeOrientation::PosDiagonal);
    assert_eq!(normal_orientation(key(4.0), &b), EdgeOrientation::Broken);
    assert_eq!(normal_orientation(key(f32::NAN), &b), EdgeOrientation::Broken);
}

#[test]
fn suppression_keeps_a_ridge() {
    let directions = vec![EdgeOrientation::Vertical; 9];
    let magnitudes: Vec<Option<i32>> = [1.0f32, 1.0, 1.0, 2.0, 5.0, 3.0, 1.0, 1.0, 1.0]
        .iter()
        .map(|v| key(*v))
        .collect();
    let outcomes = non_maxima_suppression_outcomes(&directions, &magnitudes, 3, 3).unwrap();
    let b = SuppressionOutcome::Border;
    assert_eq!(
        cells(&outcomes),
        vec![vec![b, b, b], vec![b, SuppressionOutcome::Kept, b], vec![b, b, b]]
    );
    let flat: Vec<Option<i32>> = [1.0f32, 1.0, 1.0, 2.0, 2.0, 3.0, 1.0, 1.0, 1.0]
        .iter()
        .map(|v| key(*v))
        .collect();
    let outcomes = non_maxima_suppression_outcomes(&directions, &flat, 3, 3).unwrap();
    assert_eq!(*outcomes.get(1, 1), SuppressionOutcome::Suppressed);
}

#[test]
fn suppression_refuses_what_it_cannot_read() {
    let directions = vec![EdgeOrientation::Broken; 9];
    let magnitudes = vec![key(1.0); 9];
    assert!(non_maxima_suppression_outcomes(&directions, &magnitudes, 3, 3).is_none());
    assert!(non_maxima_suppression_outcomes(&Vec::new(), &Vec::new(), 0, 4).is_none());
    assert!(non_maxima_suppression_outcomes(&Vec::new(), &Vec::new(), 3, 0).is_none());
    let edge_only = non_maxima_suppression_outcomes(&Vec::new(), &Vec::new(), 2, 0).unwrap();
    assert_eq!(edge_only.rows(), 2);
}

#[test]
fn double_threshold_classes() {
    let image = key_grid(1, 4, &[10.0, 15.0, 49.0, 50.0]);
    let strengths = double_threshold_strengths(&image, key(15.0), key(50.0));
    assert_eq!(
        cells(&strengths),
        vec![vec![
            PixelStrength::NonEdge,
            PixelStrength::Weak,
            PixelStrength::Weak,
            PixelStrength::Strong
        ]]
    );
    let nan = key_grid(1, 1, &[f32::NAN]);
    assert_eq!(
        *double_threshold_strengths(&nan, key(15.0), key(50.0)).get(0, 0),
        PixelStrength::NonEdge
    );
}

#[test]
fn gray_histogram_counts_levels() {
    let levels = vec![0, 3, 3, 255, 3];
    let h = make_grayhistrogram(&levels);
    assert_eq!(h.len(), 256);
    assert_eq!(h[0], 1);
    assert_eq!(h[3], 3);
    assert_eq!(h[255], 1);
    assert_eq!(h[1], 0);
    assert_eq!(h.iter().sum::<usize>(), levels.len());
}

#[test]
fn otsu_split_above_threshold() {
    let image = key_grid(2, 2, &[0.0, 100.0, 101.0, -3.0]);
    let light = above_threshold(&image, key(100.0));
    assert_eq!(cells(&light), vec![vec![false, false], vec![true, false]]);
}

#[test]
fn running_extrema() {
    let items: Vec<Option<i32>> = [5.0f32, 2.0, 7.0, 2.0].iter().map(|v| key(*v)).collect();
    assert_eq!(min_max_positions(&items, key(300.0), key(-1.0)), (Some(1), Some(2)));
    let high: Vec<Option<i32>> = [400.0f32, 500.0].iter().map(|v| key(*v)).collect();
    assert_eq!(min_max_positions(&high, key(300.0), key(-1.0)), (None, Some(1)));
    assert_eq!(min_max_positions(&Vec::new(), key(300.0), key(-1.0)), (None, None));
}

fn integral_of(image: &[Vec<i64>]) -> Vec<Vec<i64>> {
    let rows = image.len();
    let cols = image[0].len();
    let mut integral = vec![vec![0i64; cols + 1]; rows + 1];
    for x in 0..rows {
        for y in 0..cols {
            integral[x + 1][y + 1] =
                image[x][y] + integral[x][y + 1] + integral[x + 1][y] - integral[x][y];
        }
    }
    integral
}

fn rect(image: &[Vec<i64>], x0: usize, y0: usize, x1: usize, y1: usize) -> i64 {
    (x0..x1).map(|x| (y0..y1).map(|y| image[x][y]).sum::<i64>()).sum()
}

#[test]
fn haar_response_is_white_less_black() {
    let image: Vec<Vec<i64>> = (0..9)
        .map(|x| (0..8).map(|y| ((x * 7 + y * 3) % 11) as i64).collect())
        .collect();
    let integral = integral_of(&image);
    let response = |f: &HaarFilter, i: usize, j: usize| -> i64 {
        f.corner_descriptors
            .to_vec()
            .iter()
            .map(|&(x, y, s)| s as i64 * integral[i + x][j + y])
            .sum()
    };
    let (mv, mh) = (2, 3);
    let (i, j) = (1, 2);
    let h = HaarFilter::two_rectangle_horizontal(mv, mh);
    assert_eq!(
        response(&h, i, j),
        rect(&image, i + mh, j, i + 2 * mh, j + mv) - rect(&image, i, j, i + mh, j + mv)
    );
    let v = HaarFilter::two_rectangle_vertical(mv, mh);
    assert_eq!(
        response(&v, i, j),
        rect(&image, i, j + mv, i + mh, j + 2 * mv) - rect(&image, i, j, i + mh, j + mv)
    );
    let (mv, mh) = (2, 2);
    let t = HaarFilter::three_rectangle_horiztonal(mv, mh);
    assert_eq!(
        response(&t, i, j),
        rect(&image, i + mh, j, i + 2 * mh, j + mv)
            - rect(&image, i, j, i + mh, j + mv)
            - rect(&image, i + 2 * mh, j, i + 3 * mh, j + mv)
    );
    let q = HaarFilter::four_rectangle(mv, mh);
    assert_eq!(
        response(&q, i, j),
        rect(&image, i, j, i + mh, j + mv) + rect(&image, i + mh, j + mv, i + 2 * mh, j + 2 * mv)
            - rect(&image, i + mh, j, i + 2 * mh, j + mv)
            - rect(&image, i, j + mv, i + mh, j + 2 * mv)
    );
}

#[test]
fn double_threshold_never_ranks_brighter_lower() {
    let rank = |s: PixelStrength| match s {
        PixelStrength::NonEdge => 0,
        PixelStrength::Weak => 1,
        PixelStrength::Strong => 2,
    };
    let values = [-5.0f32, 0.0, 14.9, 15.0, 30.0, 50.0, 80.0];
    let image = key_grid(1, values.len(), &values);
    let strengths = double_threshold_strengths(&image, key(15.0), key(50.0));
    for c in 1..values.len() {
        assert!(rank(*strengths.get(0, c - 1)) <= rank(*strengths.get(0, c)));
    }
}

#[test]
fn convolution_layout_sizes() {
    let l = convolution_layout((3, 3), (3, 3)).unwrap();
    assert_eq!((l.offset_x, l.offset_y), (2, 2));
    assert_eq!((l.pad_width, l.pad_height), (7, 7));
    assert_eq!((l.result_rows, l.result_cols), (5, 5));
    let wide = convolution_layout((4, 6), (1, 5)).unwrap();
    assert_eq!((wide.offset_x, wide.offset_y), (0, 4));
    assert_eq!((wide.pad_width, wide.pad_height), (4, 14));
    assert_eq!((wide.result_rows, wide.result_cols), (4, 10));
    let single = convolution_layout((1, 1), (1, 3)).unwrap();
    assert_eq!((single.offset_x, single.offset_y), (0, 2));
    assert_eq!((single.pad_width, single.pad_height), (1, 5));
    assert_eq!((single.result_rows, single.result_cols), (1, 3));
    assert!(convolution_layout((3, 3), (0, 3)).is_none());
    assert!(convolution_layout((usize::MAX, 3), (2, 3)).is_none());
}

#[test]
fn flip_rows_reverses_rows_and_their_order() {
    let m = vec![vec![1, 2, 3], vec![4, 5], vec![6]];
    assert_eq!(flip_rows(&m, 0), vec![vec![3, 2, 1], vec![5, 4], vec![6]]);
    assert_eq!(flip_rows(&m, 2), vec![vec![6], vec![5, 4], vec![3, 2, 1]]);
    assert_eq!(flip_rows(&Vec::<Vec<i32>>::new(), 1), Vec::<Vec<i32>>::new());
}

#[test]
fn haar_corners_fit_the_padding() {
    for (mv, mh) in [(20, 25), (3, 5), (4, 7), (1, 1)] {
        for f in [
            HaarFilter::two_rectangle_horizontal(mv, mh),
            HaarFilter::two_rectangle_vertical(mv, mh),
            HaarFilter::three_rectangle_horiztonal(mv, mh),
            HaarFilter::four_rectangle(mv, mh),
        ] {
            for (x, y, _) in f.corner_descriptors.to_vec() {
                assert!(x <= 2 * f.offset_x + 1);
                assert!(y <= 2 * f.offset_y + 1);
            }
        }
    }
}
