use oxidized_image_processing::grid::Grid;
use oxidized_image_processing::helper_ops::{flip_2d, flip_across_x, flip_across_y};

fn grid(rows: usize, cols: usize, cells: &[f32]) -> Grid<f32> {
    Grid::from_vec(rows, cols, cells.to_vec()).unwrap()
}

fn cells(g: &Grid<f32>) -> Vec<Vec<f32>> {
    (0..g.rows())
        .map(|r| (0..g.cols()).map(|c| *g.get(r, c)).collect())
        .collect()
}

#[test]
fn flip_across_x_test() {
    let mut matrix = grid(3, 3, &[1., 1., 1., 2., 2., 2., 3., 3., 3.]);
    flip_across_x(&mut matrix);
    let flipped_matrix = grid(3, 3, &[3., 3., 3., 2., 2., 2., 1., 1., 1.]);
    assert_eq!(cells(&matrix), cells(&flipped_matrix));
}

#[test]
fn flip_across_y_test() {
    let mut matrix = grid(3, 3, &[1., 2., 3., 1., 2., 3., 1., 2., 3.]);
    flip_across_y(&mut matrix);
    let flipped_matrix = grid(3, 3, &[3., 2., 1., 3., 2., 1., 3., 2., 1.]);
    assert_eq!(cells(&matrix), cells(&flipped_matrix));
}

#[test]
fn flip_across_x_twice() {
    let mut matrix = grid(3, 3, &[1., 1., 1., 2., 2., 2., 3., 3., 3.]);
    flip_across_x(&mut matrix);
    flip_across_x(&mut matrix);
    let flipped_matrix = grid(3, 3, &[1., 1., 1., 2., 2., 2., 3., 3., 3.]);
    assert_eq!(cells(&matrix), cells(&flipped_matrix));
}

#[test]
fn flip_2d_is_a_half_turn() {
    let mut matrix = grid(2, 3, &[1., 2., 3., 4., 5., 6.]);
    flip_2d(&mut matrix);
    assert_eq!(cells(&matrix), vec![vec![6., 5., 4.], vec![3., 2., 1.]]);
}
