pub mod canny_edge;
pub mod grid;
pub mod haar_filter;
pub mod helper_ops;
pub mod integral;
pub mod local_statistics;
pub mod order_key;
pub mod otsu;
pub mod float_image;
