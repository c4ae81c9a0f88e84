# oxidized_image_processing

Gray-image processing (convolution kernels, zero padding, Haar-like features,
local statistics, Canny edges, Otsu thresholds) as a library whose
decisions are proved with Verus.

- `src/` is the verified library. It holds the parts of the processing that
  rest on indices, shapes and the order of values: the `Grid` array type and
  its flips and zero padding, the Haar-like features and what they read off
  an integral image, the window counts of the local statistics, the edge
  directions, non-maxima suppression and double thresholding of the Canny
  detector, the gray-level histogram and Otsu's final split, and the running
  minimum and maximum of an image. Pixel values enter it as order keys:
  integers meant to order as the `f32` values do. The keys are computed by
  `order_key` in `app/`, which is not verified; the library's comparisons
  are the comparisons of the values only as far as that function keeps the
  order.
- The library's arrays are its own `Grid<T>`, not `ndarray::Array2`. Verus
  refuses to declare `ndarray::ArrayBase` (its `S: RawData` bound stops
  Verus's trait-conflict check), so the type cannot stand in a verified
  signature. The other way to keep it, a private field of an opaque struct
  with a name for its contents, needs a name per element type, and the
  images hold `f32`, which the library cannot hold; the flips and the
  padding are generic in the element. The one `ndarray` collection whose
  items the library can hold, the `Array1` of a Haar feature's corners, is
  kept that way (`CornerDescriptors`).
- `app/` is the program: image files, and the `f32` arithmetic (Gaussian
  weights, convolution sums, integral images, square roots and angles) that
  the library cannot hold, calling the library for everything else.
- `tests/` exercises the library on concrete values.
