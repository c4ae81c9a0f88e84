use vstd::prelude::*;

use ndarray::Array1;

use crate::integral::{integral, lemma_integral_rectangle, rect_sum};

verus! {

/// One corner of a rectangle of a Haar-like feature: where it lies relative to
/// the window's origin, and whether its integral-image value is added (`1`) or
/// taken away (`-1`).
pub struct OffsetAndSign {
    pub offset_coords: (usize, usize),
    pub sign: i32,
}

/// A corner as plain values: x offset, y offset, sign.
pub open spec fn corner_tuple(o: OffsetAndSign) -> (usize, usize, i32) {
    (o.offset_coords.0, o.offset_coords.1, o.sign)
}

impl OffsetAndSign {
    pub fn new(x_offset: usize, y_offset: usize, sign: i32) -> (res: OffsetAndSign)
        ensures
            res.offset_coords == (x_offset, y_offset),
            res.sign == sign,
    {
        OffsetAndSign { offset_coords: (x_offset, y_offset), sign }
    }
}

/// The corners of a Haar-like feature, kept in an `ndarray::Array1` in the
/// order in which they were given.
#[verifier::external_body]
pub struct CornerDescriptors {
    inner: Array1<OffsetAndSign>,
}

/// The corners that a `CornerDescriptors` holds, in order, as plain values.
pub uninterp spec fn corner_list(c: CornerDescriptors) -> Seq<(usize, usize, i32)>;

/// `ndarray::Array1::from_vec`: the array holds the items of `v`, in order.
#[verifier::external_body]
fn corners_from_vec(v: Vec<OffsetAndSign>) -> (c: CornerDescriptors)
    ensures
        corner_list(c) == v@.map_values(|o: OffsetAndSign| corner_tuple(o)),
{
    CornerDescriptors { inner: Array1::from_vec(v) }
}

/// `ArrayBase::len`: the number of items in the array.
#[verifier::external_body]
fn corners_len(c: &CornerDescriptors) -> (n: usize)
    ensures
        n == corner_list(*c).len(),
{
    c.inner.len()
}

/// Indexing an `Array1` with `[i]`, for `i` within its length: the item at `i`.
#[verifier::external_body]
fn corner_at(c: &CornerDescriptors, i: usize) -> (o: &OffsetAndSign)
    requires
        i < corner_list(*c).len(),
    ensures
        corner_tuple(*o) == corner_list(*c)[i as int],
{
    &c.inner[i]
}

impl CornerDescriptors {
    /// The number of corners.
    pub fn len(&self) -> (n: usize)
        ensures
            n == corner_list(*self).len(),
    {
        corners_len(self)
    }

    /// The corner at position `i`.
    pub fn get(&self, i: usize) -> (o: &OffsetAndSign)
        requires
            i < corner_list(*self).len(),
        ensures
            corner_tuple(*o) == corner_list(*self)[i as int],
    {
        corner_at(self, i)
    }

    /// All corners, in order, as `(x offset, y offset, sign)`.
    pub fn to_vec(&self) -> (v: Vec<(usize, usize, i32)>)
        ensures
            v@ == corner_list(*self),
    {
        let n = corners_len(self);
        let mut v: Vec<(usize, usize, i32)> = Vec::new();
        let mut i: usize = 0;
        while i < n
            invariant
                i <= n,
                n == corner_list(*self).len(),
                v@ == corner_list(*self).take(i as int),
            decreases n - i,
        {
            let o = corner_at(self, i);
            v.push((o.offset_coords.0, o.offset_coords.1, o.sign));
            assert(corner_list(*self).take(i + 1) =~= corner_list(*self).take(i as int).push(
                corner_list(*self)[i as int],
            ));
            i = i + 1;
        }
        assert(corner_list(*self).take(n as int) =~= corner_list(*self));
        v
    }
}

/// The four corners by which a sum over the rectangle from `(x0, y0)` to
/// `(x1, y1)` is read off an integral image, the sum counted with `sign`:
/// `sign * (I(x1, y1) - I(x0, y1) - I(x1, y0) + I(x0, y0))`.
pub open spec fn rectangle_corners(x0: usize, y0: usize, x1: usize, y1: usize, sign: i32) -> Seq<
    (usize, usize, i32),
> {
    seq![(x1, y1, sign), (x0, y1, (-sign) as i32), (x1, y0, (-sign) as i32), (x0, y0, sign)]
}

/// What a list of corners reads off the integral image of `image` with the
/// feature's origin at `(i, j)`: the sum of `sign * I(i + x, j + y)` over its
/// corners `(x, y, sign)`.
pub open spec fn corner_response(
    image: spec_fn(int, int) -> int,
    corners: Seq<(usize, usize, i32)>,
    i: int,
    j: int,
) -> int
    decreases corners.len(),
{
    if corners.len() == 0 {
        0
    } else {
        let c = corners.last();
        corner_response(image, corners.drop_last(), i, j) + c.2 * integral(image, i + c.0, j + c.1)
    }
}

/// The response of two corner lists put one after the other.
proof fn lemma_response_append(
    image: spec_fn(int, int) -> int,
    a: Seq<(usize, usize, i32)>,
    b: Seq<(usize, usize, i32)>,
    i: int,
    j: int,
)
    ensures
        corner_response(image, a + b, i, j) == corner_response(image, a, i, j) + corner_response(
            image,
            b,
            i,
            j,
        ),
    decreases b.len(),
{
    if b.len() == 0 {
        assert(a + b =~= a);
    } else {
        assert((a + b).drop_last() =~= a + b.drop_last());
        lemma_response_append(image, a, b.drop_last(), i, j);
    }
}

/// The four corners of a rectangle read the signed sum over the rectangle,
/// shifted to the feature's origin.
proof fn lemma_rectangle_response(
    image: spec_fn(int, int) -> int,
    x0: usize,
    y0: usize,
    x1: usize,
    y1: usize,
    sign: i32,
    i: int,
    j: int,
)
    requires
        x0 <= x1,
        y0 <= y1,
        0 <= i,
        0 <= j,
        sign == 1 || sign == -1,
    ensures
        corner_response(image, rectangle_corners(x0, y0, x1, y1, sign), i, j) == sign * rect_sum(
            image,
            i + x0,
            j + y0,
            i + x1,
            j + y1,
        ),
{
    let s = rectangle_corners(x0, y0, x1, y1, sign);
    let s3 = s.drop_last();
    let s2 = s3.drop_last();
    let s1 = s2.drop_last();
    assert(s1.drop_last() =~= Seq::<(usize, usize, i32)>::empty());
    let i11 = integral(image, i + x1, j + y1);
    let i01 = integral(image, i + x0, j + y1);
    let i10 = integral(image, i + x1, j + y0);
    let i00 = integral(image, i + x0, j + y0);
    assert((-sign) as i32 == -sign);
    assert(corner_response(image, s1.drop_last(), i, j) == 0);
    assert(s1.last() == (x1, y1, sign));
    assert(s2.last() == (x0, y1, (-sign) as i32));
    assert(s3.last() == (x1, y0, (-sign) as i32));
    assert(s.last() == (x0, y0, sign));
    assert(corner_response(image, s1, i, j) == sign * i11);
    let neg = (-sign) as i32;
    assert(neg * i01 == -(sign * i01) && neg * i10 == -(sign * i10)) by (nonlinear_arith)
        requires
            neg == -sign,
    ;
    assert(corner_response(image, s2, i, j) == sign * i11 - sign * i01);
    assert(corner_response(image, s3, i, j) == sign * i11 - sign * i01 - sign * i10);
    assert(corner_response(image, s, i, j) == sign * i11 - sign * i01 - sign * i10 + sign * i00);
    lemma_integral_rectangle(image, i + x0, j + y0, i + x1, j + y1);
}

/// The sum of the signs of a list of corners.
pub open spec fn sign_sum(corners: Seq<(usize, usize, i32)>) -> int
    decreases corners.len(),
{
    if corners.len() == 0 {
        0
    } else {
        sign_sum(corners.drop_last()) + corners.last().2
    }
}

/// Every corner lies within `2 * offset_x + 1` along x and `2 * offset_y + 1`
/// along y: after the image is zero-padded by the offsets on each side, the
/// corners read at any of its pixels lie within the integral image of the
/// padded image.
pub open spec fn fits_padding(corners: Seq<(usize, usize, i32)>, offset_x: usize, offset_y: usize) -> bool {
    forall|k: int|
        0 <= k < corners.len() ==> #[trigger] corners[k].0 <= 2 * offset_x + 1 && corners[k].1 <= 2
            * offset_y + 1
}

/// A Haar-like feature: the corners at which it reads an integral image, and
/// by how much an image has to be zero-padded on each side for the feature
/// to be applied at every pixel.
pub struct HaarFilter {
    pub corner_descriptors: CornerDescriptors,
    pub offset_x: usize,
    pub offset_y: usize,
}

/// Appends the four corners of the rectangle from `(x0, y0)` to `(x1, y1)`,
/// counted with `sign`.
fn push_rectangle(v: &mut Vec<OffsetAndSign>, x0: usize, y0: usize, x1: usize, y1: usize, sign: i32)
    requires
        sign == 1 || sign == -1,
    ensures
        final(v)@.map_values(|o: OffsetAndSign| corner_tuple(o)) == old(v)@.map_values(
            |o: OffsetAndSign| corner_tuple(o),
        ) + rectangle_corners(x0, y0, x1, y1, sign),
{
    v.push(OffsetAndSign::new(x1, y1, sign));
    v.push(OffsetAndSign::new(x0, y1, -sign));
    v.push(OffsetAndSign::new(x1, y0, -sign));
    v.push(OffsetAndSign::new(x0, y0, sign));
    assert(final(v)@.map_values(|o: OffsetAndSign| corner_tuple(o)) =~= old(v)@.map_values(
        |o: OffsetAndSign| corner_tuple(o),
    ) + rectangle_corners(x0, y0, x1, y1, sign));
}

/// The signs of a rectangle's four corners cancel out.
proof fn lemma_rectangle_sign_sum(x0: usize, y0: usize, x1: usize, y1: usize, sign: i32)
    requires
        sign == 1 || sign == -1,
    ensures
        sign_sum(rectangle_corners(x0, y0, x1, y1, sign)) == 0,
{
    let s = rectangle_corners(x0, y0, x1, y1, sign);
    assert(s.drop_last().drop_last().drop_last().drop_last() =~= Seq::<(usize, usize, i32)>::empty());
    reveal_with_fuel(sign_sum, 5);
}

/// The sign sum of two corner lists put one after the other.
proof fn lemma_sign_sum_append(a: Seq<(usize, usize, i32)>, b: Seq<(usize, usize, i32)>)
    ensures
        sign_sum(a + b) == sign_sum(a) + sign_sum(b),
    decreases b.len(),
{
    if b.len() == 0 {
        assert(a + b =~= a);
    } else {
        assert((a + b).drop_last() =~= a + b.drop_last());
        lemma_sign_sum_append(a, b.drop_last());
    }
}

impl HaarFilter {
    /// Two `mh x mv` rectangles side by side along x: the first one counted
    /// negatively ("black"), the second one positively ("white").  Read off
    /// an integral image, its corners give the white sum less the black sum
    /// at every position.
    pub fn two_rectangle_horizontal(mv: usize, mh: usize) -> (f: HaarFilter)
        requires
            2 * mh <= usize::MAX,
        ensures
            corner_list(f.corner_descriptors) == rectangle_corners(0, 0, mh, mv, -1i32)
                + rectangle_corners(mh, 0, (2 * mh) as usize, mv, 1),
            f.offset_x == mh,
            f.offset_y == mv / 2,
            sign_sum(corner_list(f.corner_descriptors)) == 0,
            fits_padding(corner_list(f.corner_descriptors), f.offset_x, f.offset_y),
            forall|image: spec_fn(int, int) -> int, i: int, j: int|
                0 <= i && 0 <= j ==> #[trigger] corner_response(
                    image,
                    corner_list(f.corner_descriptors),
                    i,
                    j,
                ) == rect_sum(image, i + mh, j, i + 2 * mh, j + mv) - rect_sum(
                    image,
                    i,
                    j,
                    i + mh,
                    j + mv,
                ),
    {
        let mut v: Vec<OffsetAndSign> = Vec::new();
        push_rectangle(&mut v, 0, 0, mh, mv, -1);
        push_rectangle(&mut v, mh, 0, 2 * mh, mv, 1);
        let ghost a = rectangle_corners(0, 0, mh, mv, -1i32);
        let ghost b = rectangle_corners(mh, 0, (2 * mh) as usize, mv, 1);
        assert(v@.map_values(|o: OffsetAndSign| corner_tuple(o)) =~= a + b);
        proof {
            lemma_rectangle_sign_sum(0, 0, mh, mv, -1i32);
            lemma_rectangle_sign_sum(mh, 0, (2 * mh) as usize, mv, 1);
            lemma_sign_sum_append(a, b);
            assert forall|image: spec_fn(int, int) -> int, i: int, j: int|
                0 <= i && 0 <= j implies #[trigger] corner_response(image, a + b, i, j) == rect_sum(
                image,
                i + mh,
                j,
                i + 2 * mh,
                j + mv,
            ) - rect_sum(image, i, j, i + mh, j + mv) by {
                lemma_response_append(image, a, b, i, j);
                lemma_rectangle_response(image, 0, 0, mh, mv, -1i32, i, j);
                lemma_rectangle_response(image, mh, 0, (2 * mh) as usize, mv, 1, i, j);
            }
        }
        HaarFilter { corner_descriptors: corners_from_vec(v), offset_x: mh, offset_y: mv / 2 }
    }

    /// Two `mh x mv` rectangles one after the other along y: the first one
    /// counted negatively ("black"), the second one positively ("white").
    /// Read off an integral image, its corners give the white sum less the
    /// black sum at every position.
    pub fn two_rectangle_vertical(mv: usize, mh: usize) -> (f: HaarFilter)
        requires
            2 * mv <= usize::MAX,
        ensures
            corner_list(f.corner_descriptors) == rectangle_corners(0, 0, mh, mv, -1i32)
                + rectangle_corners(0, mv, mh, (2 * mv) as usize, 1),
            f.offset_x == mh / 2,
            f.offset_y == mv,
            sign_sum(corner_list(f.corner_descriptors)) == 0,
            fits_padding(corner_list(f.corner_descriptors), f.offset_x, f.offset_y),
            forall|image: spec_fn(int, int) -> int, i: int, j: int|
                0 <= i && 0 <= j ==> #[trigger] corner_response(
                    image,
                    corner_list(f.corner_descriptors),
                    i,
                    j,
                ) == rect_sum(image, i, j + mv, i + mh, j + 2 * mv) - rect_sum(
                    image,
                    i,
                    j,
                    i + mh,
                    j + mv,
                ),
    {
        let mut v: Vec<OffsetAndSign> = Vec::new();
        push_rectangle(&mut v, 0, 0, mh, mv, -1);
        push_rectangle(&mut v, 0, mv, mh, 2 * mv, 1);
        let ghost a = rectangle_corners(0, 0, mh, mv, -1i32);
        let ghost b = rectangle_corners(0, mv, mh, (2 * mv) as usize, 1);
        assert(v@.map_values(|o: OffsetAndSign| corner_tuple(o)) =~= a + b);
        proof {
            lemma_rectangle_sign_sum(0, 0, mh, mv, -1i32);
            lemma_rectangle_sign_sum(0, mv, mh, (2 * mv) as usize, 1);
            lemma_sign_sum_append(a, b);
            assert forall|image: spec_fn(int, int) -> int, i: int, j: int|
                0 <= i && 0 <= j implies #[trigger] corner_response(image, a + b, i, j) == rect_sum(
                image,
                i,
                j + mv,
                i + mh,
                j + 2 * mv,
            ) - rect_sum(image, i, j, i + mh, j + mv) by {
                lemma_response_append(image, a, b, i, j);
                lemma_rectangle_response(image, 0, 0, mh, mv, -1i32, i, j);
                lemma_rectangle_response(image, 0, mv, mh, (2 * mv) as usize, 1, i, j);
            }
        }
        HaarFilter { corner_descriptors: corners_from_vec(v), offset_x: mh / 2, offset_y: mv }
    }

    /// Three `mh x mv` rectangles side by side along x, counted black, white,
    /// black.  Read off an integral image, its corners give the middle sum
    /// less both outer sums at every position.
    pub fn three_rectangle_horiztonal(mv: usize, mh: usize) -> (f: HaarFilter)
        requires
            3 * mh <= usize::MAX,
        ensures
            corner_list(f.corner_descriptors) == rectangle_corners(0, 0, mh, mv, -1i32)
                + rectangle_corners(mh, 0, (2 * mh) as usize, mv, 1) + rectangle_corners(
                (2 * mh) as usize,
                0,
                (3 * mh) as usize,
                mv,
                -1i32,
            ),
            f.offset_x == mh * 3 / 2,
            f.offset_y == mv / 2,
            sign_sum(corner_list(f.corner_descriptors)) == 0,
            fits_padding(corner_list(f.corner_descriptors), f.offset_x, f.offset_y),
            forall|image: spec_fn(int, int) -> int, i: int, j: int|
                0 <= i && 0 <= j ==> #[trigger] corner_response(
                    image,
                    corner_list(f.corner_descriptors),
                    i,
                    j,
                ) == rect_sum(image, i + mh, j, i + 2 * mh, j + mv) - rect_sum(
                    image,
                    i,
                    j,
                    i + mh,
                    j + mv,
                ) - rect_sum(image, i + 2 * mh, j, i + 3 * mh, j + mv),
    {
        let mut v: Vec<OffsetAndSign> = Vec::new();
        push_rectangle(&mut v, 0, 0, mh, mv, -1);
        push_rectangle(&mut v, mh, 0, 2 * mh, mv, 1);
        push_rectangle(&mut v, 2 * mh, 0, 3 * mh, mv, -1);
        let ghost a = rectangle_corners(0, 0, mh, mv, -1i32);
        let ghost b = rectangle_corners(mh, 0, (2 * mh) as usize, mv, 1);
        let ghost c = rectangle_corners((2 * mh) as usize, 0, (3 * mh) as usize, mv, -1i32);
        assert(v@.map_values(|o: OffsetAndSign| corner_tuple(o)) =~= a + b + c);
        proof {
            lemma_rectangle_sign_sum(0, 0, mh, mv, -1i32);
            lemma_rectangle_sign_sum(mh, 0, (2 * mh) as usize, mv, 1);
            lemma_rectangle_sign_sum((2 * mh) as usize, 0, (3 * mh) as usize, mv, -1i32);
            lemma_sign_sum_append(a, b);
            lemma_sign_sum_append(a + b, c);
            assert forall|image: spec_fn(int, int) -> int, i: int, j: int|
                0 <= i && 0 <= j implies #[trigger] corner_response(image, a + b + c, i, j)
                == rect_sum(image, i + mh, j, i + 2 * mh, j + mv) - rect_sum(
                image,
                i,
                j,
                i + mh,
                j + mv,
            ) - rect_sum(image, i + 2 * mh, j, i + 3 * mh, j + mv) by {
                lemma_response_append(image, a, b, i, j);
                lemma_response_append(image, a + b, c, i, j);
                lemma_rectangle_response(image, 0, 0, mh, mv, -1i32, i, j);
                lemma_rectangle_response(image, mh, 0, (2 * mh) as usize, mv, 1, i, j);
                lemma_rectangle_response(
                    image,
                    (2 * mh) as usize,
                    0,
                    (3 * mh) as usize,
                    mv,
                    -1i32,
                    i,
                    j,
                );
            }
        }
        HaarFilter {
            corner_descriptors: corners_from_vec(v),
            offset_x: mh * 3 / 2,
            offset_y: mv / 2,
        }
    }

    /// Four `mh x mv` rectangles in a two by two block: the first row white
    /// then black, the second row black then white.  Read off an integral
    /// image, its corners give the white sums less the black sums at every
    /// position.
    pub fn four_rectangle(mv: usize, mh: usize) -> (f: HaarFilter)
        requires
            2 * mh <= usize::MAX,
            2 * mv <= usize::MAX,
        ensures
            corner_list(f.corner_descriptors) == rectangle_corners(0, 0, mh, mv, 1)
                + rectangle_corners(mh, 0, (2 * mh) as usize, mv, -1i32) + rectangle_corners(
                0,
                mv,
                mh,
                (2 * mv) as usize,
                -1i32,
            ) + rectangle_corners(mh, mv, (2 * mh) as usize, (2 * mv) as usize, 1),
            f.offset_x == mh,
            f.offset_y == mv,
            sign_sum(corner_list(f.corner_descriptors)) == 0,
            fits_padding(corner_list(f.corner_descriptors), f.offset_x, f.offset_y),
            forall|image: spec_fn(int, int) -> int, i: int, j: int|
                0 <= i && 0 <= j ==> #[trigger] corner_response(
                    image,
                    corner_list(f.corner_descriptors),
                    i,
                    j,
                ) == rect_sum(image, i, j, i + mh, j + mv) + rect_sum(
                    image,
                    i + mh,
                    j + mv,
                    i + 2 * mh,
                    j + 2 * mv,
                ) - rect_sum(image, i + mh, j, i + 2 * mh, j + mv) - rect_sum(
                    image,
                    i,
                    j + mv,
                    i + mh,
                    j + 2 * mv,
                ),
    {
        let mut v: Vec<OffsetAndSign> = Vec::new();
        push_rectangle(&mut v, 0, 0, mh, mv, 1);
        push_rectangle(&mut v, mh, 0, 2 * mh, mv, -1);
        push_rectangle(&mut v, 0, mv, mh, 2 * mv, -1);
        push_rectangle(&mut v, mh, mv, 2 * mh, 2 * mv, 1);
        let ghost a = rectangle_corners(0, 0, mh, mv, 1);
        let ghost b = rectangle_corners(mh, 0, (2 * mh) as usize, mv, -1i32);
        let ghost c = rectangle_corners(0, mv, mh, (2 * mv) as usize, -1i32);
        let ghost d = rectangle_corners(mh, mv, (2 * mh) as usize, (2 * mv) as usize, 1);
        assert(v@.map_values(|o: OffsetAndSign| corner_tuple(o)) =~= a + b + c + d);
        proof {
            lemma_rectangle_sign_sum(0, 0, mh, mv, 1);
            lemma_rectangle_sign_sum(mh, 0, (2 * mh) as usize, mv, -1i32);
            lemma_rectangle_sign_sum(0, mv, mh, (2 * mv) as usize, -1i32);
            lemma_rectangle_sign_sum(mh, mv, (2 * mh) as usize, (2 * mv) as usize, 1);
            lemma_sign_sum_append(a, b);
            lemma_sign_sum_append(a + b, c);
            lemma_sign_sum_append(a + b + c, d);
            assert forall|image: spec_fn(int, int) -> int, i: int, j: int|
                0 <= i && 0 <= j implies #[trigger] corner_response(image, a + b + c + d, i, j)
                == rect_sum(image, i, j, i + mh, j + mv) + rect_sum(
                image,
                i + mh,
                j + mv,
                i + 2 * mh,
                j + 2 * mv,
            ) - rect_sum(image, i + mh, j, i + 2 * mh, j + mv) - rect_sum(
                image,
                i,
                j + mv,
                i + mh,
                j + 2 * mv,
            ) by {
                lemma_response_append(image, a, b, i, j);
                lemma_response_append(image, a + b, c, i, j);
                lemma_response_append(image, a + b + c, d, i, j);
                lemma_rectangle_response(image, 0, 0, mh, mv, 1, i, j);
                lemma_rectangle_response(image, mh, 0, (2 * mh) as usize, mv, -1i32, i, j);
                lemma_rectangle_response(image, 0, mv, mh, (2 * mv) as usize, -1i32, i, j);
                lemma_rectangle_response(
                    image,
                    mh,
                    mv,
                    (2 * mh) as usize,
                    (2 * mv) as usize,
                    1,
                    i,
                    j,
                );
            }
        }
        HaarFilter { corner_descriptors: corners_from_vec(v), offset_x: mh, offset_y: mv }
    }
}

} // verus!
