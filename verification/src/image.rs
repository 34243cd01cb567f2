use vstd::prelude::*;
use vstd::arithmetic::div_mod::lemma_div_is_ordered;
use crate::color::{Color, row_text, ppm_comp_s};
use crate::fx::{abs_i, div_t, idiv, lemma_div_t_abs};
use crate::geometry::V3;

verus! {

/// The pixel grid: a two-dimensional ndarray of colors. The array type of
/// that crate cannot be declared to the verifier directly, so it lives in
/// an opaque field; its contents and dimensions are named below.
#[verifier::external_body]
pub struct Grid {
    inner: ndarray::Array2<Color>,
}

/// What the pixel grid holds: the channel triple at each position.
pub uninterp spec fn grid_cells(g: Grid) -> Map<(int, int), (int, int, int)>;

/// The width and height the pixel grid was built with.
pub uninterp spec fn grid_dims(g: Grid) -> (int, int);

/// Relies on ndarray::Array::from_elem: a w-by-h array filled with copies
/// of the element.
#[verifier::external_body]
fn grid_new(w: usize, h: usize, elem: Color) -> (g: Grid)
    requires
        1 <= w <= 65536,
        1 <= h <= 65536,
    ensures
        grid_dims(g) == (w as int, h as int),
        forall|i: int, j: int|
            0 <= i < w && 0 <= j < h ==> #[trigger] grid_cells(g).contains_key((i, j))
                && grid_cells(g)[(i, j)] == (elem.0.x as int, elem.0.y as int, elem.0.z as int),
{
    Grid { inner: ndarray::Array::from_elem((w, h), elem) }
}

/// Relies on ndarray's Index impl: within the dimensions it hands back
/// the stored element.
#[verifier::external_body]
fn grid_get(g: &Grid, i: usize, j: usize) -> (c: Color)
    requires
        0 <= (i as int) < grid_dims(*g).0,
        0 <= (j as int) < grid_dims(*g).1,
        grid_cells(*g).contains_key((i as int, j as int)),
    ensures
        (c.0.x as int, c.0.y as int, c.0.z as int) == grid_cells(*g)[(i as int, j as int)],
{
    g.inner[(i, j)]
}

/// Relies on ndarray's IndexMut impl: within the dimensions it replaces
/// the element at (i, j) and nothing else.
#[verifier::external_body]
fn grid_set(g: &mut Grid, i: usize, j: usize, c: Color)
    requires
        0 <= (i as int) < grid_dims(*old(g)).0,
        0 <= (j as int) < grid_dims(*old(g)).1,
    ensures
        grid_dims(*final(g)) == grid_dims(*old(g)),
        grid_cells(*final(g)) == grid_cells(*old(g)).insert(
            (i as int, j as int),
            (c.0.x as int, c.0.y as int, c.0.z as int),
        ),
{
    g.inner[(i, j)] = c;
}

/// Relies on ndarray::shape: the first axis length is the built width.
#[verifier::external_body]
fn grid_width(g: &Grid) -> (w: usize)
    ensures
        w as int == grid_dims(*g).0,
{
    g.inner.shape()[0]
}

/// Relies on ndarray::shape: the second axis length is the built height.
#[verifier::external_body]
fn grid_height(g: &Grid) -> (h: usize)
    ensures
        h as int == grid_dims(*g).1,
{
    g.inner.shape()[1]
}

/// The accumulated pixel buffer of one render pass.
pub struct Image {
    pub img: Grid,
}

/// The channel triple of an image at a pixel.
pub open spec fn px(im: Image, i: int, j: int) -> (int, int, int) {
    grid_cells(im.img)[(i, j)]
}

/// A usable image: positive bounded dimensions and a stored triple at
/// every position within them.
pub open spec fn image_wf(im: Image, w: int, h: int) -> bool {
    &&& grid_dims(im.img) == (w, h)
    &&& 1 <= w <= 65536
    &&& 1 <= h <= 65536
    &&& forall|i: int, j: int|
        0 <= i < w && 0 <= j < h ==> #[trigger] grid_cells(im.img).contains_key((i, j))
}

/// All channels of every pixel within `b` in magnitude.
pub open spec fn image_bounded(im: Image, w: int, h: int, b: int) -> bool {
    forall|i: int, j: int|
        0 <= i < w && 0 <= j < h ==> {
            let c = #[trigger] px(im, i, j);
            abs_i(c.0) <= b && abs_i(c.1) <= b && abs_i(c.2) <= b
        }
}

impl Image {
    /// A black image of the given dimensions.
    pub fn new(w: usize, h: usize) -> (r: Image)
        requires
            1 <= w <= 65536,
            1 <= h <= 65536,
        ensures
            image_wf(r, w as int, h as int),
            forall|i: int, j: int|
                0 <= i < w && 0 <= j < h ==> #[trigger] px(r, i, j) == (0int, 0int, 0int),
    {
        let im = Image { img: grid_new(w, h, Color(V3 { x: 0, y: 0, z: 0 })) };
        proof {
            assert forall|i: int, j: int| 0 <= i < w && 0 <= j < h implies #[trigger] px(
                im,
                i,
                j,
            ) == (0int, 0int, 0int) by {
                assert(grid_cells(im.img).contains_key((i, j)));
            }
        }
        im
    }

    /// The buffer width.
    pub fn width(&self) -> (w: usize)
        ensures
            w as int == grid_dims(self.img).0,
    {
        grid_width(&self.img)
    }

    /// The buffer height.
    pub fn height(&self) -> (h: usize)
        ensures
            h as int == grid_dims(self.img).1,
    {
        grid_height(&self.img)
    }

    /// Reads the pixel at (i, j).
    pub fn get_px(&self, i: usize, j: usize) -> (c: Color)
        requires
            image_wf(*self, grid_dims(self.img).0, grid_dims(self.img).1),
            (i as int) < grid_dims(self.img).0,
            (j as int) < grid_dims(self.img).1,
        ensures
            (c.0.x as int, c.0.y as int, c.0.z as int) == px(*self, i as int, j as int),
    {
        grid_get(&self.img, i, j)
    }

    /// Writes the pixel at (i, j), leaving every other pixel.
    pub fn set_px(&mut self, i: usize, j: usize, c: Color)
        requires
            image_wf(*old(self), grid_dims(old(self).img).0, grid_dims(old(self).img).1),
            (i as int) < grid_dims(old(self).img).0,
            (j as int) < grid_dims(old(self).img).1,
        ensures
            image_wf(
                *final(self),
                grid_dims(old(self).img).0,
                grid_dims(old(self).img).1,
            ),
            px(*final(self), i as int, j as int) == (c.0.x as int, c.0.y as int, c.0.z as int),
            forall|i2: int, j2: int|
                0 <= i2 < grid_dims(old(self).img).0 && 0 <= j2 < grid_dims(old(self).img).1 && !(
                i2 == i as int && j2 == j as int) ==> #[trigger] px(*final(self), i2, j2) == px(
                    *old(self),
                    i2,
                    j2,
                ),
    {
        grid_set(&mut self.img, i, j, c);
    }
}

/// Channel-wise sum of one pixel across a list of images.
pub open spec fn px_sum(images: Seq<Image>, i: int, j: int) -> (int, int, int)
    decreases images.len(),
{
    if images.len() == 0 {
        (0int, 0int, 0int)
    } else {
        let rest = px_sum(images.drop_last(), i, j);
        let lastc = px(images.last(), i, j);
        (rest.0 + lastc.0, rest.1 + lastc.1, rest.2 + lastc.2)
    }
}

/// The element-wise mean at one pixel: each summed channel divided by the
/// image count, rounding toward zero.
pub open spec fn merged_px(images: Seq<Image>, i: int, j: int) -> (int, int, int) {
    let s = px_sum(images, i, j);
    (
        div_t(s.0, images.len() as int),
        div_t(s.1, images.len() as int),
        div_t(s.2, images.len() as int),
    )
}

/// What merging asks of its input: a non-empty list of equal-dimension
/// images whose channels stay within the accumulator bound.
pub open spec fn merge_pre(images: Seq<Image>, w: int, h: int) -> bool {
    &&& 1 <= images.len() <= 1048576
    &&& forall|k: int| 0 <= k < images.len() ==> image_wf(#[trigger] images[k], w, h)
    &&& forall|k: int|
        0 <= k < images.len() ==> image_bounded(#[trigger] images[k], w, h, 1099511627776)
}

/// The mean color of one pixel across the images.
fn merged_at(images: &Vec<Image>, i: usize, j: usize) -> (c: Color)
    requires
        merge_pre(images@, grid_dims(images@[0].img).0, grid_dims(images@[0].img).1),
        (i as int) < grid_dims(images@[0].img).0,
        (j as int) < grid_dims(images@[0].img).1,
    ensures
        (c.0.x as int, c.0.y as int, c.0.z as int) == merged_px(images@, i as int, j as int),
{
    let ghost w = grid_dims(images@[0].img).0;
    let ghost h = grid_dims(images@[0].img).1;
    let n = images.len();
    let mut sx: i64 = 0;
    let mut sy: i64 = 0;
    let mut sz: i64 = 0;
    let mut k: usize = 0;
    proof {
        assert(images@.take(0int) =~= Seq::<Image>::empty());
    }
    while k < n
        invariant
            merge_pre(images@, w, h),
            w == grid_dims(images@[0].img).0,
            h == grid_dims(images@[0].img).1,
            (i as int) < w,
            (j as int) < h,
            0 <= k <= n,
            n == images@.len(),
            (sx as int, sy as int, sz as int) == px_sum(images@.take(k as int), i as int, j as int),
            abs_i(sx as int) <= (k as int) * 1099511627776,
            abs_i(sy as int) <= (k as int) * 1099511627776,
            abs_i(sz as int) <= (k as int) * 1099511627776,
        decreases n - k,
    {
        proof {
            assert(images@.take(k as int + 1).drop_last() =~= images@.take(k as int));
            assert(images@.take(k as int + 1).last() == images@[k as int]);
            assert((k as int) * 1099511627776 + 1099511627776 == (k as int + 1) * 1099511627776)
                by (nonlinear_arith);
        }
        let c = images[k].get_px(i, j);
        sx = sx + c.0.x;
        sy = sy + c.0.y;
        sz = sz + c.0.z;
        k = k + 1;
    }
    proof {
        assert(images@.take(n as int) =~= images@);
    }
    let ni = n as i64;
    let mx = idiv(sx, ni);
    let my = idiv(sy, ni);
    let mz = idiv(sz, ni);
    Color(V3 { x: mx, y: my, z: mz })
}

/// Element-wise mean of equally sized render passes: at every pixel the
/// merged channel equals the channel sum divided by the image count.
pub fn merge_samples(images: Vec<Image>) -> (out: Image)
    requires
        merge_pre(images@, grid_dims(images@[0].img).0, grid_dims(images@[0].img).1),
    ensures
        image_wf(out, grid_dims(images@[0].img).0, grid_dims(images@[0].img).1),
        forall|i: int, j: int|
            0 <= i < grid_dims(images@[0].img).0 && 0 <= j < grid_dims(images@[0].img).1
                ==> #[trigger] px(out, i, j) == merged_px(images@, i, j),
{
    let ghost gw = grid_dims(images@[0].img).0;
    let ghost gh = grid_dims(images@[0].img).1;
    let w = images[0].width();
    let h = images[0].height();
    let mut out = Image::new(w, h);
    let mut i: usize = 0;
    while i < w
        invariant
            merge_pre(images@, gw, gh),
            gw == grid_dims(images@[0].img).0,
            gh == grid_dims(images@[0].img).1,
            w as int == gw,
            h as int == gh,
            0 <= i <= w,
            image_wf(out, gw, gh),
            forall|i2: int, j2: int|
                0 <= i2 < i && 0 <= j2 < gh ==> #[trigger] px(out, i2, j2) == merged_px(
                    images@,
                    i2,
                    j2,
                ),
        decreases w - i,
    {
        let mut j: usize = 0;
        while j < h
            invariant
                merge_pre(images@, gw, gh),
                gw == grid_dims(images@[0].img).0,
                gh == grid_dims(images@[0].img).1,
                w as int == gw,
                h as int == gh,
                0 <= i < w,
                0 <= j <= h,
                image_wf(out, gw, gh),
                forall|i2: int, j2: int|
                    0 <= i2 < i && 0 <= j2 < gh ==> #[trigger] px(out, i2, j2) == merged_px(
                        images@,
                        i2,
                        j2,
                    ),
                forall|j2: int|
                    0 <= j2 < j ==> #[trigger] px(out, i as int, j2) == merged_px(
                        images@,
                        i as int,
                        j2,
                    ),
            decreases h - j,
        {
            let c = merged_at(&images, i, j);
            out.set_px(i, j, c);
            j = j + 1;
        }
        i = i + 1;
    }
    out
}

impl Image {
    /// The pixel rows as text, top row of the picture first: buffer row
    /// h - 1 leads and buffer row 0 ends, columns ascending within a row.
    pub fn to_ppm_list(&self) -> (list: Vec<String>)
        requires
            image_wf(*self, grid_dims(self.img).0, grid_dims(self.img).1),
            image_bounded(
                *self,
                grid_dims(self.img).0,
                grid_dims(self.img).1,
                281474976710656,
            ),
        ensures
            list@.len() == grid_dims(self.img).0 * grid_dims(self.img).1,
            forall|i: int, j: int|
                0 <= i < grid_dims(self.img).0 && 0 <= j < grid_dims(self.img).1
                    ==> #[trigger] list@[(grid_dims(self.img).1 - 1 - j) * grid_dims(self.img).0
                    + i]@ == row_text(
                    ppm_comp_s(px(*self, i, j).0),
                    ppm_comp_s(px(*self, i, j).1),
                    ppm_comp_s(px(*self, i, j).2),
                ),
    {
        let ghost gw = grid_dims(self.img).0;
        let ghost gh = grid_dims(self.img).1;
        let w = self.width();
        let h = self.height();
        let mut list: Vec<String> = Vec::new();
        let mut jr: usize = h;
        while jr > 0
            invariant
                image_wf(*self, gw, gh),
                image_bounded(*self, gw, gh, 281474976710656),
                gw == grid_dims(self.img).0,
                gh == grid_dims(self.img).1,
                w as int == gw,
                h as int == gh,
                0 <= jr <= h,
                list@.len() == (gh - jr) * gw,
                forall|i2: int, j2: int|
                    0 <= i2 < gw && jr <= j2 < gh ==> #[trigger] list@[(gh - 1 - j2) * gw + i2]@
                        == row_text(
                        ppm_comp_s(px(*self, i2, j2).0),
                        ppm_comp_s(px(*self, i2, j2).1),
                        ppm_comp_s(px(*self, i2, j2).2),
                    ),
            decreases jr,
        {
            let j = jr - 1;
            let mut i: usize = 0;
            proof {
                assert((gh - jr) * gw == (gh - 1 - (j as int)) * gw) by (nonlinear_arith)
                    requires jr == j as int + 1;
            }
            while i < w
                invariant
                    image_wf(*self, gw, gh),
                    image_bounded(*self, gw, gh, 281474976710656),
                    gw == grid_dims(self.img).0,
                    gh == grid_dims(self.img).1,
                    w as int == gw,
                    h as int == gh,
                    0 <= (j as int) < gh,
                    jr == j + 1,
                    0 <= i <= w,
                    list@.len() == (gh - 1 - (j as int)) * gw + i,
                    forall|i2: int, j2: int|
                        0 <= i2 < gw && j < j2 < gh ==> #[trigger] list@[(gh - 1 - j2) * gw + i2]@
                            == row_text(
                            ppm_comp_s(px(*self, i2, j2).0),
                            ppm_comp_s(px(*self, i2, j2).1),
                            ppm_comp_s(px(*self, i2, j2).2),
                        ),
                    forall|i2: int|
                        0 <= i2 < i ==> #[trigger] list@[(gh - 1 - (j as int)) * gw + i2]@
                            == row_text(
                            ppm_comp_s(px(*self, i2, j as int).0),
                            ppm_comp_s(px(*self, i2, j as int).1),
                            ppm_comp_s(px(*self, i2, j as int).2),
                        ),
                decreases w - i,
            {
                let c = self.get_px(i, j);
                let s = c.ppm();
                proof {
                    assert forall|i2: int, j2: int|
                        0 <= i2 < gw && (j as int) < j2 < gh implies #[trigger] ((gh - 1 - j2) * gw
                        + i2) < (gh - 1 - (j as int)) * gw by {
                        assert((gh - 1 - j2) * gw <= (gh - 2 - (j as int)) * gw)
                            by (nonlinear_arith)
                            requires gh - 1 - j2 <= gh - 2 - (j as int), gw >= 1;
                        assert((gh - 2 - (j as int)) * gw == (gh - 1 - (j as int)) * gw - gw)
                            by (nonlinear_arith);
                    }
                }
                list.push(s);
                i = i + 1;
            }
            proof {
                assert((gh - 1 - (j as int)) * gw + gw == (gh - (j as int)) * gw)
                    by (nonlinear_arith);
            }
            jr = j;
        }
        proof {
            assert((gh - 0) * gw == gw * gh) by (nonlinear_arith);
        }
        list
    }
}

} // verus!
