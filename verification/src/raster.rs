//! Pixel buffers of three 8-bit channels, kept in the `image` crate's `RgbImage`.
//!
//! What is inside such a buffer is hidden from the proofs. Its width and
//! height are named by `extent` and its bytes by `channels`; the functions
//! marked `external_body` say, without proof, how the crate's methods act on
//! the two.
use vstd::prelude::*;

verus! {

/// The error of the `image` crate. It is handed on unread.
#[verifier::external_type_specification]
#[verifier::external_body]
pub struct ExImageError(image::ImageError);

/// A buffer of RGB pixels, eight bits a channel: an `image::RgbImage`, whose
/// width, height and bytes are hidden and spoken of through `extent` and
/// `channels` alone.
#[verifier::external_body]
pub struct Raster {
    inner: image::RgbImage,
}

/// Width and height of a buffer, in pixels.
pub uninterp spec fn extent(img: Raster) -> (nat, nat);

/// The channel values of a buffer, row after row, three for each pixel.
pub uninterp spec fn channels(img: Raster) -> Seq<u8>;

/// Where the first channel of pixel `(x, y)` lies in a buffer `width` pixels wide.
pub open spec fn offset(width: nat, x: int, y: int) -> int {
    (y * width + x) * 3
}

/// The three channels of pixel `(x, y)`.
pub open spec fn pixel(img: Raster, x: int, y: int) -> Seq<u8> {
    channels(img).subrange(offset(extent(img).0, x, y), offset(extent(img).0, x, y) + 3)
}

/// A buffer holds exactly the channels of its pixels.
pub open spec fn dense(img: Raster) -> bool {
    channels(img).len() == 3 * extent(img).0 * extent(img).1
}

/// `after` is `before` with `patch` laid over it, the patch's top-left corner at `(x, y)`.
pub open spec fn overlaid(before: Raster, patch: Raster, x: int, y: int, after: Raster) -> bool {
    &&& extent(after) == extent(before)
    &&& channels(after).len() == channels(before).len()
    &&& forall|i: int, k: int|
        0 <= i < extent(before).0 && 0 <= k < extent(before).1 ==> #[trigger] pixel(after, i, k)
            == if x <= i < x + extent(patch).0 && y <= k < y + extent(patch).1 {
            pixel(patch, i - x, k - y)
        } else {
            pixel(before, i, k)
        }
}

/// `after` is `before` with pixel `(x, y)` set to `rgb`.
pub open spec fn painted(before: Raster, x: int, y: int, rgb: Seq<u8>, after: Raster) -> bool {
    &&& extent(after) == extent(before)
    &&& channels(after) == channels(before).update(offset(extent(before).0, x, y), rgb[0]).update(
        offset(extent(before).0, x, y) + 1,
        rgb[1],
    ).update(offset(extent(before).0, x, y) + 2, rgb[2])
}

/// Calls `ImageBuffer::new`: a buffer of the given extent with every channel zero.
/// The outside function panics when the number of channels overflows `usize`,
/// and the vector it allocates can hold no more than `isize::MAX` of them.
#[verifier::external_body]
pub(crate) fn blank(width: u32, height: u32) -> (img: Raster)
    requires
        3 * width * height <= isize::MAX,
    ensures
        extent(img) == (width as nat, height as nat),
        channels(img) == Seq::new((3 * width * height) as nat, |i: int| 0u8),
{
    Raster { inner: image::RgbImage::new(width, height) }
}

/// Calls `ImageBuffer::width`.
#[verifier::external_body]
pub(crate) fn width_of(img: &Raster) -> (w: u32)
    ensures
        w == extent(*img).0,
{
    img.inner.width()
}

/// Calls `ImageBuffer::height`.
#[verifier::external_body]
pub(crate) fn height_of(img: &Raster) -> (h: u32)
    ensures
        h == extent(*img).1,
{
    img.inner.height()
}

/// Calls `ImageBuffer::get_pixel`, which panics outside the buffer's extent.
#[verifier::external_body]
pub(crate) fn read(img: &Raster, x: u32, y: u32) -> (rgb: [u8; 3])
    requires
        x < extent(*img).0,
        y < extent(*img).1,
    ensures
        rgb@ == pixel(*img, x as int, y as int),
{
    img.inner.get_pixel(x, y).0
}

/// Calls `ImageBuffer::put_pixel`, which panics outside the buffer's extent:
/// the three channels of the pixel are replaced and nothing else changes.
#[verifier::external_body]
pub(crate) fn paint(img: &mut Raster, x: u32, y: u32, rgb: [u8; 3])
    requires
        x < extent(*old(img)).0,
        y < extent(*old(img)).1,
    ensures
        painted(*old(img), x as int, y as int, rgb@, *final(img)),
{
    img.inner.put_pixel(x, y, image::Rgb(rgb))
}

/// Calls `GenericImage::copy_from`. It fails, and changes nothing, when the
/// patch does not fit at `(x, y)`; else it copies the patch pixel by pixel.
/// The outside function adds the patch's extent to `(x, y)` in 32 bits.
#[verifier::external_body]
pub(crate) fn overlay(img: &mut Raster, patch: &Raster, x: u32, y: u32) -> (r: Result<
    (),
    image::ImageError,
>)
    requires
        extent(*patch).0 + x <= u32::MAX,
        extent(*patch).1 + y <= u32::MAX,
    ensures
        r is Ok <==> extent(*patch).0 + x <= extent(*old(img)).0 && extent(*patch).1 + y <= extent(
            *old(img),
        ).1,
        r is Ok ==> overlaid(*old(img), *patch, x as int, y as int, *final(img)),
        r is Err ==> extent(*final(img)) == extent(*old(img)) && channels(*final(img)) == channels(
            *old(img),
        ),
{
    image::GenericImage::copy_from(&mut img.inner, &patch.inner, x, y)
}

/// Calls `ImageBuffer::as_raw` and `Vec::clone`: the channel values, as the buffer holds them.
#[verifier::external_body]
pub(crate) fn raw_of(img: &Raster) -> (raw: Vec<u8>)
    ensures
        raw@ == channels(*img),
{
    img.inner.as_raw().clone()
}

/// Whether two buffers hold the same picture.
pub open spec fn same(a: Raster, b: Raster) -> bool {
    extent(a) == extent(b) && channels(a) == channels(b)
}

/// Whether a buffer of this extent can be made: a vector must be able to hold its channels.
pub open spec fn fits(width: u32, height: u32) -> bool {
    3 * width * height <= isize::MAX
}

/// Painting one pixel sets that pixel and leaves every other as it was.
pub proof fn lemma_painted(before: Raster, x: int, y: int, rgb: Seq<u8>, after: Raster)
    requires
        dense(before),
        0 <= x < extent(before).0,
        0 <= y < extent(before).1,
        rgb.len() == 3,
        painted(before, x, y, rgb, after),
    ensures
        dense(after),
        pixel(after, x, y) == rgb,
        forall|i: int, k: int|
            0 <= i < extent(before).0 && 0 <= k < extent(before).1 && (i != x || k != y)
                ==> #[trigger] pixel(after, i, k) == pixel(before, i, k),
{
    let w = extent(before).0 as int;
    let h = extent(before).1 as int;
    let o = offset(w as nat, x, y);
    lemma_offset_bounds(w, h, x, y);
    assert(pixel(after, x, y) =~= rgb);
    assert forall|i: int, k: int|
        0 <= i < w && 0 <= k < h && (i != x || k != y) implies #[trigger] pixel(after, i, k)
        == pixel(before, i, k) by {
        lemma_offset_bounds(w, h, i, k);
        lemma_offset_apart(w, x, y, i, k);
        assert(pixel(after, i, k) =~= pixel(before, i, k));
    }
}

/// The channels of a pixel inside the extent lie inside the buffer.
pub proof fn lemma_offset_bounds(w: int, h: int, x: int, y: int)
    requires
        0 <= x < w,
        0 <= y < h,
    ensures
        0 <= offset(w as nat, x, y),
        offset(w as nat, x, y) + 3 <= 3 * w * h,
{
    assert(y * w + x + 1 <= h * w && 0 <= y * w) by (nonlinear_arith)
        requires
            0 <= x < w,
            0 <= y < h,
    ;
    assert(3 * w * h == 3 * (h * w)) by (nonlinear_arith);
}

/// Different pixels have their channels in different places.
pub proof fn lemma_offset_apart(w: int, x: int, y: int, i: int, k: int)
    requires
        0 <= x < w,
        0 <= i < w,
        0 <= y,
        0 <= k,
        i != x || k != y,
    ensures
        offset(w as nat, i, k) + 3 <= offset(w as nat, x, y) || offset(w as nat, x, y) + 3
            <= offset(w as nat, i, k),
{
    if k < y {
        assert(k * w + i + 1 <= y * w + x) by (nonlinear_arith)
            requires
                k + 1 <= y,
                0 <= i < w,
                0 <= x,
        ;
    } else if y < k {
        assert(y * w + x + 1 <= k * w + i) by (nonlinear_arith)
            requires
                y + 1 <= k,
                0 <= x < w,
                0 <= i,
        ;
    }
}

impl Raster {
    /// A black buffer of the given extent, or `None` if it would hold more
    /// channels than a vector can.
    pub fn new(width: u32, height: u32) -> (r: Option<Raster>)
        ensures
            r is Some <==> fits(width, height),
            r is Some ==> extent(r.unwrap()) == (width as nat, height as nat) && dense(r.unwrap())
                && forall|i: int| 0 <= i < 3 * width * height ==> channels(r.unwrap())[i] == 0,
    {
        let row: u128 = 3 * (width as u128);
        assert(row * height <= 3 * 0xffff_ffff * 0xffff_ffff) by (nonlinear_arith)
            requires
                row <= 3 * 0xffff_ffff,
                height <= 0xffff_ffff,
        ;
        assert(row * height == 3 * width * height) by (nonlinear_arith)
            requires
                row == 3 * width,
        ;
        if row * (height as u128) <= isize::MAX as u128 {
            Some(blank(width, height))
        } else {
            None
        }
    }

    /// The width in pixels.
    pub fn width(&self) -> (w: u32)
        ensures
            w == extent(*self).0,
    {
        width_of(self)
    }

    /// The height in pixels.
    pub fn height(&self) -> (h: u32)
        ensures
            h == extent(*self).1,
    {
        height_of(self)
    }

    /// The channels of pixel `(x, y)`, or `None` outside the buffer.
    pub fn get(&self, x: u32, y: u32) -> (r: Option<[u8; 3]>)
        ensures
            r is Some <==> x < extent(*self).0 && y < extent(*self).1,
            r is Some ==> r.unwrap()@ == pixel(*self, x as int, y as int),
    {
        if x < width_of(self) && y < height_of(self) {
            Some(read(self, x, y))
        } else {
            None
        }
    }

    /// Sets pixel `(x, y)` and says so; outside the buffer nothing changes.
    pub fn put(&mut self, x: u32, y: u32, rgb: [u8; 3]) -> (done: bool)
        ensures
            done == (x < extent(*old(self)).0 && y < extent(*old(self)).1),
            done ==> painted(*old(self), x as int, y as int, rgb@, *final(self)),
            !done ==> same(*old(self), *final(self)),
    {
        if x < width_of(self) && y < height_of(self) {
            paint(self, x, y, rgb);
            true
        } else {
            false
        }
    }

    /// The channel values, row after row.
    pub fn to_vec(&self) -> (raw: Vec<u8>)
        ensures
            raw@ == channels(*self),
    {
        raw_of(self)
    }
}

} // verus!
