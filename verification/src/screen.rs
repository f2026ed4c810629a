//! The captured screen: an RGBA image buffer of the `image` crate, read and
//! written one pixel at a time.

use vstd::prelude::*;
use crate::color::Color;

verus! {

/// One capture of the screen. The pixels live in an `image::RgbaImage`;
/// contracts speak of them through [`snapshot_size`] and [`snapshot_pixels`].
#[verifier::external_body]
pub struct Snapshot {
    image: image::RgbaImage,
}

/// Width and height of a snapshot, in pixels.
pub uninterp spec fn snapshot_size(snapshot: Snapshot) -> (nat, nat);

/// The pixels of a snapshot by their place `(x, y)`.
pub uninterp spec fn snapshot_pixels(snapshot: Snapshot) -> Map<(int, int), Color>;

/// The colour whose four channels stand at `at` in a buffer of bytes.
pub open spec fn color_in(bytes: Seq<u8>, at: int) -> Color {
    Color { r: bytes[at], g: bytes[at + 1], b: bytes[at + 2], a: bytes[at + 3] }
}

/// Where the pixel `(x, y)` of an image `width` pixels wide starts in its
/// buffer: rows follow one another, four bytes to the pixel.
pub open spec fn byte_offset(width: nat, x: int, y: int) -> int {
    (y * width + x) * 4
}

/// Whether `len` bytes make an image of the given size: the bytes of one
/// row can be counted in a `usize`, and there are bytes for every pixel.
pub open spec fn enough_bytes(width: u32, height: u32, len: nat) -> bool {
    4 * width <= usize::MAX && 4 * width * height <= len
}

/// `ImageBuffer::from_raw`: an image over the given bytes, unless they are
/// too few for `width * height` pixels of four channels. The crate counts
/// the bytes of one row first and those of all rows second, each in a
/// `usize`, and makes no image where either count does not fit; the first
/// can fail to fit even where there are no rows.
#[verifier::external_body]
fn image_from_raw(width: u32, height: u32, bytes: Vec<u8>) -> (r: Option<Snapshot>)
    ensures
        r.is_some() <==> enough_bytes(width, height, bytes@.len()),
        r matches Some(s) ==> snapshot_size(s) == (width as nat, height as nat) && forall|
            x: int,
            y: int,
        |
            0 <= x < width && 0 <= y < height ==> #[trigger] snapshot_pixels(s)[(x, y)]
                == color_in(bytes@, byte_offset(width as nat, x, y)),
{
    match image::RgbaImage::from_raw(width, height, bytes) {
        Some(image) => Some(Snapshot { image }),
        None => None,
    }
}

/// `ImageBuffer::into_raw`: the bytes under the image, which hold every pixel
/// at its offset.
#[verifier::external_body]
fn image_into_raw(snapshot: Snapshot) -> (bytes: Vec<u8>)
    ensures
        4 * snapshot_size(snapshot).0 * snapshot_size(snapshot).1 <= bytes@.len(),
        forall|x: int, y: int|
            0 <= x < snapshot_size(snapshot).0 && 0 <= y < snapshot_size(snapshot).1
                ==> #[trigger] snapshot_pixels(snapshot)[(x, y)] == color_in(
                bytes@,
                byte_offset(snapshot_size(snapshot).0, x, y),
            ),
{
    snapshot.image.into_raw()
}

/// `ImageBuffer::width`: the width that the image was made with.
#[verifier::external_body]
fn image_width(snapshot: &Snapshot) -> (w: u32)
    ensures
        w == snapshot_size(*snapshot).0,
{
    snapshot.image.width()
}

/// `ImageBuffer::height`: the height that the image was made with.
#[verifier::external_body]
fn image_height(snapshot: &Snapshot) -> (h: u32)
    ensures
        h == snapshot_size(*snapshot).1,
{
    snapshot.image.height()
}

/// `ImageBuffer::get_pixel`: the pixel at `(x, y)`, which must lie inside the
/// image; its four channels are handed out as a [`Color`].
#[verifier::external_body]
fn image_get_pixel(snapshot: &Snapshot, x: u32, y: u32) -> (c: Color)
    requires
        snapshot.contains(x as int, y as int),
    ensures
        c == snapshot_pixels(*snapshot)[(x as int, y as int)],
{
    let p = snapshot.image.get_pixel(x, y);
    Color { r: p.0[0], g: p.0[1], b: p.0[2], a: p.0[3] }
}

/// `ImageBuffer::put_pixel`: sets the pixel at `(x, y)`, which must lie inside
/// the image, and leaves every other pixel and the size as they were.
#[verifier::external_body]
fn image_put_pixel(snapshot: &mut Snapshot, x: u32, y: u32, c: Color)
    requires
        old(snapshot).contains(x as int, y as int),
    ensures
        snapshot_size(*final(snapshot)) == snapshot_size(*old(snapshot)),
        snapshot_pixels(*final(snapshot)) == snapshot_pixels(*old(snapshot)).insert(
            (x as int, y as int),
            c,
        ),
{
    snapshot.image.put_pixel(x, y, image::Rgba([c.r, c.g, c.b, c.a]));
}

impl Snapshot {
    /// Width in pixels.
    pub open spec fn spec_width(self) -> nat {
        snapshot_size(self).0
    }

    /// Height in pixels.
    pub open spec fn spec_height(self) -> nat {
        snapshot_size(self).1
    }

    /// Whether `(x, y)` lies inside the snapshot.
    pub open spec fn contains(self, x: int, y: int) -> bool {
        0 <= x < self.spec_width() && 0 <= y < self.spec_height()
    }

    /// The colour at `(x, y)`.
    pub open spec fn color_at(self, x: int, y: int) -> Color {
        snapshot_pixels(self)[(x, y)]
    }

    /// A snapshot over raw RGBA bytes, row after row. There is none where the
    /// bytes are too few for `width * height` pixels, nor where the bytes of
    /// one row are more than a `usize` can count.
    pub fn from_raw(width: u32, height: u32, bytes: Vec<u8>) -> (r: Option<Snapshot>)
        ensures
            r.is_some() <==> enough_bytes(width, height, bytes@.len()),
            r matches Some(s) ==> s.spec_width() == width && s.spec_height() == height
                && forall|x: int, y: int|
                0 <= x < width && 0 <= y < height ==> #[trigger] s.color_at(x, y) == color_in(
                    bytes@,
                    byte_offset(width as nat, x, y),
                ),
    {
        image_from_raw(width, height, bytes)
    }

    /// The raw RGBA bytes of the snapshot, row after row.
    pub fn into_raw(self) -> (bytes: Vec<u8>)
        ensures
            4 * self.spec_width() * self.spec_height() <= bytes@.len(),
            forall|x: int, y: int|
                self.contains(x, y) ==> #[trigger] self.color_at(x, y) == color_in(
                    bytes@,
                    byte_offset(self.spec_width(), x, y),
                ),
    {
        image_into_raw(self)
    }

    /// Width in pixels.
    pub fn width(&self) -> (w: u32)
        ensures
            w == self.spec_width(),
    {
        image_width(self)
    }

    /// Height in pixels.
    pub fn height(&self) -> (h: u32)
        ensures
            h == self.spec_height(),
    {
        image_height(self)
    }

    /// The colour at `(x, y)`, or nothing where that lies outside.
    pub fn get(&self, x: u32, y: u32) -> (r: Option<Color>)
        ensures
            r == if self.contains(x as int, y as int) {
                Some(self.color_at(x as int, y as int))
            } else {
                None
            },
    {
        if x < image_width(self) && y < image_height(self) {
            Some(image_get_pixel(self, x, y))
        } else {
            None
        }
    }

    /// Paints the pixel at `(x, y)`; outside the snapshot nothing changes.
    /// Returns whether the pixel lay inside.
    pub fn set(&mut self, x: u32, y: u32, c: Color) -> (inside: bool)
        ensures
            inside == old(self).contains(x as int, y as int),
            final(self).spec_width() == old(self).spec_width(),
            final(self).spec_height() == old(self).spec_height(),
            forall|px: int, py: int| #[trigger]
                final(self).color_at(px, py) == if inside && px == x && py == y {
                    c
                } else {
                    old(self).color_at(px, py)
                },
    {
        if x < image_width(self) && y < image_height(self) {
            image_put_pixel(self, x, y, c);
            true
        } else {
            false
        }
    }
}

} // verus!
