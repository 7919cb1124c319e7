//! Tracing an 8-bit luminance image buffer in place. A pixel holds 32 minus
//! the counter of its cell: 31 for untouched foreground, 33 for untouched
//! background.

use vstd::prelude::*;
use ::image::{ImageBuffer, Luma};
use crate::error::TraceError;
use crate::heading::{kind_of, BoundaryKind};
use crate::path::{ops_text, paths_text, render};
use crate::raster::{columns, grown, well_formed, with_added, CellClass, Raster};
use crate::scanner::{trace_all, traced};
use crate::tracer::{boundary, trace_into};

verus! {

/// The luminance pixel type of the `image` crate: a public one-element
/// array that holds the channel.
#[verifier::external_type_specification]
#[verifier::reject_recursive_types(T)]
pub struct ExLuma<T>(::image::Luma<T>);

/// An 8-bit luminance image of the `image` crate, `ImageBuffer<Luma<u8>,
/// Vec<u8>>`, held whole. Verus sees nothing of its inside: what it holds
/// is named by `pixel_rows` and `pixel_columns`.
#[verifier::external_body]
pub struct LumaBuffer {
    inner: ImageBuffer<Luma<u8>, Vec<u8>>,
}

/// The pixels of the buffer: one sequence per row, top row first, each
/// holding the bytes of that row's pixels from left to right.
pub uninterp spec fn pixel_rows(buffer: LumaBuffer) -> Seq<Seq<u8>>;

/// The width of the buffer in pixels.
pub uninterp spec fn pixel_columns(buffer: LumaBuffer) -> nat;

/// `ImageBuffer::from_raw`: takes the bytes as the pixels of a
/// `width` by `height` image, row after row, where there are at least
/// `width * height` of them, and refuses them otherwise.
#[verifier::external_body]
fn buffer_from_raw(width: u32, height: u32, data: Vec<u8>) -> (r: Option<LumaBuffer>)
    ensures
        r is Some <==> width * height <= data@.len(),
        r matches Some(b) ==> pixel_columns(b) == width && pixel_rows(b).len() == height,
        r matches Some(b) ==> forall|y: int|
            0 <= y < height ==> (#[trigger] pixel_rows(b)[y]).len() == width,
        r matches Some(b) ==> forall|x: int, y: int|
            0 <= y < height && 0 <= x < width ==> (#[trigger] pixel_rows(b)[y][x]) == data@[y
                * width + x],
{
    match ImageBuffer::from_raw(width, height, data) {
        Some(inner) => Some(LumaBuffer { inner }),
        None => None,
    }
}

/// `ImageBuffer::width`: the number of pixels in each row.
#[verifier::external_body]
fn buffer_width(buffer: &LumaBuffer) -> (w: u32)
    ensures
        w == pixel_columns(*buffer),
        forall|y: int|
            0 <= y < pixel_rows(*buffer).len() ==> (#[trigger] pixel_rows(*buffer)[y]).len() == w,
{
    buffer.inner.width()
}

/// `ImageBuffer::height`: the number of rows.
#[verifier::external_body]
fn buffer_height(buffer: &LumaBuffer) -> (h: u32)
    ensures
        h == pixel_rows(*buffer).len(),
{
    buffer.inner.height()
}

/// `ImageBuffer::get_pixel`: the pixel at `(x, y)`, for a position inside
/// the image.
#[verifier::external_body]
fn buffer_get(buffer: &LumaBuffer, x: u32, y: u32) -> (p: u8)
    requires
        y < pixel_rows(*buffer).len(),
        x < pixel_columns(*buffer),
    ensures
        p == pixel_rows(*buffer)[y as int][x as int],
{
    buffer.inner.get_pixel(x, y).0[0]
}

/// `ImageBuffer::put_pixel`: overwrites the pixel at `(x, y)`, for a
/// position inside the image, and nothing else.
#[verifier::external_body]
fn buffer_put(buffer: &mut LumaBuffer, x: u32, y: u32, p: u8)
    requires
        y < pixel_rows(*old(buffer)).len(),
        x < pixel_columns(*old(buffer)),
    ensures
        pixel_columns(*final(buffer)) == pixel_columns(*old(buffer)),
        pixel_rows(*final(buffer)) == pixel_rows(*old(buffer)).update(
            y as int,
            pixel_rows(*old(buffer))[y as int].update(x as int, p),
        ),
{
    buffer.inner.put_pixel(x, y, Luma([p]));
}

/// The counter grid that rows of pixels stand for.
pub open spec fn counters_of(rows: Seq<Seq<u8>>) -> Seq<Seq<int>> {
    Seq::new(rows.len(), |y: int| Seq::new(rows[y].len(), |x: int| 32 - rows[y][x]))
}

/// The untouched counter grid of an image: `+1` where the pixel equals
/// `luma`, `-1` everywhere else.
pub open spec fn classified(rows: Seq<Seq<u8>>, luma: u8) -> Seq<Seq<int>> {
    Seq::new(
        rows.len(),
        |y: int|
            Seq::new(
                rows[y].len(),
                |x: int|
                    if rows[y][x] == luma {
                        1int
                    } else {
                        -1int
                    },
            ),
    )
}

impl LumaBuffer {
    /// Every row has as many pixels as the buffer is wide.
    pub open spec fn rectangular(&self) -> bool {
        forall|y: int|
            0 <= y < pixel_rows(*self).len() ==> (#[trigger] pixel_rows(*self)[y]).len()
                == pixel_columns(*self)
    }

    /// A buffer of `width` by `height` pixels over the bytes of `data`, row
    /// after row, or `None` where `data` holds fewer than `width * height`.
    pub fn from_raw(width: u32, height: u32, data: Vec<u8>) -> (r: Option<LumaBuffer>)
        ensures
            r is Some <==> width * height <= data@.len(),
            r matches Some(b) ==> {
                &&& pixel_columns(b) == width
                &&& pixel_rows(b).len() == height
                &&& b.rectangular()
                &&& forall|x: int, y: int|
                    0 <= y < height && 0 <= x < width ==> (#[trigger] pixel_rows(b)[y][x])
                        == data@[y * width + x]
            },
    {
        buffer_from_raw(width, height, data)
    }

    /// Width in pixels.
    pub fn width(&self) -> (w: u32)
        ensures
            w == pixel_columns(*self),
            self.rectangular(),
    {
        buffer_width(self)
    }

    /// Height in pixels.
    pub fn height(&self) -> (h: u32)
        ensures
            h == pixel_rows(*self).len(),
    {
        buffer_height(self)
    }

    /// The pixel at `(x, y)`, or `None` for a position off the image.
    pub fn pixel(&self, x: u32, y: u32) -> (p: Option<u8>)
        ensures
            p == if y < pixel_rows(*self).len() && x < pixel_columns(*self) {
                Some(pixel_rows(*self)[y as int][x as int])
            } else {
                None
            },
    {
        if x < buffer_width(self) && y < buffer_height(self) {
            Some(buffer_get(self, x, y))
        } else {
            None
        }
    }
}

impl Raster for LumaBuffer {
    /// The rows are as long as the buffer is wide, and both dimensions are
    /// those of an image.
    open spec fn wf(&self) -> bool {
        &&& self.rectangular()
        &&& pixel_columns(*self) <= u32::MAX
        &&& pixel_rows(*self).len() <= u32::MAX
    }

    /// A pixel `p` stands for the counter `32 - p`.
    open spec fn cells(&self) -> Seq<Seq<int>> {
        counters_of(pixel_rows(*self))
    }

    fn height(&self) -> (h: usize) {
        buffer_height(self) as usize
    }

    fn width(&self) -> (w: usize) {
        buffer_width(self) as usize
    }

    fn signed_value(&self, x: usize, y: usize) -> (v: i8) {
        let p = buffer_get(self, x as u32, y as u32);
        assert(self.cells()[y as int][x as int] == 32 - p);
        (32 - p as i16) as i8
    }

    fn classify(&self, x: usize, y: usize, dx: i8, dy: i8) -> (c: CellClass) {
        let w = buffer_width(self) as usize;
        let h = buffer_height(self) as usize;
        if (dx < 0 && x == 0) || (dx > 0 && x == w - 1) || (dy < 0 && y == 0) || (dy > 0 && y == h
            - 1) {
            return CellClass::Outside;
        }
        let tx: usize = if dx < 0 {
            x - 1
        } else if dx > 0 {
            x + 1
        } else {
            x
        };
        let ty: usize = if dy < 0 {
            y - 1
        } else if dy > 0 {
            y + 1
        } else {
            y
        };
        let p = buffer_get(self, tx as u32, ty as u32);
        assert(self.cells()[ty as int][tx as int] == 32 - p);
        if p < 32 {
            CellClass::Foreground
        } else if p > 32 {
            CellClass::Background
        } else {
            CellClass::Outside
        }
    }

    fn add(&mut self, x: usize, y: usize, delta: i8) {
        let p = buffer_get(self, x as u32, y as u32);
        let ghost before = pixel_rows(*self);
        assert(self.cells()[y as int][x as int] == 32 - p);
        let q = (p as i16 - delta as i16) as u8;
        buffer_put(self, x as u32, y as u32, q);
        proof {
            let after = self.cells();
            let expected = with_added(counters_of(before), x as int, y as int, delta as int);
            assert forall|j: int| 0 <= j < after.len() implies (#[trigger] after[j])
                == expected[j] by {
                assert(after[j] =~= expected[j]);
            }
            assert(after =~= expected);
        }
    }
}

/// Traces an 8-bit luminance image in place. A pixel is foreground where it
/// equals `luma` and background otherwise. Every pixel is first rewritten to
/// 31 (foreground) or 33 (background) and then annotated by the scan, so the
/// buffer holds 32 minus the final counters afterwards. The result is the
/// text of the paths of all boundaries in the order a row-by-row scan meets
/// them, each closed with `Z` if `closepaths` is set. An image without
/// pixels is refused, and then left as it was.
pub fn single_l8_to_paths(buffer: &mut LumaBuffer, luma: Luma<u8>, closepaths: bool) -> (r: Result<
    String,
    TraceError,
>)
    ensures
        pixel_columns(*final(buffer)) == pixel_columns(*old(buffer)),
        pixel_rows(*final(buffer)).len() == pixel_rows(*old(buffer)).len(),
        final(buffer).rectangular(),
        match r {
            Ok(text) => {
                &&& pixel_columns(*old(buffer)) > 0
                &&& pixel_rows(*old(buffer)).len() > 0
                &&& traced(classified(pixel_rows(*old(buffer)), luma.0[0]), closepaths)
                    matches Some(end)
                &&& text@ == paths_text(end.paths)
                &&& counters_of(pixel_rows(*final(buffer))) == end.cells
            },
            Err(TraceError::InvalidInput) => {
                &&& pixel_columns(*old(buffer)) == 0 || pixel_rows(*old(buffer)).len() == 0
                &&& pixel_rows(*final(buffer)) == pixel_rows(*old(buffer))
            },
            Err(TraceError::Inconsistent) => {
                &&& pixel_columns(*old(buffer)) > 0
                &&& pixel_rows(*old(buffer)).len() > 0
                &&& traced(classified(pixel_rows(*old(buffer)), luma.0[0]), closepaths) is None
                &&& grown(
                    classified(pixel_rows(*old(buffer)), luma.0[0]),
                    counters_of(pixel_rows(*final(buffer))),
                )
            },
        },
{
    let width = buffer_width(buffer);
    let height = buffer_height(buffer);
    if width == 0 || height == 0 {
        return Err(TraceError::InvalidInput);
    }
    let wanted = luma.0[0];
    let mut y: u32 = 0;
    while y < height
        invariant
            y <= height,
            height == pixel_rows(*old(buffer)).len(),
            width == pixel_columns(*old(buffer)),
            old(buffer).rectangular(),
            buffer.rectangular(),
            pixel_columns(*buffer) == width,
            pixel_rows(*buffer).len() == height,
            forall|i: int, j: int|
                0 <= j < height && 0 <= i < width ==> (#[trigger] pixel_rows(*buffer)[j][i]) == if j
                    < y {
                    if pixel_rows(*old(buffer))[j][i] == wanted {
                        31u8
                    } else {
                        33u8
                    }
                } else {
                    pixel_rows(*old(buffer))[j][i]
                },
        decreases height - y,
    {
        let mut x: u32 = 0;
        while x < width
            invariant
                y < height,
                x <= width,
                height == pixel_rows(*old(buffer)).len(),
                width == pixel_columns(*old(buffer)),
                old(buffer).rectangular(),
                buffer.rectangular(),
                pixel_columns(*buffer) == width,
                pixel_rows(*buffer).len() == height,
                forall|i: int, j: int|
                    0 <= j < height && 0 <= i < width ==> (#[trigger] pixel_rows(*buffer)[j][i])
                        == if j < y || (j == y && i < x) {
                        if pixel_rows(*old(buffer))[j][i] == wanted {
                            31u8
                        } else {
                            33u8
                        }
                    } else {
                        pixel_rows(*old(buffer))[j][i]
                    },
            decreases width - x,
        {
            let p = buffer_get(buffer, x, y);
            let ghost before = pixel_rows(*buffer);
            buffer_put(
                buffer,
                x,
                y,
                if p == wanted {
                    31
                } else {
                    33
                },
            );
            proof {
                assert forall|j: int| 0 <= j < pixel_rows(*buffer).len() implies (
                #[trigger] pixel_rows(*buffer)[j]).len() == pixel_columns(*buffer) by {
                    assert(before[j].len() == width);
                }
            }
            x += 1;
        }
        y += 1;
    }
    proof {
        let fresh = classified(pixel_rows(*old(buffer)), wanted);
        let held = counters_of(pixel_rows(*buffer));
        assert forall|j: int| 0 <= j < height implies (#[trigger] held[j]) == fresh[j] by {
            assert(pixel_rows(*buffer)[j].len() == width);
            assert(pixel_rows(*old(buffer))[j].len() == width);
            assert forall|i: int| 0 <= i < width implies (#[trigger] held[j][i]) == fresh[j][i] by {
                assert(pixel_rows(*buffer)[j][i] == if pixel_rows(*old(buffer))[j][i] == wanted {
                    31u8
                } else {
                    33u8
                });
            }
            assert(held[j] =~= fresh[j]);
        }
        assert(held =~= fresh);
        assert(well_formed(fresh)) by {
            assert(fresh[0].len() == width);
            assert forall|j: int| 0 <= j < fresh.len() implies (#[trigger] fresh[j]).len()
                == fresh[0].len() by {
                assert(pixel_rows(*old(buffer))[j].len() == width);
            }
        }
    }
    match trace_all(buffer, closepaths) {
        Ok(paths) => Ok(render(&paths)),
        Err(e) => Err(e),
    }
}

/// Walks one boundary of an image that holds counters from the pixel
/// `(cursor_x, cursor_y)`, an outline if `outline` is set and a hole
/// otherwise, and appends the text of its path to `paths`.
pub fn trace_single_l8(
    outline: bool,
    cursor_x: u32,
    cursor_y: u32,
    buffer: &mut LumaBuffer,
    paths: &mut String,
    closepaths: bool,
) -> (r: Result<(), TraceError>)
    requires
        old(buffer).wf(),
        well_formed(old(buffer).cells()),
        cursor_y < old(buffer).cells().len(),
        cursor_x < columns(old(buffer).cells()),
        kind_of(outline).inside(
            old(buffer).cells()[cursor_y as int][cursor_x as int],
        ),
    ensures
        final(buffer).wf(),
        well_formed(final(buffer).cells()),
        grown(old(buffer).cells(), final(buffer).cells()),
        match boundary(
            kind_of(outline),
            old(buffer).cells(),
            cursor_x as int,
            cursor_y as int,
            kind_of(outline).start(),
            closepaths,
        ) {
            Some(done) => r is Ok && final(paths)@ == old(paths)@ + ops_text(done.ops)
                && final(buffer).cells() == done.cells,
            None => r == Err::<(), TraceError>(TraceError::Inconsistent) && final(paths)@
                == old(paths)@,
        },
{
    trace_into(
        buffer,
        BoundaryKind::from_flag(outline),
        cursor_x as usize,
        cursor_y as usize,
        paths,
        closepaths,
    )
}

} // verus!
