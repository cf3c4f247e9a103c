use vstd::prelude::*;
use vstd::math::min;

verus! {

/// Intensity byte of an escape index: a point that never escaped is black
/// (0); one that escaped at index `k` is `255 - min(k, 255)`.
pub open spec fn shade(escape: Option<u32>) -> u8 {
    match escape {
        None => 0,
        Some(k) => (255 - min(k as int, 255)) as u8,
    }
}

/// The byte of pixel (`col`, `row`) in a row-major buffer of width `width`.
pub open spec fn pixel_at(buf: Seq<u8>, width: int, col: int, row: int) -> u8 {
    buf[row * width + col]
}

/// `b` is the shade of some escape index that `escape_at` may return for
/// pixel (`col`, `row`).
pub open spec fn shaded_by<F: Fn(usize, usize) -> Option<u32>>(
    escape_at: F,
    col: int,
    row: int,
    b: u8,
) -> bool {
    exists|e: Option<u32>| escape_at.ensures((col as usize, row as usize), e) && b == shade(e)
}

/// `buf` holds a `width` x `height` image, row-major, whose every pixel is
/// the shade of the escape index that `escape_at` gives for it.
pub open spec fn renders<F: Fn(usize, usize) -> Option<u32>>(
    buf: Seq<u8>,
    width: int,
    height: int,
    escape_at: F,
) -> bool {
    &&& buf.len() == width * height
    &&& forall|col: int, row: int|
        0 <= col < width && 0 <= row < height ==> shaded_by(
            escape_at,
            col,
            row,
            #[trigger] pixel_at(buf, width, col, row),
        )
}

/// `escape_at` gives at most one result for each pixel.
pub open spec fn deterministic<F: Fn(usize, usize) -> Option<u32>>(escape_at: F) -> bool {
    forall|args: (usize, usize), e1: Option<u32>, e2: Option<u32>|
        #[trigger] escape_at.ensures(args, e1) && #[trigger] escape_at.ensures(args, e2) ==> e1
            == e2
}

/// Maps an escape index to its intensity byte.
pub fn intensity(escape: Option<u32>) -> (r: u8)
    ensures
        r == shade(escape),
{
    match escape {
        None => 0,
        Some(k) => if k >= 255 {
            0
        } else {
            (255 - k) as u8
        },
    }
}

proof fn lemma_index_order(width: int, c1: int, r1: int, c2: int, r2: int)
    requires
        0 <= c1 < width,
        0 <= c2 < width,
        0 <= r1,
        0 <= r2,
        r1 < r2 || (r1 == r2 && c1 < c2),
    ensures
        r1 * width + c1 < r2 * width + c2,
{
    if r1 < r2 {
        assert((r1 + 1) * width <= r2 * width) by (nonlinear_arith)
            requires
                r1 + 1 <= r2,
                0 <= width,
        ;
        assert((r1 + 1) * width == r1 * width + width) by (nonlinear_arith);
    }
}

/// Fills `pixels`, a row-major image of `edges.0` columns and `edges.1`
/// rows, with the intensity of each pixel's escape index as `escape_at`
/// gives it for (column, row).
pub fn render<F: Fn(usize, usize) -> Option<u32>>(
    pixels: &mut [u8],
    edges: (usize, usize),
    escape_at: F,
)
    requires
        old(pixels)@.len() == edges.0 * edges.1,
        forall|col: usize, row: usize|
            col < edges.0 && row < edges.1 ==> #[trigger] escape_at.requires((col, row)),
    ensures
        renders(final(pixels)@, edges.0 as int, edges.1 as int, escape_at),
{
    let (width, height) = edges;
    let ghost w = width as int;
    let mut row: usize = 0;
    let mut idx: usize = 0;
    while row < height
        invariant
            pixels@.len() == width * height,
            w == width as int,
            row <= height,
            idx == row * w,
            forall|col: usize, r: usize|
                col < width && r < height ==> #[trigger] escape_at.requires((col, r)),
            forall|c: int, r: int|
                0 <= c < w && 0 <= r < row ==> shaded_by(
                    escape_at,
                    c,
                    r,
                    #[trigger] pixel_at(pixels@, w, c, r),
                ),
        decreases height - row,
    {
        let mut col: usize = 0;
        assert((row + 1) * w <= height * w) by (nonlinear_arith)
            requires
                row < height,
                0 <= w,
        ;
        assert((row + 1) * w == row * w + w) by (nonlinear_arith);
        while col < width
            invariant
                pixels@.len() == width * height,
                w == width as int,
                row < height,
                col <= width,
                idx == row * w + col,
                row * w + w <= width * height,
                forall|c: usize, r: usize|
                    c < width && r < height ==> #[trigger] escape_at.requires((c, r)),
                forall|c: int, r: int|
                    0 <= c < w && 0 <= r < height && (r < row || (r == row && c < col))
                        ==> shaded_by(escape_at, c, r, #[trigger] pixel_at(pixels@, w, c, r)),
            decreases width - col,
        {
            let e = escape_at(col, row);
            let b = intensity(e);
            let ghost before = pixels@;
            pixels[idx] = b;
            assert forall|c: int, r: int|
                0 <= c < w && 0 <= r < height && (r < row || (r == row && c < col + 1))
                    implies shaded_by(escape_at, c, r, #[trigger] pixel_at(pixels@, w, c, r)) by {
                if r == row && c == col {
                    assert(escape_at.ensures((c as usize, r as usize), e));
                } else {
                    lemma_index_order(w, c, r, col as int, row as int);
                    assert(pixel_at(pixels@, w, c, r) == pixel_at(before, w, c, r));
                }
            }
            col = col + 1;
            idx = idx + 1;
        }
        row = row + 1;
    }
}

/// Rendering is repeatable: two buffers that both render the same extent
/// through the same deterministic escape evaluation are byte-identical,
/// whatever they held before, since every byte is overwritten.
pub proof fn lemma_render_repeatable<F: Fn(usize, usize) -> Option<u32>>(
    escape_at: F,
    width: int,
    height: int,
    a: Seq<u8>,
    b: Seq<u8>,
)
    requires
        0 < width,
        0 < height,
        deterministic(escape_at),
        renders(a, width, height, escape_at),
        renders(b, width, height, escape_at),
    ensures
        a == b,
{
    assert forall|i: int| 0 <= i < a.len() implies a[i] == b[i] by {
        let col = i % width;
        let row = i / width;
        assert(i == row * width + col) by (nonlinear_arith)
            requires
                0 < width,
                col == i % width,
                row == i / width,
        ;
        assert(0 <= row < height) by (nonlinear_arith)
            requires
                0 < width,
                0 <= i < width * height,
                row == i / width,
        ;
        assert(shaded_by(escape_at, col, row, pixel_at(a, width, col, row)));
        assert(shaded_by(escape_at, col, row, pixel_at(b, width, col, row)));
        let ea = choose|e: Option<u32>|
            escape_at.ensures((col as usize, row as usize), e) && pixel_at(a, width, col, row)
                == shade(e);
        let eb = choose|e: Option<u32>|
            escape_at.ensures((col as usize, row as usize), e) && pixel_at(b, width, col, row)
                == shade(e);
        assert(ea == eb);
    }
    assert(a =~= b);
}

} // verus!
