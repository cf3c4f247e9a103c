use vstd::prelude::*;
use crate::render::{renders, deterministic, pixel_at, shaded_by, lemma_render_repeatable};

verus! {

/// A horizontal band of an image: `rows` full-width rows starting at row `top`.
#[derive(Clone, Copy, Debug, PartialEq, Eq, Structural)]
pub struct RowChunk {
    pub top: usize,
    pub rows: usize,
}

/// Rows in each chunk when `height` rows are shared among `workers` tasks.
pub open spec fn chunk_height(height: int, workers: int) -> int {
    height / workers + 1
}

/// Chunk `j` of a plan with `per` rows per chunk over `height` rows: it
/// starts at row `j * per` and runs to the next chunk or to the last row.
pub open spec fn chunk_spec(j: int, per: int, height: int) -> (int, int) {
    let top = j * per;
    (top, if height - top < per { height - top } else { per })
}

/// `chunks` cuts `height` rows into consecutive bands of `per` rows each,
/// the last one possibly shorter, none of them empty, covering every row.
pub open spec fn plan_is(chunks: Seq<RowChunk>, height: int, per: int) -> bool {
    &&& forall|j: int|
        0 <= j < chunks.len() ==> (#[trigger] chunks[j].top as int, chunks[j].rows as int)
            == chunk_spec(j, per, height)
    &&& chunks.len() * per >= height
    &&& (chunks.len() == 0 || (chunks.len() - 1) * per < height)
}

/// Rows per chunk for `height` rows and `workers` tasks: one more than the
/// even share, so that at most `workers` chunks are needed.
pub fn rows_per_chunk(height: usize, workers: usize) -> (r: usize)
    requires
        workers > 0,
        height / workers < usize::MAX,
    ensures
        r == chunk_height(height as int, workers as int),
{
    height / workers + 1
}

/// Cuts `height` rows into row-chunks for `workers` concurrent tasks. Each
/// chunk has `rows_per_chunk(height, workers)` rows except the last, which
/// takes what remains, so that every row of the image lies in a chunk.
pub fn plan_chunks(height: usize, workers: usize) -> (r: Vec<RowChunk>)
    requires
        workers > 0,
        height / workers < usize::MAX,
    ensures
        plan_is(r@, height as int, chunk_height(height as int, workers as int)),
        r@.len() <= workers,
{
    let per = rows_per_chunk(height, workers);
    let mut chunks: Vec<RowChunk> = Vec::new();
    let mut top: usize = 0;
    assert(chunks@.len() == 0);
    assert(chunks@.len() * per == 0) by (nonlinear_arith)
        requires
            chunks@.len() == 0,
    ;
    while top < height
        invariant
            per == chunk_height(height as int, workers as int),
            per > 0,
            top <= height,
            top == if chunks@.len() * per <= height {
                chunks@.len() * per
            } else {
                height as int
            },
            chunks@.len() == 0 || (chunks@.len() - 1) * per < height,
            forall|j: int|
                0 <= j < chunks@.len() ==> (#[trigger] chunks@[j].top as int, chunks@[j].rows as int)
                    == chunk_spec(j, per as int, height as int),
        decreases height - top,
    {
        let ghost k = chunks@.len() as int;
        assert(top == k * per);
        assert((k + 1) * per == k * per + per) by (nonlinear_arith);
        let rest = height - top;
        let rows = if rest < per {
            rest
        } else {
            per
        };
        chunks.push(RowChunk { top, rows });
        top = top + rows;
    }
    proof {
        let n = chunks@.len() as int;
        let h = height as int;
        let w = workers as int;
        let p = per as int;
        assert(n * p >= h);
        assert(p * w > h) by (nonlinear_arith)
            requires
                p == h / w + 1,
                w > 0,
                h >= 0,
        ;
        if n > 0 {
            assert(n <= w) by (nonlinear_arith)
                requires
                    (n - 1) * p < h,
                    p * w > h,
                    p > 0,
            ;
        }
    }
    chunks
}

/// Relies on `num_cpus::get`: the number of CPUs this process may use,
/// which its documentation promises is at least 1.
#[verifier::external_body]
fn available_cpus() -> (r: usize)
    ensures
        r >= 1,
{
    num_cpus::get()
}

/// Cuts `height` rows into row-chunks, one task per CPU available to this
/// process.
pub fn plan_for_cores(height: usize) -> (r: Vec<RowChunk>)
    requires
        height < usize::MAX,
    ensures
        exists|workers: int|
            workers >= 1 && #[trigger] plan_is(r@, height as int, chunk_height(height as int, workers))
                && r@.len() <= workers,
{
    let workers = available_cpus();
    assert(height / workers <= height) by (nonlinear_arith)
        requires
            workers >= 1,
    ;
    let r = plan_chunks(height, workers);
    assert(plan_is(r@, height as int, chunk_height(height as int, workers as int)));
    r
}

/// Every row of the image lies in exactly one chunk of a plan: in chunk
/// `row / per`, and chunks follow one another without overlap.
pub proof fn lemma_plan_tiles(chunks: Seq<RowChunk>, height: int, per: int, row: int)
    requires
        per > 0,
        plan_is(chunks, height, per),
        0 <= row < height,
    ensures
        row / per < chunks.len(),
        chunks[row / per].top <= row < chunks[row / per].top + chunks[row / per].rows,
        forall|j: int|
            0 <= j < chunks.len() && #[trigger] chunks[j].top <= row < chunks[j].top
                + chunks[j].rows ==> j == row / per,
{
    let q = row / per;
    assert(q * per <= row < q * per + per) by (nonlinear_arith)
        requires
            per > 0,
            q == row / per,
            0 <= row,
    ;
    assert(q >= 0) by (nonlinear_arith)
        requires
            per > 0,
            q == row / per,
            0 <= row,
    ;
    if q >= chunks.len() {
        assert(chunks.len() * per <= q * per) by (nonlinear_arith)
            requires
                chunks.len() <= q,
                per > 0,
        ;
    }
    assert(chunks[q].top == q * per);
    assert forall|j: int|
        0 <= j < chunks.len() && #[trigger] chunks[j].top <= row < chunks[j].top
            + chunks[j].rows implies j == q by {
        assert(chunks[j].top == j * per);
        assert(chunks[j].rows <= per);
        if j < q {
            assert(j * per + per <= q * per) by (nonlinear_arith)
                requires
                    j < q,
                    per > 0,
            ;
        } else if j > q {
            assert(q * per + per <= j * per) by (nonlinear_arith)
                requires
                    q < j,
                    per > 0,
            ;
        }
    }
}

/// A chunk rendered on its own equals the matching rows of the whole image,
/// where the chunk's escape evaluation at local (column, row) gives what the
/// whole image's gives at (column, `top` + row). Byte `i` of the chunk is
/// byte `top * width + i` of the whole.
pub proof fn lemma_chunk_matches_full<F, G>(
    full_at: F,
    chunk_at: G,
    width: int,
    height: int,
    top: int,
    rows: int,
    full: Seq<u8>,
    chunk: Seq<u8>,
)
    where
        F: Fn(usize, usize) -> Option<u32>,
        G: Fn(usize, usize) -> Option<u32>,
    requires
        0 < width,
        0 <= top,
        0 < rows,
        top + rows <= height,
        height <= usize::MAX,
        deterministic(full_at),
        forall|c: usize, r: usize, e: Option<u32>|
            r < rows && #[trigger] chunk_at.ensures((c, r), e) ==> full_at.ensures(
                (c, (top + r) as usize),
                e,
            ),
        renders(full, width, height, full_at),
        renders(chunk, width, rows, chunk_at),
    ensures
        chunk == full.subrange(top * width, (top + rows) * width),
{
    assert((top + rows) * width <= height * width) by (nonlinear_arith)
        requires
            top + rows <= height,
            0 < width,
    ;
    assert(top * width + rows * width == (top + rows) * width) by (nonlinear_arith);
    assert(rows * width == width * rows) by (nonlinear_arith);
    assert(height * width == width * height) by (nonlinear_arith);
    assert(0 <= top * width) by (nonlinear_arith)
        requires
            0 <= top,
            0 < width,
    ;
    assert forall|i: int| 0 <= i < chunk.len() implies chunk[i] == full[top * width + i] by {
        let col = i % width;
        let r = i / width;
        assert(i == r * width + col && 0 <= col < width) by (nonlinear_arith)
            requires
                0 < width,
                col == i % width,
                r == i / width,
        ;
        assert(0 <= r < rows) by (nonlinear_arith)
            requires
                0 < width,
                0 <= i < width * rows,
                r == i / width,
        ;
        assert(top * width + i == (top + r) * width + col) by (nonlinear_arith)
            requires
                i == r * width + col,
        ;
        assert(shaded_by(chunk_at, col, r, pixel_at(chunk, width, col, r)));
        assert(shaded_by(full_at, col, top + r, pixel_at(full, width, col, top + r)));
        let ec = choose|e: Option<u32>|
            chunk_at.ensures((col as usize, r as usize), e) && pixel_at(chunk, width, col, r)
                == crate::render::shade(e);
        let ef = choose|e: Option<u32>|
            full_at.ensures((col as usize, (top + r) as usize), e) && pixel_at(
                full,
                width,
                col,
                top + r,
            ) == crate::render::shade(e);
        assert(ec == ef);
    }
    assert(chunk =~= full.subrange(top * width, (top + rows) * width));
}

/// The bytes of `buf`, an image `width` pixels wide, that hold the rows of `chunk`.
pub open spec fn band(buf: Seq<u8>, width: int, chunk: RowChunk) -> Seq<u8> {
    buf.subrange(chunk.top * width, (chunk.top + chunk.rows) * width)
}

/// `part` holds rows `top` .. `top + rows` of the `width`-wide image that
/// `escape_at` describes, as its own row-major buffer.
pub open spec fn renders_rows<F: Fn(usize, usize) -> Option<u32>>(
    part: Seq<u8>,
    width: int,
    top: int,
    rows: int,
    escape_at: F,
) -> bool {
    &&& part.len() == width * rows
    &&& forall|col: int, row: int|
        0 <= col < width && 0 <= row < rows ==> shaded_by(
            escape_at,
            col,
            top + row,
            #[trigger] pixel_at(part, width, col, row),
        )
}

proof fn lemma_bands_render_whole<F: Fn(usize, usize) -> Option<u32>>(
    escape_at: F,
    width: int,
    height: int,
    per: int,
    chunks: Seq<RowChunk>,
    buf: Seq<u8>,
)
    requires
        0 < width,
        0 < per,
        plan_is(chunks, height, per),
        buf.len() == width * height,
        forall|j: int|
            0 <= j < chunks.len() ==> renders_rows(
                #[trigger] band(buf, width, chunks[j]),
                width,
                chunks[j].top as int,
                chunks[j].rows as int,
                escape_at,
            ),
    ensures
        renders(buf, width, height, escape_at),
{
    assert forall|col: int, row: int| 0 <= col < width && 0 <= row < height implies shaded_by(
        escape_at,
        col,
        row,
        #[trigger] pixel_at(buf, width, col, row),
    ) by {
        lemma_plan_tiles(chunks, height, per, row);
        let j = row / per;
        let ch = chunks[j];
        let top = ch.top as int;
        let rows = ch.rows as int;
        let r = row - top;
        assert((top, rows) == chunk_spec(j, per, height));
        assert(top + rows <= height);
        assert((top + rows) * width <= height * width) by (nonlinear_arith)
            requires
                top + rows <= height,
                0 < width,
        ;
        assert(height * width == width * height) by (nonlinear_arith);
        assert(0 <= top * width) by (nonlinear_arith)
            requires
                0 <= top,
                0 < width,
        ;
        assert(top * width + rows * width == (top + rows) * width) by (nonlinear_arith);
        assert(rows * width == width * rows) by (nonlinear_arith);
        assert(top * width + (r * width + col) == row * width + col) by (nonlinear_arith)
            requires
                r == row - top,
        ;
        assert(r * width + col < rows * width) by (nonlinear_arith)
            requires
                0 <= r < rows,
                0 <= col < width,
        ;
        assert(0 <= r * width) by (nonlinear_arith)
            requires
                0 <= r,
                0 < width,
        ;
        let part = band(buf, width, ch);
        assert(renders_rows(part, width, top, rows, escape_at));
        assert(pixel_at(part, width, col, r) == pixel_at(buf, width, col, row));
    }
}

/// A chunk filled by `render` through an escape evaluation that gives, at
/// local (column, row), what `escape_at` gives at (column, `top` + row)
/// holds rows `top` .. `top + rows` of the image that `escape_at` describes.
pub proof fn lemma_shifted_render_rows<F, G>(
    escape_at: F,
    chunk_at: G,
    width: int,
    top: int,
    rows: int,
    part: Seq<u8>,
)
    where
        F: Fn(usize, usize) -> Option<u32>,
        G: Fn(usize, usize) -> Option<u32>,
    requires
        0 <= top,
        top + rows <= usize::MAX,
        forall|c: usize, r: usize, e: Option<u32>|
            r < rows && #[trigger] chunk_at.ensures((c, r), e) ==> escape_at.ensures(
                (c, (top + r) as usize),
                e,
            ),
        renders(part, width, rows, chunk_at),
    ensures
        renders_rows(part, width, top, rows, escape_at),
{
    assert forall|col: int, row: int| 0 <= col < width && 0 <= row < rows implies shaded_by(
        escape_at,
        col,
        top + row,
        #[trigger] pixel_at(part, width, col, row),
    ) by {
        assert(shaded_by(chunk_at, col, row, pixel_at(part, width, col, row)));
        let e = choose|e: Option<u32>|
            chunk_at.ensures((col as usize, row as usize), e) && pixel_at(part, width, col, row)
                == crate::render::shade(e);
        assert(escape_at.ensures((col as usize, (top + row) as usize), e));
    }
}

/// Rendering through the row-chunk partition equals rendering in one pass:
/// where each chunk's band of `chunked` holds its rows of the image that
/// `escape_at` describes, `chunked` is byte-identical to `whole`.
pub proof fn lemma_chunked_equals_whole<F: Fn(usize, usize) -> Option<u32>>(
    escape_at: F,
    width: int,
    height: int,
    per: int,
    chunks: Seq<RowChunk>,
    whole: Seq<u8>,
    chunked: Seq<u8>,
)
    requires
        0 < width,
        0 < height,
        0 < per,
        deterministic(escape_at),
        plan_is(chunks, height, per),
        renders(whole, width, height, escape_at),
        chunked.len() == width * height,
        forall|j: int|
            0 <= j < chunks.len() ==> renders_rows(
                #[trigger] band(chunked, width, chunks[j]),
                width,
                chunks[j].top as int,
                chunks[j].rows as int,
                escape_at,
            ),
    ensures
        chunked == whole,
{
    lemma_bands_render_whole(escape_at, width, height, per, chunks, chunked);
    lemma_render_repeatable(escape_at, width, height, chunked, whole);
}

/// A chunked render is repeatable: two buffers whose chunk bands all hold
/// their rows of the same image are byte-identical, whatever order the
/// chunks were filled in and whatever the buffers held before.
pub proof fn lemma_chunked_repeatable<F: Fn(usize, usize) -> Option<u32>>(
    escape_at: F,
    width: int,
    height: int,
    per: int,
    chunks: Seq<RowChunk>,
    a: Seq<u8>,
    b: Seq<u8>,
)
    requires
        0 < width,
        0 < height,
        0 < per,
        deterministic(escape_at),
        plan_is(chunks, height, per),
        a.len() == width * height,
        b.len() == width * height,
        forall|j: int|
            0 <= j < chunks.len() ==> renders_rows(
                #[trigger] band(a, width, chunks[j]),
                width,
                chunks[j].top as int,
                chunks[j].rows as int,
                escape_at,
            ),
        forall|j: int|
            0 <= j < chunks.len() ==> renders_rows(
                #[trigger] band(b, width, chunks[j]),
                width,
                chunks[j].top as int,
                chunks[j].rows as int,
                escape_at,
            ),
    ensures
        a == b,
{
    lemma_bands_render_whole(escape_at, width, height, per, chunks, a);
    lemma_bands_render_whole(escape_at, width, height, per, chunks, b);
    lemma_render_repeatable(escape_at, width, height, a, b);
}

} // verus!
