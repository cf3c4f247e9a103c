use mandelbrot::partition::{plan_chunks, plan_for_cores, rows_per_chunk, RowChunk};
use mandelbrot::render::render;

fn escape(col: usize, row: usize) -> Option<u32> {
    if (col + 3 * row) % 11 == 0 {
        None
    } else {
        Some(((col * 5 + row * 9) % 254) as u32)
    }
}

fn render_chunked(width: usize, height: usize, chunks: &[RowChunk]) -> Vec<u8> {
    render_chunked_over(vec![0u8; width * height], width, chunks)
}

fn render_chunked_over(mut pixels: Vec<u8>, width: usize, chunks: &[RowChunk]) -> Vec<u8> {
    let mut rest: &mut [u8] = &mut pixels;
    for chunk in chunks {
        let (band, tail) = rest.split_at_mut(chunk.rows * width);
        let top = chunk.top;
        render(band, (width, chunk.rows), move |col: usize, row: usize| escape(col, top + row));
        rest = tail;
    }
    pixels
}

#[test]
fn rows_per_chunk_is_share_plus_one() {
    assert_eq!(rows_per_chunk(750, 8), 94);
    assert_eq!(rows_per_chunk(10, 1), 11);
    assert_eq!(rows_per_chunk(0, 4), 1);
}

#[test]
fn plan_covers_every_row() {
    let plan = plan_chunks(750, 8);
    assert_eq!(plan.len(), 8);
    for (i, chunk) in plan.iter().enumerate() {
        assert_eq!(chunk.top, i * 94);
    }
    assert_eq!(plan[7], RowChunk { top: 658, rows: 92 });
    assert_eq!(plan.iter().map(|c| c.rows).sum::<usize>(), 750);
}

#[test]
fn plan_edge_cases() {
    assert_eq!(plan_chunks(10, 1), vec![RowChunk { top: 0, rows: 10 }]);
    assert_eq!(plan_chunks(0, 3), vec![]);
    assert_eq!(
        plan_chunks(4, 2),
        vec![RowChunk { top: 0, rows: 3 }, RowChunk { top: 3, rows: 1 }]
    );
    assert_eq!(plan_chunks(3, 8), vec![RowChunk { top: 0, rows: 1 }, RowChunk { top: 1, rows: 1 }, RowChunk { top: 2, rows: 1 }]);
}

#[test]
fn chunked_render_equals_whole() {
    let (width, height) = (37, 23);
    let mut whole = vec![0u8; width * height];
    render(&mut whole, (width, height), escape);
    for workers in [1usize, 2, 3, 8] {
        let plan = plan_chunks(height, workers);
        assert!(plan.len() <= workers);
        assert_eq!(render_chunked(width, height, &plan), whole);
    }
    let plan = plan_for_cores(height);
    assert!(!plan.is_empty());
    assert_eq!(render_chunked(width, height, &plan), whole);
}

#[test]
fn chunked_render_is_repeatable() {
    let (width, height) = (19, 41);
    let plan = plan_chunks(height, 4);
    let first = render_chunked_over(vec![0u8; width * height], width, &plan);
    let second = render_chunked_over(vec![0xaau8; width * height], width, &plan);
    let mut reversed = vec![0x55u8; width * height];
    for chunk in plan.iter().rev() {
        let start = chunk.top * width;
        let top = chunk.top;
        render(
            &mut reversed[start..start + chunk.rows * width],
            (width, chunk.rows),
            move |col: usize, row: usize| escape(col, top + row),
        );
    }
    assert_eq!(first, second);
    assert_eq!(first, reversed);
}
