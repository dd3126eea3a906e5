//! Video frame reordering: a rendered RGBA frame is read back bottom row
//! first and has to be handed to the encoder top row first.
use vstd::prelude::*;
use vstd::arithmetic::div_mod::lemma_fundamental_div_mod_converse;

verus! {

/// Why a read-back frame could not be reordered.
#[derive(Clone, Copy, Debug, PartialEq, Eq, Structural)]
pub enum FrameError {
    /// The pixel buffer does not hold `width * height` RGBA pixels.
    SizeMismatch { width: u16, height: u16, expected: u64, actual: usize },
}

/// `b` read as `height` rows of `row_len` bytes, with the order of the rows
/// reversed.
pub open spec fn flip_rows(b: Seq<u8>, row_len: int, height: int) -> Seq<u8> {
    Seq::new(
        (row_len * height) as nat,
        |i: int| b[(height - 1 - i / row_len) * row_len + i % row_len],
    )
}

/// Byte `x` of row `y` sits at `y * row_len + x`, and that position splits
/// back into `y` and `x`.
proof fn lemma_cell(row_len: int, height: int, y: int, x: int)
    requires
        0 <= y < height,
        0 <= x < row_len,
    ensures
        0 <= y * row_len + x < row_len * height,
        (y * row_len + x) / row_len == y,
        (y * row_len + x) % row_len == x,
        0 <= (height - 1 - y) * row_len + x < row_len * height,
{
    lemma_fundamental_div_mod_converse(y * row_len + x, row_len, y, x);
    assert(0 <= y * row_len + x < row_len * height) by (nonlinear_arith)
        requires
            0 <= y < height,
            0 <= x < row_len,
    ;
    assert(0 <= (height - 1 - y) * row_len + x < row_len * height) by (nonlinear_arith)
        requires
            0 <= y < height,
            0 <= x < row_len,
    ;
}

/// Every position below `row_len * height` is some row's byte.
proof fn lemma_split(row_len: int, height: int, i: int)
    requires
        0 < row_len,
        0 <= i < row_len * height,
    ensures
        0 <= i / row_len < height,
        0 <= i % row_len < row_len,
        i == (i / row_len) * row_len + i % row_len,
{
    assert(0 <= i / row_len < height && 0 <= i % row_len < row_len && i == (i / row_len) * row_len
        + i % row_len) by (nonlinear_arith)
        requires
            0 < row_len,
            0 <= i < row_len * height,
    ;
}

/// Turns a bottom-up RGBA frame of `width` x `height` pixels into a top-down
/// one; a buffer of the wrong size is refused.
pub fn rgba_top_down(width: u16, height: u16, bytes: &[u8]) -> (res: Result<Vec<u8>, FrameError>)
    ensures
        ({
            let expected = width as int * 4 * height as int;
            if bytes@.len() == expected {
                &&& res is Ok
                &&& res->Ok_0@ == flip_rows(bytes@, width as int * 4, height as int)
                &&& res->Ok_0@.len() == bytes@.len()
                &&& forall|y: int, x: int|
                    0 <= y < height && 0 <= x < width as int * 4 ==> #[trigger] res->Ok_0@[y
                        * (width as int * 4) + x] == bytes@[(height - 1 - y) * (width as int * 4)
                        + x]
            } else {
                res == Err::<Vec<u8>, FrameError>(
                    FrameError::SizeMismatch {
                        width,
                        height,
                        expected: expected as u64,
                        actual: bytes@.len() as usize,
                    },
                )
            }
        }),
{
    let row_len64: u64 = width as u64 * 4;
    assert(row_len64 * (height as u64) <= 262140 * 65535) by (nonlinear_arith)
        requires
            row_len64 <= 262140,
            height <= 65535,
    ;
    let expected: u64 = row_len64 * height as u64;
    if bytes.len() as u64 != expected {
        return Err(
            FrameError::SizeMismatch { width, height, expected, actual: bytes.len() },
        );
    }
    let row_len = row_len64 as usize;
    let h = height as usize;
    let blen = bytes.len();
    let ghost rl = row_len as int;
    let ghost target = flip_rows(bytes@, rl, h as int);
    let mut out: Vec<u8> = Vec::new();
    let mut y: usize = 0;
    while y < h
        invariant
            y <= h,
            rl == row_len,
            blen == bytes@.len(),
            bytes@.len() == rl * h,
            target == flip_rows(bytes@, rl, h as int),
            out@.len() == y * rl,
            forall|i: int| 0 <= i < out@.len() ==> out@[i] == #[trigger] target[i],
        decreases h - y,
    {
        let src_row = h - 1 - y;
        let mut x: usize = 0;
        proof {
            assert(src_row * rl <= rl * h) by (nonlinear_arith)
                requires
                    src_row < h,
                    0 <= rl,
            ;
        }
        let src_start = src_row * row_len;
        while x < row_len
            invariant
                y < h,
                x <= row_len,
                rl == row_len,
                blen == bytes@.len(),
                src_row == h - 1 - y,
                src_start == src_row * rl,
                bytes@.len() == rl * h,
                target == flip_rows(bytes@, rl, h as int),
                out@.len() == y * rl + x,
                forall|i: int| 0 <= i < out@.len() ==> out@[i] == #[trigger] target[i],
            decreases row_len - x,
        {
            proof {
                lemma_cell(rl, h as int, y as int, x as int);
            }
            out.push(bytes[src_start + x]);
            proof {
                let i = y * rl + x;
                assert(target[i] == bytes@[src_start + x]);
            }
            x = x + 1;
        }
        proof {
            assert((y + 1) * rl == y * rl + rl) by (nonlinear_arith);
        }
        y = y + 1;
    }
    proof {
        assert(y * rl == rl * h) by (nonlinear_arith)
            requires
                y == h,
        ;
        assert(out@.len() == target.len());
        assert(out@ =~= target);
        lemma_flip_rows_moves_rows(bytes@, rl, h as int);
    }
    Ok(out)
}

/// Reordering the rows twice gives back the original frame.
pub proof fn lemma_flip_rows_twice(b: Seq<u8>, row_len: int, height: int)
    requires
        0 <= row_len,
        0 <= height,
        b.len() == row_len * height,
    ensures
        flip_rows(flip_rows(b, row_len, height), row_len, height) == b,
{
    let f = flip_rows(b, row_len, height);
    let g = flip_rows(f, row_len, height);
    assert forall|i: int| 0 <= i < b.len() implies g[i] == b[i] by {
        if row_len == 0 {
            assert(row_len * height == 0);
        }
        lemma_split(row_len, height, i);
        let y = i / row_len;
        let x = i % row_len;
        lemma_cell(row_len, height, height - 1 - y, x);
        lemma_cell(row_len, height, y, x);
        assert(height - 1 - (height - 1 - y) == y);
    }
    assert(g =~= b);
}

/// Row `y` of the reordered frame is row `height - 1 - y` of the original,
/// byte for byte, whatever the number of rows.
pub proof fn lemma_flip_rows_moves_rows(b: Seq<u8>, row_len: int, height: int)
    requires
        0 <= row_len,
        0 <= height,
        b.len() == row_len * height,
    ensures
        flip_rows(b, row_len, height).len() == b.len(),
        forall|y: int, x: int|
            0 <= y < height && 0 <= x < row_len ==> #[trigger] flip_rows(b, row_len, height)[y
                * row_len + x] == b[(height - 1 - y) * row_len + x],
{
    assert forall|y: int, x: int| 0 <= y < height && 0 <= x < row_len implies #[trigger] flip_rows(
        b,
        row_len,
        height,
    )[y * row_len + x] == b[(height - 1 - y) * row_len + x] by {
        lemma_cell(row_len, height, y, x);
    }
}

} // verus!
