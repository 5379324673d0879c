//! Splitting an oversized bitmap into display-safe chunks: a bitmap taller
//! than the maximum chunk height is cut into horizontal slabs of exactly that
//! height (except possibly the last), stacked top to bottom with no overlap
//! and no gap, byte for byte.

use vstd::prelude::*;
use vstd::arithmetic::mul::{
    lemma_mul_inequality, lemma_mul_is_commutative, lemma_mul_is_distributive_add_other_way,
};
use vstd::slice::slice_subrange;

verus! {

/// A decoded bitmap in tightly packed RGB layout: three bytes per pixel,
/// rows top to bottom.
pub struct Bitmap {
    pub width: u32,
    pub height: u32,
    pub pixels: Vec<u8>,
}

impl Bitmap {
    /// The pixel buffer holds exactly width * height RGB pixels.
    pub open spec fn wf(self) -> bool {
        self.pixels@.len() == self.width as int * self.height as int * 3
    }
}

/// The chunk heights that a bitmap of height `h` splits into under maximum
/// chunk height `m`: a single chunk when `h <= m`, else a full chunk of `m`
/// rows followed by the split of the rest.
pub open spec fn chunk_sizes(h: int, m: int) -> Seq<int>
    recommends
        m > 0,
        h >= 0,
    decreases h,
{
    if m <= 0 || h <= m {
        seq![h]
    } else {
        seq![m] + chunk_sizes(h - m, m)
    }
}

/// Shape of the chunk heights: all chunks are full except the last, the row
/// ranges tile `[0, h)`, and the chunk count is the least that fits.
pub proof fn lemma_chunk_sizes(h: int, m: int)
    requires
        m > 0,
        h >= 0,
    ensures
        chunk_sizes(h, m).len() >= 1,
        forall|i: int|
            0 <= i < chunk_sizes(h, m).len() - 1 ==> #[trigger] chunk_sizes(h, m)[i] == m,
        chunk_sizes(h, m).last() == h - m * (chunk_sizes(h, m).len() - 1),
        h >= 1 ==> m * (chunk_sizes(h, m).len() - 1) < h <= m * chunk_sizes(h, m).len(),
        h == 0 ==> chunk_sizes(h, m) == seq![0int],
    decreases h,
{
    let s = chunk_sizes(h, m);
    if h <= m {
        assert(s =~= seq![h]);
        assert(s.last() == h - m * 0);
        assert(m * (s.len() - 1) == 0 && m * s.len() == m) by (nonlinear_arith)
            requires
                s.len() == 1,
        ;
    } else {
        lemma_chunk_sizes(h - m, m);
        let rest = chunk_sizes(h - m, m);
        assert(s == seq![m] + rest);
        assert(s.len() == rest.len() + 1);
        assert(forall|i: int| 1 <= i < s.len() ==> s[i] == rest[i - 1]);
        assert(m * (rest.len() - 1) + m == m * rest.len()) by (nonlinear_arith);
        assert(m * rest.len() + m == m * (rest.len() + 1)) by (nonlinear_arith);
        assert(s.last() == rest.last());
        assert(rest.last() == (h - m) - m * (rest.len() - 1));
        assert(s.last() == h - m * (s.len() - 1));
        assert(m * (s.len() - 1) < h <= m * s.len());
    }
}

/// Compute the chunk heights for a bitmap of height `h` under maximum chunk
/// height `m`.
pub fn chunk_heights(h: u32, m: u32) -> (r: Vec<u32>)
    requires
        m > 0,
    ensures
        r@.map_values(|x: u32| x as int) == chunk_sizes(h as int, m as int),
{
    let mut r: Vec<u32> = Vec::new();
    let mut remaining = h;
    while remaining > m
        invariant
            m > 0,
            remaining <= h,
            chunk_sizes(h as int, m as int) =~= r@.map_values(|x: u32| x as int) + chunk_sizes(
                remaining as int,
                m as int,
            ),
        decreases remaining,
    {
        r.push(m);
        proof {
            assert(r@.map_values(|x: u32| x as int) =~= r@.drop_last().map_values(|x: u32| x as int)
                + seq![m as int]);
        }
        remaining = remaining - m;
    }
    r.push(remaining);
    proof {
        assert(r@.map_values(|x: u32| x as int) =~= r@.drop_last().map_values(|x: u32| x as int)
            + seq![remaining as int]);
        assert(chunk_sizes(remaining as int, m as int) =~= seq![remaining as int]);
        assert(r@.map_values(|x: u32| x as int) =~= chunk_sizes(h as int, m as int));
    }
    r
}

/// Chunk `i` of a split: full width, the height that `chunk_sizes` gives it,
/// and exactly the bytes of its row range `[i*m, i*m + height)`.
pub open spec fn chunk_at(w: int, h: int, px: Seq<u8>, m: int, chunks: Seq<Bitmap>, i: int) -> bool
    recommends
        0 <= i < chunks.len(),
{
    let sizes = chunk_sizes(h, m);
    &&& chunks[i].width as int == w
    &&& chunks[i].height as int == sizes[i]
    &&& chunks[i].wf()
    &&& chunks[i].pixels@ == px.subrange(i * m * w * 3, (i * m + sizes[i]) * w * 3)
}

/// `chunks` is the complete split of a `w` by `h` bitmap with pixel bytes
/// `px` under maximum chunk height `m`.
pub open spec fn splits_into(w: int, h: int, px: Seq<u8>, m: int, chunks: Seq<Bitmap>) -> bool {
    &&& chunks.len() == chunk_sizes(h, m).len()
    &&& forall|i: int| 0 <= i < chunks.len() ==> #[trigger] chunk_at(w, h, px, m, chunks, i)
}

/// Split a bitmap into display-safe chunks of at most `m` rows each.
pub fn split_bitmap(bmp: &Bitmap, m: u32) -> (r: Vec<Bitmap>)
    requires
        m > 0,
        bmp.wf(),
    ensures
        splits_into(bmp.width as int, bmp.height as int, bmp.pixels@, m as int, r@),
{
    let w = bmp.width;
    let h = bmp.height;
    let pixel_count = bmp.pixels.len();
    proof {
        lemma_chunk_sizes(h as int, m as int);
    }
    if h <= m {
        let mut px: Vec<u8> = Vec::new();
        px.extend_from_slice(bmp.pixels.as_slice());
        let mut out: Vec<Bitmap> = Vec::new();
        out.push(Bitmap { width: w, height: h, pixels: px });
        proof {
            let sizes = chunk_sizes(h as int, m as int);
            assert(sizes =~= seq![h as int]);
            assert(sizes[0] == h as int);
            assert(out@[0].pixels@ == bmp.pixels@);
            assert(out@[0].wf());
            assert((0 * m as int + sizes[0]) * w as int * 3 == w as int * h as int * 3)
                by (nonlinear_arith)
                requires
                    sizes[0] == h as int,
            ;
            assert(0 * m as int * w as int * 3 == 0) by (nonlinear_arith);
            assert(bmp.pixels@.subrange(0 * m as int * w as int * 3, (0 * m as int + sizes[0])
                * w as int * 3) =~= bmp.pixels@);
            assert(chunk_at(w as int, h as int, bmp.pixels@, m as int, out@, 0));
        }
        return out;
    }
    // h > m: cut full slabs of m rows until at most m rows remain
    proof {
        assert(w as int * 3 <= w as int * 3 * h as int) by (nonlinear_arith)
            requires
                h as int >= 1,
        ;
        assert(w as int * 3 * h as int == w as int * h as int * 3) by (nonlinear_arith);
        assert(pixel_count == bmp.pixels@.len());
        assert(w as int * 3 <= usize::MAX);
    }
    let row_bytes: usize = (w as usize) * 3;
    let ghost sizes = chunk_sizes(h as int, m as int);
    let mut out: Vec<Bitmap> = Vec::new();
    let mut start_row: u32 = 0;
    loop
        invariant_except_break
            m > 0,
            h > m,
            bmp.wf(),
            w == bmp.width,
            h == bmp.height,
            row_bytes == w as int * 3,
            bmp.pixels@.len() <= usize::MAX,
            sizes == chunk_sizes(h as int, m as int),
            start_row < h,
            start_row as int == out@.len() * m as int,
            out@.len() < sizes.len(),
            sizes.skip(out@.len() as int) =~= chunk_sizes(h as int - start_row as int, m as int),
            forall|k: int|
                0 <= k < out@.len() ==> #[trigger] chunk_at(
                    w as int,
                    h as int,
                    bmp.pixels@,
                    m as int,
                    out@,
                    k,
                ),
        ensures
            splits_into(w as int, h as int, bmp.pixels@, m as int, out@),
        decreases h - start_row,
    {
        let remaining = h - start_row;
        let rows = if remaining > m {
            m
        } else {
            remaining
        };
        let ghost n = out@.len() as int;
        proof {
            lemma_chunk_sizes(h as int - start_row as int, m as int);
            assert(sizes[n] == rows as int) by {
                assert(sizes.skip(n)[0] == sizes[n]);
            }
            // byte offsets of this chunk's row range
            lemma_mul_inequality(start_row as int + rows as int, h as int, w as int * 3);
            lemma_mul_inequality(start_row as int, start_row as int + rows as int, w as int * 3);
            lemma_mul_inequality(rows as int, start_row as int + rows as int, w as int * 3);
            assert(h as int * (w as int * 3) == w as int * h as int * 3) by (nonlinear_arith);
            lemma_mul_is_distributive_add_other_way(
                w as int * 3,
                start_row as int,
                rows as int,
            );
            lemma_mul_is_commutative(start_row as int, w as int * 3);
            lemma_mul_is_commutative(rows as int, w as int * 3);
            lemma_mul_is_commutative(start_row as int + rows as int, w as int * 3);
        }
        let a: usize = (start_row as usize) * row_bytes;
        let b: usize = a + (rows as usize) * row_bytes;
        let sub = slice_subrange(bmp.pixels.as_slice(), a, b);
        let mut px: Vec<u8> = Vec::new();
        px.extend_from_slice(sub);
        let ghost prev = out@;
        out.push(Bitmap { width: w, height: rows, pixels: px });
        proof {
            // the new chunk is byte-exact for its row range
            assert(n * m as int * (w as int * 3) == n * m as int * w as int * 3)
                by (nonlinear_arith);
            assert((n * m as int + rows as int) * (w as int * 3) == (n * m as int + rows as int)
                * w as int * 3) by (nonlinear_arith);
            assert(rows as int * (w as int * 3) == rows as int * w as int * 3)
                by (nonlinear_arith);
            assert(a as int == n * m as int * w as int * 3);
            assert(b as int == (n * m as int + sizes[n]) * w as int * 3);
            assert(out@[n].pixels@ == bmp.pixels@.subrange(a as int, b as int));
            assert(out@[n].pixels@.len() == rows as int * w as int * 3);
            assert(out@[n].wf()) by {
                assert(w as int * rows as int * 3 == rows as int * w as int * 3)
                    by (nonlinear_arith);
            }
            assert(chunk_at(w as int, h as int, bmp.pixels@, m as int, out@, n));
            assert forall|k: int| 0 <= k < n implies #[trigger] chunk_at(
                w as int,
                h as int,
                bmp.pixels@,
                m as int,
                out@,
                k,
            ) by {
                assert(chunk_at(w as int, h as int, bmp.pixels@, m as int, prev, k));
                assert(out@[k] == prev[k]);
            }
        }
        if remaining <= m {
            proof {
                assert(sizes.skip(n) =~= seq![rows as int]);
                assert(out@.len() == sizes.len());
            }
            break ;
        }
        proof {
            assert((n + 1) * m as int == n * m as int + m as int) by (nonlinear_arith);
            assert(sizes.skip(n + 1) =~= chunk_sizes(
                h as int - (start_row as int + m as int),
                m as int,
            )) by {
                assert(chunk_sizes(h as int - start_row as int, m as int) == seq![m as int]
                    + chunk_sizes(h as int - start_row as int - m as int, m as int));
                assert(sizes.skip(n) =~= chunk_sizes(h as int - start_row as int, m as int));
                assert(forall|t: int|
                    0 <= t < sizes.skip(n + 1).len() ==> #[trigger] sizes.skip(n + 1)[t]
                        == sizes.skip(n)[t + 1]);
            }
        }
        start_row = start_row + m;
    }
    out
}

} // verus!
