//! Splitting the rows of an image into bands, one per worker, and putting
//! the rows that a worker produced back into the image.

use vstd::prelude::*;

verus! {

/// How many rows each band holds (the last one may hold fewer): the row
/// count divided by the worker count, rounded up.
pub open spec fn rows_per_band(height: nat, workers: nat) -> nat {
    ((height + workers - 1) / workers as int) as nat
}

/// `bands` is what [`row_bands`] returns for `height` rows and `workers`
/// workers: band `k` runs from row `k * per` up to row `(k + 1) * per`,
/// cut at `height`, and bands are made for `k = 0, 1, ...` while `k` is
/// below `workers` and the band's first row is inside the image.
pub open spec fn is_row_bands(height: nat, workers: nat, bands: Seq<(usize, usize)>) -> bool {
    let per = rows_per_band(height, workers);
    &&& bands.len() <= workers
    &&& bands.len() == workers || bands.len() * per >= height
    &&& forall|k: int| 0 <= k < bands.len() ==> band_is(#[trigger] bands[k], k, per as int, height as int)
}

/// `b` is band number `k` for bands of `per` rows in an image of `height`
/// rows: it starts inside the image at row `k * per` and ends `per` rows
/// later or at the bottom of the image, whichever comes first.
pub open spec fn band_is(b: (usize, usize), k: int, per: int, height: int) -> bool {
    &&& k * per < height
    &&& b.0 == k * per
    &&& b.1 == if (k + 1) * per < height {
        (k + 1) * per
    } else {
        height
    }
}

proof fn lemma_per_bounds(height: nat, workers: nat)
    requires
        workers >= 1,
    ensures
        workers * rows_per_band(height, workers) <= height + workers - 1,
        workers * rows_per_band(height, workers) >= height,
        height > 0 ==> rows_per_band(height, workers) >= 1,
{
    let per = rows_per_band(height, workers) as int;
    let w = workers as int;
    let t = height + workers - 1;
    assert(per == t / w);
    assert(t == w * (t / w) + t % w && 0 <= t % w < w) by (nonlinear_arith)
        requires
            w >= 1,
    ;
    if height > 0 {
        assert(t / w >= 1) by (nonlinear_arith)
            requires
                w >= 1,
                t >= w,
        ;
    }
}

proof fn lemma_mul_le(a: int, b: int, c: int)
    requires
        0 <= a <= b,
        0 <= c,
    ensures
        a * c <= b * c,
{
    assert(a * c <= b * c) by (nonlinear_arith)
        requires
            0 <= a <= b,
            0 <= c,
    ;
}

/// Splits `height` rows into bands of consecutive rows for `workers`
/// workers, as `(first row, end row)` pairs with the end excluded.
pub fn row_bands(height: usize, workers: usize) -> (r: Vec<(usize, usize)>)
    requires
        workers >= 1,
        height + workers - 1 <= usize::MAX,
    ensures
        is_row_bands(height as nat, workers as nat, r@),
{
    let per: usize = (height + (workers - 1)) / workers;
    proof {
        lemma_per_bounds(height as nat, workers as nat);
    }
    assert(per == rows_per_band(height as nat, workers as nat));
    let mut out: Vec<(usize, usize)> = Vec::new();
    let mut t: usize = 0;
    while t < workers
        invariant_except_break
            t <= workers,
        invariant
            per == rows_per_band(height as nat, workers as nat),
            workers * per <= height + workers - 1,
            height + workers - 1 <= usize::MAX,
            workers >= 1,
            out@.len() == t,
            forall|k: int|
                0 <= k < out@.len() ==> band_is(#[trigger] out@[k], k, per as int, height as int),
        ensures
            out@.len() <= workers,
            out@.len() == workers || out@.len() * per >= height,
        decreases workers - t,
    {
        proof {
            lemma_mul_le(t + 1, workers as int, per as int);
        }
        assert((t + 1) * per == t * per + per) by (nonlinear_arith);
        let start = t * per;
        let end = if start + per < height {
            start + per
        } else {
            height
        };
        if start >= height {
            break;
        }
        let ghost before = out@;
        out.push((start, end));
        assert(band_is(out@[t as int], t as int, per as int, height as int));
        assert forall|k: int| 0 <= k < out@.len() implies band_is(
            #[trigger] out@[k],
            k,
            per as int,
            height as int,
        ) by {
            if k < t {
                assert(out@[k] == before[k]);
            }
        }
        t = t + 1;
    }
    out
}

/// The bands of [`row_bands`] cover the rows of the image exactly once:
/// there are none for an empty image; otherwise the first starts at row 0,
/// each ends where the next starts, none is empty, and the last ends at the
/// last row.
pub proof fn lemma_bands_partition_rows(height: usize, workers: usize, bands: Seq<(usize, usize)>)
    requires
        workers >= 1,
        is_row_bands(height as nat, workers as nat, bands),
    ensures
        height == 0 ==> bands.len() == 0,
        height > 0 ==> bands.len() >= 1 && bands[0].0 == 0 && bands.last().1 == height,
        forall|k: int| 0 <= k < bands.len() ==> #[trigger] bands[k].0 < bands[k].1,
        forall|k: int| 0 <= k < bands.len() - 1 ==> #[trigger] bands[k].1 == bands[k + 1].0,
{
    let per = rows_per_band(height as nat, workers as nat);
    lemma_per_bounds(height as nat, workers as nat);
    if height > 0 {
        if bands.len() == 0 {
            assert(bands.len() * per == 0);
        }
        assert(bands[0].0 == 0 * per);
        let n = bands.len() as int;
        let last = bands[n - 1];
        assert(n * per == (n - 1) * per + per) by (nonlinear_arith);
        if n == workers {
            assert(workers * per >= height);
        }
        assert(last.1 == height);
    } else {
        if bands.len() > 0 {
            assert(bands[0].0 == 0 * per);
        }
    }
    assert forall|k: int| 0 <= k < bands.len() implies #[trigger] bands[k].0 < bands[k].1 by {
        assert((k + 1) * per == k * per + per) by (nonlinear_arith);
    }
    assert forall|k: int| 0 <= k < bands.len() - 1 implies #[trigger] bands[k].1 == bands[k
        + 1].0 by {
        assert(bands[k + 1].0 == (k + 1) * per);
    }
}

/// Writes `rows`, the pixels of consecutive image rows starting at row
/// `first_row` of an image `width` pixels wide, into `pixels`.
pub fn place_rows<T: Copy>(pixels: &mut Vec<T>, first_row: usize, width: usize, rows: &Vec<T>)
    requires
        first_row * width + rows@.len() <= old(pixels)@.len(),
    ensures
        final(pixels)@.len() == old(pixels)@.len(),
        forall|i: int|
            0 <= i < final(pixels)@.len() ==> #[trigger] final(pixels)@[i] == if first_row
                * width <= i < first_row * width + rows@.len() {
                rows@[i - first_row * width]
            } else {
                old(pixels)@[i]
            },
{
    let total = pixels.len();
    assert(first_row * width <= total);
    let start = first_row * width;
    let mut k: usize = 0;
    while k < rows.len()
        invariant
            start == first_row * width,
            start + rows@.len() <= pixels@.len(),
            pixels@.len() <= usize::MAX,
            pixels@.len() == old(pixels)@.len(),
            k <= rows@.len(),
            forall|i: int|
                0 <= i < pixels@.len() ==> #[trigger] pixels@[i] == if start <= i < start + k {
                    rows@[i - start]
                } else {
                    old(pixels)@[i]
                },
        decreases rows.len() - k,
    {
        pixels.set(start + k, rows[k]);
        k = k + 1;
    }
}

} // verus!
