//! Frame-buffer addressing and the band schedule of the parallel renderer.
//!
//! A render writes one color per pixel into a flat row-major buffer. The
//! sequential driver walks the rows in order; the parallel driver cuts the
//! buffer into consecutive bands of a fixed size, hands each band to a
//! worker, and reassembles the results in band order. Each pixel's color is a
//! pure function of the ray and the immutable scene, so the two drivers can
//! only differ in where they put the results — and they do not: the addressing
//! is injective and a banded buffer reassembles to exactly the flat one.
//! Those two facts, the scheduling half of the drivers' pixel-identical
//! agreement, are proved here.

use vstd::prelude::*;
use vstd::seq_lib::lemma_flatten_concat;

verus! {

/// The row-major slot of pixel `(x, y)`.
pub fn pixel_index(x: usize, y: usize, width: usize, height: usize) -> (i: usize)
    requires
        x < width,
        y < height,
        width * height <= usize::MAX,
    ensures
        i == y * width + x,
        i < width * height,
{
    proof {
        assert(y * width + x < width * height) by (nonlinear_arith)
            requires
                x < width,
                y < height,
        ;
    }
    y * width + x
}

/// Row-major addressing is injective: distinct pixels get distinct slots, so
/// no write of one driver can land in another pixel's slot.
pub proof fn lemma_pixel_index_injective(
    x1: int,
    y1: int,
    x2: int,
    y2: int,
    width: int,
    height: int,
)
    requires
        0 <= x1 < width,
        0 <= y1 < height,
        0 <= x2 < width,
        0 <= y2 < height,
        y1 * width + x1 == y2 * width + x2,
    ensures
        x1 == x2 && y1 == y2,
{
    assert(y1 == y2 && x1 == x2) by (nonlinear_arith)
        requires
            0 <= x1 < width,
            0 <= x2 < width,
            y1 * width + x1 == y2 * width + x2,
    ;
}

/// The buffer cut into consecutive bands of `chunk` slots; the last band
/// keeps the remainder.
pub open spec fn bands_of<T>(s: Seq<T>, chunk: int) -> Seq<Seq<T>>
    decreases s.len(),
    when chunk >= 1
{
    if s.len() == 0 {
        Seq::empty()
    } else if s.len() <= chunk {
        seq![s]
    } else {
        seq![s.subrange(0, chunk)] + bands_of(s.subrange(chunk, s.len() as int), chunk)
    }
}

/// Cutting a buffer into bands and concatenating them in band order restores
/// the buffer exactly. A parallel driver that fills each band with the colors
/// the sequential driver puts in the band's slots therefore produces the
/// identical buffer.
pub proof fn lemma_bands_reassemble<T>(s: Seq<T>, chunk: int)
    requires
        chunk >= 1,
    ensures
        bands_of(s, chunk).flatten() == s,
    decreases s.len(),
{
    if s.len() == 0 {
        assert(bands_of(s, chunk).flatten() =~= s);
    } else if s.len() <= chunk {
        let b = bands_of(s, chunk);
        assert(b == seq![s]);
        b.lemma_flatten_one_element();
        assert(b.flatten() == s);
    } else {
        let head = s.subrange(0, chunk);
        let tail = s.subrange(chunk, s.len() as int);
        lemma_bands_reassemble(tail, chunk);
        lemma_flatten_concat(seq![head], bands_of(tail, chunk));
        seq![head].lemma_flatten_one_element();
        assert(seq![head].flatten() == head);
        assert(bands_of(s, chunk).flatten() =~= head + bands_of(tail, chunk).flatten());
        assert(head + tail =~= s);
    }
}

/// Cutting a buffer into bands of `chunk` slots yields the rounded-up
/// quotient of bands — the count the parallel driver spawns workers for.
pub proof fn lemma_bands_of_count<T>(s: Seq<T>, chunk: int)
    requires
        chunk >= 1,
    ensures
        bands_of(s, chunk).len() == (s.len() + chunk - 1) / chunk,
    decreases s.len(),
{
    if s.len() == 0 {
        assert((chunk - 1) / chunk == 0) by {
            vstd::arithmetic::div_mod::lemma_basic_div(chunk - 1, chunk);
        }
    } else if s.len() <= chunk {
        let n = s.len() as int;
        assert((n + chunk - 1) / chunk == 1) by {
            vstd::arithmetic::div_mod::lemma_fundamental_div_mod_converse_div(
                n + chunk - 1,
                chunk,
                1,
                n - 1,
            );
        }
    } else {
        let tail = s.subrange(chunk, s.len() as int);
        lemma_bands_of_count(tail, chunk);
        let n = s.len() as int;
        assert(1 + (n - 1) / chunk == (chunk + (n - 1)) / chunk) by {
            vstd::arithmetic::div_mod::lemma_div_plus_one(n - 1, chunk);
        }
        assert(tail.len() + chunk - 1 == n - 1);
    }
}

/// How many bands a buffer of `total` slots yields: the rounded-up quotient.
pub fn band_count(total: usize, chunk: usize) -> (r: usize)
    requires
        chunk >= 1,
    ensures
        r == (total + chunk - 1) / chunk as int,
{
    let q = total / chunk;
    let rem = total % chunk;
    proof {
        lemma_round_up_quotient(total as int, chunk as int);
    }
    if rem == 0 {
        q
    } else {
        q + 1
    }
}

/// Rounding up a division by adding `chunk - 1` equals adding one to the
/// quotient exactly when the division is inexact.
proof fn lemma_round_up_quotient(total: int, chunk: int)
    requires
        chunk >= 1,
        total >= 0,
    ensures
        (total + chunk - 1) / chunk == total / chunk + (if total % chunk == 0 {
            0int
        } else {
            1int
        }),
        total % chunk != 0 ==> total / chunk < total,
{
    let q = total / chunk;
    let r = total % chunk;
    vstd::arithmetic::div_mod::lemma_fundamental_div_mod(total, chunk);
    assert(total == chunk * q + r);
    assert(0 <= r < chunk) by {
        vstd::arithmetic::div_mod::lemma_mod_bound(total, chunk);
    }
    assert(q >= 0) by {
        vstd::arithmetic::div_mod::lemma_div_pos_is_pos(total, chunk);
    }
    if r == 0 {
        assert(total + chunk - 1 == q * chunk + (chunk - 1)) by (nonlinear_arith)
            requires
                total == chunk * q,
        ;
        vstd::arithmetic::div_mod::lemma_fundamental_div_mod_converse_div(
            total + chunk - 1,
            chunk,
            q,
            chunk - 1,
        );
    } else {
        assert(total + chunk - 1 == (q + 1) * chunk + (r - 1)) by (nonlinear_arith)
            requires
                total == chunk * q + r,
        ;
        vstd::arithmetic::div_mod::lemma_fundamental_div_mod_converse_div(
            total + chunk - 1,
            chunk,
            q + 1,
            r - 1,
        );
        assert(q < total) by (nonlinear_arith)
            requires
                total == chunk * q + r,
                chunk >= 1,
                q >= 0,
                r >= 1,
        ;
    }
}

/// Concatenates per-band results in band order into one flat buffer.
pub fn flatten_bands<T: Copy>(bands: &Vec<Vec<T>>) -> (r: Vec<T>)
    ensures
        r@ == views_of(bands@).flatten(),
{
    let mut r: Vec<T> = Vec::new();
    let mut i: usize = 0;
    while i < bands.len()
        invariant
            i <= bands@.len(),
            r@ == views_of(bands@.subrange(0, i as int)).flatten(),
        decreases bands@.len() - i,
    {
        let ghost before = views_of(bands@.subrange(0, i as int));
        let band = &bands[i];
        proof {
            assert(before.flatten() + band@.subrange(0, 0) =~= before.flatten());
        }
        let mut j: usize = 0;
        while j < band.len()
            invariant
                j <= band@.len(),
                r@ == before.flatten() + band@.subrange(0, j as int),
            decreases band@.len() - j,
        {
            r.push(band[j]);
            proof {
                assert((before.flatten() + band@.subrange(0, j as int)).push(band@[j as int])
                    =~= before.flatten() + band@.subrange(0, j as int + 1));
            }
            j = j + 1;
        }
        proof {
            assert(band@.subrange(0, band@.len() as int) =~= band@);
            assert(views_of(bands@.subrange(0, i as int + 1)) =~= before.push(band@));
            before.lemma_flatten_push(band@);
        }
        i = i + 1;
    }
    proof {
        assert(bands@.subrange(0, bands@.len() as int) =~= bands@);
    }
    r
}

/// The element sequences of a list of buffers.
pub open spec fn views_of<T>(bands: Seq<Vec<T>>) -> Seq<Seq<T>> {
    bands.map_values(|b: Vec<T>| b@)
}

} // verus!
