//! Pixels of an RGBA image laid out row by row, four bytes each.
use vstd::prelude::*;

verus! {

/// Where channel `c` of pixel (`x`, `y`) sits in an RGBA buffer of an
/// image `w` pixels wide.
pub open spec fn byte_index(w: int, x: int, y: int, c: int) -> int {
    (y * w + x) * 4 + c
}

/// Channel `c` of pixel (`x`, `y`).
pub open spec fn channel(img: Seq<u8>, w: int, x: int, y: int, c: int) -> int {
    img[byte_index(w, x, y, c)] as int
}

/// Where a byte index of a pixel comes from, and back.
pub proof fn lemma_byte_index(w: int, x: int, y: int, c: int)
    requires
        0 <= x < w,
        0 <= y,
        0 <= c < 4,
    ensures
        0 <= y * w + x,
        byte_index(w, x, y, c) / 4 == y * w + x,
        byte_index(w, x, y, c) % 4 == c,
        (y * w + x) / w == y,
        (y * w + x) % w == x,
{
    assert(0 <= y * w) by (nonlinear_arith)
        requires
            0 <= y,
            0 <= w,
    ;
    vstd::arithmetic::div_mod::lemma_fundamental_div_mod_converse(
        byte_index(w, x, y, c),
        4,
        y * w + x,
        c,
    );
    vstd::arithmetic::div_mod::lemma_fundamental_div_mod_converse(y * w + x, w, y, x);
}

/// The pixels of a `w * h` image have byte indices below `w * h * 4`.
pub proof fn lemma_byte_index_bound(w: int, h: int, x: int, y: int, c: int)
    requires
        0 <= x < w,
        0 <= y < h,
        0 <= c < 4,
    ensures
        0 <= byte_index(w, x, y, c) < w * h * 4,
        y * w + x < w * h,
{
    assert(0 <= y * w && y * w + x < w * h) by (nonlinear_arith)
        requires
            0 <= x < w,
            0 <= y < h,
    ;
}

/// Every byte index below `w * h * 4` is that of some pixel and channel.
pub proof fn lemma_index_decompose(w: int, h: int, i: int)
    requires
        0 <= w,
        0 <= h,
        0 <= i < w * h * 4,
    ensures
        0 <= (i / 4) % w < w,
        0 <= (i / 4) / w < h,
        0 <= i % 4 < 4,
        byte_index(w, (i / 4) % w, (i / 4) / w, i % 4) == i,
{
    let p = i / 4;
    assert(0 < w) by (nonlinear_arith)
        requires
            0 <= i < w * h * 4,
            0 <= w,
            0 <= h,
    ;
    vstd::arithmetic::div_mod::lemma_fundamental_div_mod(i, 4);
    vstd::arithmetic::div_mod::lemma_fundamental_div_mod(p, w);
    assert(0 <= p);
    assert(p < w * h) by (nonlinear_arith)
        requires
            p == i / 4,
            0 <= i < w * h * 4,
    ;
    assert(p / w < h) by (nonlinear_arith)
        requires
            0 <= p < w * h,
            0 < w,
    ;
    assert(0 <= p / w) by (nonlinear_arith)
        requires
            0 <= p,
            0 < w,
    ;
    assert(byte_index(w, p % w, p / w, i % 4) == ((p / w) * w + p % w) * 4 + i % 4);
    assert((p / w) * w == w * (p / w)) by (nonlinear_arith);
}

/// A byte within the four bytes of pixel (`x2`, `y2`) belongs to that pixel.
pub proof fn lemma_pixel_of_index(w: int, x: int, y: int, c: int, x2: int, y2: int)
    requires
        0 <= x < w,
        0 <= y,
        0 <= c < 4,
        0 <= x2 < w,
        0 <= y2,
        byte_index(w, x2, y2, 0) <= byte_index(w, x, y, c) < byte_index(w, x2, y2, 0) + 4,
    ensures
        x == x2,
        y == y2,
{
    lemma_byte_index(w, x, y, c);
    lemma_byte_index(w, x2, y2, 0);
    let k = byte_index(w, x, y, c);
    let base = byte_index(w, x2, y2, 0);
    vstd::arithmetic::div_mod::lemma_fundamental_div_mod_converse(k, 4, y2 * w + x2, k - base);
}

} // verus!
