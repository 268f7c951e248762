//! The box blur plugin: every pixel becomes the rounded mean of the pixels
//! within `radius` of it, repeated `iterations` times.
use vstd::prelude::*;
use crate::chars::{parse_uint_spec, parse_uint, split_on_char, views};
use crate::strings::{chars_of, chars_eq};
use crate::plugins::pixels::{byte_index, channel, lemma_byte_index, lemma_byte_index_bound, lemma_index_decompose};
use crate::plugins::params::{
    Setting, SettingModel, setting_of, read_setting, pieces_of, format_text, value_text,
    unknown_text, format_message, value_message, unknown_message, lemma_pieces_step, sets_key,
    setting_value, last_setting, never_set,
};

verus! {

/// The blur radius and the number of passes.
#[derive(Debug, PartialEq, Eq, Structural)]
pub struct BlurParams {
    pub radius: u32,
    pub iterations: u32,
}

/// A `u32` value of a parameter.
pub open spec fn u32_value(s: Seq<char>) -> Option<u32> {
    match parse_uint_spec(s, u32::MAX as nat) {
        Some(v) => Some(v as u32),
        None => None,
    }
}

/// What the pieces give, from the values set so far: `radius` and
/// `iterations` take `u32` values, a later setting replaces an earlier one,
/// and the first bad piece ends the reading with its message.
pub open spec fn blur_parse(pieces: Seq<Seq<char>>, radius: u32, iterations: u32) -> Result<
    BlurParams,
    Seq<char>,
>
    decreases pieces.len(),
{
    if pieces.len() == 0 {
        Ok(BlurParams { radius, iterations })
    } else {
        let rest = pieces.drop_first();
        match setting_of(pieces[0]) {
            SettingModel::Skip => blur_parse(rest, radius, iterations),
            SettingModel::BadFormat(t) => Err(format_text(t)),
            SettingModel::Pair(k, v) => if k == "radius"@ {
                match u32_value(v) {
                    Some(x) => blur_parse(rest, x, iterations),
                    None => Err(value_text(k, v)),
                }
            } else if k == "iterations"@ {
                match u32_value(v) {
                    Some(x) => blur_parse(rest, radius, x),
                    None => Err(value_text(k, v)),
                }
            } else {
                Err(unknown_text(k))
            },
        }
    }
}

/// What a blur parameter string gives; both values are 1 unless set.
pub open spec fn blur_params_of(s: Seq<char>) -> Result<BlurParams, Seq<char>> {
    blur_parse(pieces_of(s), 1, 1)
}

/// Reads blur parameters such as `radius=1,iterations=3`.
pub fn parse_blur_params(params_str: &str) -> (r: Result<BlurParams, String>)
    ensures
        match blur_params_of(params_str@) {
            Ok(p) => r matches Ok(q) && q == p,
            Err(m) => r matches Err(x) && x@ == m,
        },
{
    let cs = chars_of(params_str);
    let pieces = split_on_char(cs.as_slice(), ',');
    let ghost all = views(pieces@);
    let radius_key = chars_of("radius");
    let iterations_key = chars_of("iterations");
    let mut radius_to_use: u32 = 1;
    let mut iterations_to_use: u32 = 1;
    let mut i: usize = 0;
    assert(all.skip(0) =~= all);
    while i < pieces.len()
        invariant
            i <= pieces@.len(),
            all == views(pieces@),
            all == pieces_of(params_str@),
            radius_key@ == "radius"@,
            iterations_key@ == "iterations"@,
            blur_params_of(params_str@) == blur_parse(
                all.skip(i as int),
                radius_to_use,
                iterations_to_use,
            ),
        decreases pieces@.len() - i,
    {
        proof {
            lemma_pieces_step(all, i as int);
        }
        assert(pieces@[i as int]@ == all[i as int]);
        let setting = read_setting(pieces[i].as_slice());
        match setting {
            Setting::Skip => {},
            Setting::BadFormat(t) => {
                return Err(format_message(t.as_slice()));
            },
            Setting::Pair(key, value) => {
                if chars_eq(key.as_slice(), radius_key.as_slice()) {
                    match parse_uint(value.as_slice(), 0xFFFF_FFFF) {
                        Some(x) => {
                            radius_to_use = x as u32;
                        },
                        None => {
                            return Err(value_message(key.as_slice(), value.as_slice()));
                        },
                    }
                } else if chars_eq(key.as_slice(), iterations_key.as_slice()) {
                    match parse_uint(value.as_slice(), 0xFFFF_FFFF) {
                        Some(x) => {
                            iterations_to_use = x as u32;
                        },
                        None => {
                            return Err(value_message(key.as_slice(), value.as_slice()));
                        },
                    }
                } else {
                    return Err(unknown_message(key.as_slice()));
                }
            },
        }
        i = i + 1;
    }
    Ok(BlurParams { radius: radius_to_use, iterations: iterations_to_use })
}

/// The sum of channel `c` over the pixels `x0 <= x < x_end` of row `y`.
pub open spec fn row_sum(img: Seq<u8>, w: int, y: int, x0: int, x_end: int, c: int) -> int
    decreases x_end - x0,
{
    if x_end <= x0 {
        0
    } else {
        row_sum(img, w, y, x0, x_end - 1, c) + channel(img, w, x_end - 1, y, c)
    }
}

/// The sum of channel `c` over the pixels `x0 <= x <= x1`, `y0 <= y < y_end`.
pub open spec fn area_sum(img: Seq<u8>, w: int, x0: int, x1: int, y0: int, y_end: int, c: int) -> int
    decreases y_end - y0,
{
    if y_end <= y0 {
        0
    } else {
        area_sum(img, w, x0, x1, y0, y_end - 1, c) + row_sum(img, w, y_end - 1, x0, x1 + 1, c)
    }
}

/// The lower end of a window of radius `r` around `p` (`saturating_sub`).
pub open spec fn window_low(p: int, r: int) -> int {
    if p >= r {
        p - r
    } else {
        0
    }
}

/// The upper end of a window of radius `r` around `p` on an axis of `n`
/// pixels.
pub open spec fn window_high(p: int, r: int, n: int) -> int {
    if p + r < n - 1 {
        p + r
    } else {
        n - 1
    }
}

/// The mean `sum / count` rounded to the nearest integer, halves up (what
/// rounding the floating-point quotient gives).
pub open spec fn rounded_mean(sum: int, count: int) -> int {
    (2 * sum + count) / (2 * count)
}

/// Channel `c` of pixel (`x`, `y`) after one pass: the rounded mean of that
/// channel over the pixels at most `r` away in both directions.
pub open spec fn blurred_channel(img: Seq<u8>, w: int, h: int, r: int, x: int, y: int, c: int) -> u8 {
    let x0 = window_low(x, r);
    let x1 = window_high(x, r, w);
    let y0 = window_low(y, r);
    let y1 = window_high(y, r, h);
    rounded_mean(area_sum(img, w, x0, x1, y0, y1 + 1, c), (y1 - y0 + 1) * (x1 - x0 + 1)) as u8
}

/// One blur pass over the `w * h` pixels at the front of `img`; bytes past
/// them stay.
pub open spec fn blur_once(img: Seq<u8>, w: int, h: int, r: int) -> Seq<u8> {
    Seq::new(
        img.len(),
        |i: int|
            if i < w * h * 4 {
                blurred_channel(img, w, h, r, (i / 4) % w, (i / 4) / w, i % 4)
            } else {
                img[i]
            },
    )
}

/// `n` blur passes, each over the result of the one before.
pub open spec fn blurred(img: Seq<u8>, w: int, h: int, r: int, n: nat) -> Seq<u8>
    decreases n,
{
    if n == 0 {
        img
    } else {
        blur_once(blurred(img, w, h, r, (n - 1) as nat), w, h, r)
    }
}

/// The rounded mean of bytes is a byte.
proof fn lemma_rounded_mean_bound(sum: int, count: int)
    requires
        0 < count,
        0 <= sum <= 255 * count,
    ensures
        0 <= rounded_mean(sum, count) <= 255,
{
    assert(0 <= (2 * sum + count) / (2 * count) <= 255) by (nonlinear_arith)
        requires
            0 < count,
            0 <= sum <= 255 * count,
    ;
}

/// The means of the four channels over the window around pixel (`col`,
/// `row`), read from `snap`.
fn window_means(snap: &Vec<u8>, w: u32, h: u32, r: u32, col: u32, row: u32) -> (m: (u8, u8, u8, u8))
    requires
        col < w,
        row < h,
        w * h <= 0x4000_0000,
        snap@.len() >= w * h * 4,
        w - 1 + r <= u32::MAX,
        h - 1 + r <= u32::MAX,
    ensures
        m.0 == blurred_channel(snap@, w as int, h as int, r as int, col as int, row as int, 0),
        m.1 == blurred_channel(snap@, w as int, h as int, r as int, col as int, row as int, 1),
        m.2 == blurred_channel(snap@, w as int, h as int, r as int, col as int, row as int, 2),
        m.3 == blurred_channel(snap@, w as int, h as int, r as int, col as int, row as int, 3),
{
    let ghost img = snap@;
    let ghost wi = w as int;
    let y_min: u32 = row.saturating_sub(r);
    let y_max: u32 = if row + r < h - 1 {
        row + r
    } else {
        h - 1
    };
    let x_min: u32 = col.saturating_sub(r);
    let x_max: u32 = if col + r < w - 1 {
        col + r
    } else {
        w - 1
    };
    let ghost xw = (x_max - x_min + 1) as int;
    let ghost total = (y_max - y_min + 1) * xw;
    assert(0 < total <= w * h) by (nonlinear_arith)
        requires
            total == (y_max - y_min + 1) * xw,
            0 < y_max - y_min + 1 <= h,
            0 < xw <= w,
    ;
    let mut acc_r: u64 = 0;
    let mut acc_g: u64 = 0;
    let mut acc_b: u64 = 0;
    let mut acc_a: u64 = 0;
    let mut cnt: u64 = 0;
    let mut ay: u32 = y_min;
    while ay <= y_max
        invariant
            img == snap@,
            wi == w as int,
            img.len() >= w * h * 4,
            w * h <= 0x4000_0000,
            y_min <= ay <= y_max + 1,
            y_max < h,
            x_min <= x_max < w,
            xw == x_max - x_min + 1,
            total == (y_max - y_min + 1) * xw,
            0 < total <= w * h,
            cnt == (ay - y_min) * xw,
            acc_r == area_sum(img, wi, x_min as int, x_max as int, y_min as int, ay as int, 0),
            acc_g == area_sum(img, wi, x_min as int, x_max as int, y_min as int, ay as int, 1),
            acc_b == area_sum(img, wi, x_min as int, x_max as int, y_min as int, ay as int, 2),
            acc_a == area_sum(img, wi, x_min as int, x_max as int, y_min as int, ay as int, 3),
            acc_r <= 255 * cnt,
            acc_g <= 255 * cnt,
            acc_b <= 255 * cnt,
            acc_a <= 255 * cnt,
        decreases y_max + 1 - ay,
    {
        assert((ay - y_min + 1) * xw <= total) by (nonlinear_arith)
            requires
                ay <= y_max,
                y_min <= ay,
                total == (y_max - y_min + 1) * xw,
                0 < xw,
        ;
        assert((ay - y_min + 1) * xw == (ay - y_min) * xw + xw) by (nonlinear_arith);
        let ghost row_start = cnt as int;
        let mut ax: u32 = x_min;
        while ax <= x_max
            invariant
                img == snap@,
                wi == w as int,
                img.len() >= w * h * 4,
                w * h <= 0x4000_0000,
                y_min <= ay <= y_max,
                y_max < h,
                x_min <= ax <= x_max + 1,
                x_max < w,
                xw == x_max - x_min + 1,
                row_start == (ay - y_min) * xw,
                row_start + xw <= total,
                total <= w * h,
                cnt == row_start + (ax - x_min),
                acc_r == area_sum(img, wi, x_min as int, x_max as int, y_min as int, ay as int, 0)
                    + row_sum(img, wi, ay as int, x_min as int, ax as int, 0),
                acc_g == area_sum(img, wi, x_min as int, x_max as int, y_min as int, ay as int, 1)
                    + row_sum(img, wi, ay as int, x_min as int, ax as int, 1),
                acc_b == area_sum(img, wi, x_min as int, x_max as int, y_min as int, ay as int, 2)
                    + row_sum(img, wi, ay as int, x_min as int, ax as int, 2),
                acc_a == area_sum(img, wi, x_min as int, x_max as int, y_min as int, ay as int, 3)
                    + row_sum(img, wi, ay as int, x_min as int, ax as int, 3),
                acc_r <= 255 * cnt,
                acc_g <= 255 * cnt,
                acc_b <= 255 * cnt,
                acc_a <= 255 * cnt,
            decreases x_max + 1 - ax,
        {
            proof {
                lemma_byte_index_bound(wi, h as int, ax as int, ay as int, 3);
            }
            let area_pixel = (ay * w + ax) * 4;
            let p = area_pixel as usize;
            assert(p == byte_index(wi, ax as int, ay as int, 0));
            acc_r = acc_r + snap[p] as u64;
            acc_g = acc_g + snap[p + 1] as u64;
            acc_b = acc_b + snap[p + 2] as u64;
            acc_a = acc_a + snap[p + 3] as u64;
            cnt = cnt + 1;
            ax = ax + 1;
        }
        ay = ay + 1;
    }
    assert(cnt == total);
    let ghost x0 = window_low(col as int, r as int);
    let ghost x1 = window_high(col as int, r as int, w as int);
    let ghost y0 = window_low(row as int, r as int);
    let ghost y1 = window_high(row as int, r as int, h as int);
    assert(x0 == x_min && x1 == x_max && y0 == y_min && y1 == y_max);
    proof {
        lemma_rounded_mean_bound(acc_r as int, cnt as int);
        lemma_rounded_mean_bound(acc_g as int, cnt as int);
        lemma_rounded_mean_bound(acc_b as int, cnt as int);
        lemma_rounded_mean_bound(acc_a as int, cnt as int);
    }
    let m0 = ((2 * acc_r + cnt) / (2 * cnt)) as u8;
    let m1 = ((2 * acc_g + cnt) / (2 * cnt)) as u8;
    let m2 = ((2 * acc_b + cnt) / (2 * cnt)) as u8;
    let m3 = ((2 * acc_a + cnt) / (2 * cnt)) as u8;
    (m0, m1, m2, m3)
}

/// One pass: every pixel of `data` gets the window means read from `snap`,
/// a copy of `data` taken before the pass.
fn blur_pass(data: &mut [u8], snap: &Vec<u8>, w: u32, h: u32, r: u32)
    requires
        old(data)@ == snap@,
        w * h <= 0x4000_0000,
        snap@.len() >= w * h * 4,
        w > 0 && h > 0 ==> w - 1 + r <= u32::MAX && h - 1 + r <= u32::MAX,
    ensures
        final(data)@ == blur_once(snap@, w as int, h as int, r as int),
{
    let ghost img = snap@;
    let ghost wi = w as int;
    let ghost hi = h as int;
    let ghost ri = r as int;
    let mut row: u32 = 0;
    while row < h
        invariant
            img == snap@,
            wi == w as int,
            hi == h as int,
            ri == r as int,
            w * h <= 0x4000_0000,
            img.len() >= w * h * 4,
            w > 0 && h > 0 ==> w - 1 + r <= u32::MAX && h - 1 + r <= u32::MAX,
            row <= h,
            data@.len() == img.len(),
            forall|y: int, x: int, c: int|
                0 <= y < hi && 0 <= x < wi && 0 <= c < 4 ==> #[trigger] data@[byte_index(
                    wi,
                    x,
                    y,
                    c,
                )] == if y < row {
                    blurred_channel(img, wi, hi, ri, x, y, c)
                } else {
                    img[byte_index(wi, x, y, c)]
                },
            forall|i: int| wi * hi * 4 <= i < img.len() ==> #[trigger] data@[i] == img[i],
        decreases h - row,
    {
        let mut col: u32 = 0;
        while col < w
            invariant
                img == snap@,
                wi == w as int,
                hi == h as int,
                ri == r as int,
                w * h <= 0x4000_0000,
                img.len() >= w * h * 4,
                w > 0 && h > 0 ==> w - 1 + r <= u32::MAX && h - 1 + r <= u32::MAX,
                row < h,
                col <= w,
                data@.len() == img.len(),
                forall|y: int, x: int, c: int|
                    0 <= y < hi && 0 <= x < wi && 0 <= c < 4 ==> #[trigger] data@[byte_index(
                        wi,
                        x,
                        y,
                        c,
                    )] == if y < row || (y == row && x < col) {
                        blurred_channel(img, wi, hi, ri, x, y, c)
                    } else {
                        img[byte_index(wi, x, y, c)]
                    },
                forall|i: int| wi * hi * 4 <= i < img.len() ==> #[trigger] data@[i] == img[i],
            decreases w - col,
        {
            let (m0, m1, m2, m3) = window_means(snap, w, h, r, col, row);
            proof {
                lemma_byte_index_bound(wi, hi, col as int, row as int, 3);
            }
            let pos = ((row * w + col) * 4) as usize;
            let ghost before = data@;
            data[pos] = m0;
            data[pos + 1] = m1;
            data[pos + 2] = m2;
            data[pos + 3] = m3;
            proof {
                let ci = col as int;
                let rw = row as int;
                lemma_byte_index(wi, ci, rw, 0);
                lemma_byte_index(wi, ci, rw, 1);
                lemma_byte_index(wi, ci, rw, 2);
                lemma_byte_index(wi, ci, rw, 3);
                assert forall|y: int, x: int, c: int|
                    0 <= y < hi && 0 <= x < wi && 0 <= c < 4 implies #[trigger] data@[byte_index(
                        wi,
                        x,
                        y,
                        c,
                    )] == if y < row || (y == row && x < col + 1) {
                        blurred_channel(img, wi, hi, ri, x, y, c)
                    } else {
                        img[byte_index(wi, x, y, c)]
                    } by {
                    lemma_byte_index(wi, x, y, c);
                    lemma_byte_index_bound(wi, hi, x, y, c);
                    if y == rw && x == ci {
                        assert(byte_index(wi, x, y, c) == pos + c);
                    } else {
                        let k = byte_index(wi, x, y, c);
                        assert(k != pos && k != pos + 1 && k != pos + 2 && k != pos + 3);
                        assert(data@[k] == before[k]);
                    }
                }
                assert forall|i: int| wi * hi * 4 <= i < img.len() implies #[trigger] data@[i]
                    == img[i] by {
                    assert(data@[i] == before[i]);
                }
            }
            col = col + 1;
        }
        row = row + 1;
    }
    proof {
        let target = blur_once(img, wi, hi, ri);
        assert forall|i: int| 0 <= i < img.len() implies data@[i] == target[i] by {
            if i < wi * hi * 4 {
                lemma_index_decompose(wi, hi, i);
                let x = (i / 4) % wi;
                let y = (i / 4) / wi;
                let c = i % 4;
                assert(data@[byte_index(wi, x, y, c)] == blurred_channel(img, wi, hi, ri, x, y, c));
            }
        }
        assert(data@ =~= target);
    }
}

/// Blurs the `width * height` RGBA pixels at the front of `rgba_data`:
/// `params.iterations` passes, each replacing every channel of every pixel
/// by its rounded mean over the pixels at most `params.radius` away, read
/// from the image the pass started with.
pub fn apply_blur_logic(rgba_data: &mut [u8], width: u32, height: u32, params: BlurParams)
    requires
        params.iterations > 0 ==> {
            &&& width * height <= 0x4000_0000
            &&& old(rgba_data)@.len() >= width * height * 4
            &&& width > 0 && height > 0 ==> width - 1 + params.radius <= u32::MAX && height - 1
                + params.radius <= u32::MAX
        },
    ensures
        final(rgba_data)@ == blurred(
            old(rgba_data)@,
            width as int,
            height as int,
            params.radius as int,
            params.iterations as nat,
        ),
{
    let mut image_iter_snapshot = vstd::slice::slice_to_vec(rgba_data);
    let mut it: u32 = 0;
    while it < params.iterations
        invariant
            params.iterations > 0 ==> {
                &&& width * height <= 0x4000_0000
                &&& old(rgba_data)@.len() >= width * height * 4
                &&& width > 0 && height > 0 ==> width - 1 + params.radius <= u32::MAX && height
                    - 1 + params.radius <= u32::MAX
            },
            it <= params.iterations,
            rgba_data@.len() == old(rgba_data)@.len(),
            image_iter_snapshot@ == rgba_data@,
            rgba_data@ == blurred(
                old(rgba_data)@,
                width as int,
                height as int,
                params.radius as int,
                it as nat,
            ),
        decreases params.iterations - it,
    {
        blur_pass(rgba_data, &image_iter_snapshot, width, height, params.radius);
        image_iter_snapshot = vstd::slice::slice_to_vec(rgba_data);
        it = it + 1;
    }
}

/// Whether the window arithmetic of the blur that `params` asks for stays
/// within `u32` on a `w * h` image: when the parameters read and ask for a
/// pass over a non-empty image, the last column and row plus the radius
/// fit.
pub open spec fn blur_fits(params: Seq<char>, w: int, h: int) -> bool {
    match blur_params_of(params) {
        Ok(p) => p.iterations > 0 && w > 0 && h > 0 ==> w - 1 + p.radius <= u32::MAX && h - 1
            + p.radius <= u32::MAX,
        Err(_) => true,
    }
}

/// Reads the blur parameters from `params_str`, then blurs the
/// `width * height` RGBA pixels of `rgba_data` with them. When the
/// parameters do not read, the image is left as it is and the message comes
/// back.
pub fn blur_image(width: u32, height: u32, rgba_data: &mut [u8], params_str: &str) -> (r: Result<
    (),
    String,
>)
    requires
        width * height * 4 <= u32::MAX,
        old(rgba_data)@.len() == width * height * 4,
        blur_fits(params_str@, width as int, height as int),
    ensures
        match blur_params_of(params_str@) {
            Ok(p) => r is Ok && final(rgba_data)@ == blurred(
                old(rgba_data)@,
                width as int,
                height as int,
                p.radius as int,
                p.iterations as nat,
            ),
            Err(m) => r matches Err(x) && x@ == m && final(rgba_data)@ == old(rgba_data)@,
        },
{
    match parse_blur_params(params_str) {
        Ok(params_to_use) => {
            apply_blur_logic(rgba_data, width, height, params_to_use);
            Ok(())
        },
        Err(e) => Err(e),
    }
}

/// Channel `c` of every pixel of the `w * h` image is `v`.
pub open spec fn channel_is(img: Seq<u8>, w: int, h: int, c: int, v: int) -> bool {
    forall|x: int, y: int| 0 <= x < w && 0 <= y < h ==> #[trigger] channel(img, w, x, y, c) == v
}

/// Every pixel of the `w * h` image has the same bytes as the first one.
pub open spec fn uniform(img: Seq<u8>, w: int, h: int) -> bool {
    forall|c: int| 0 <= c < 4 ==> #[trigger] channel_is(img, w, h, c, channel(img, w, 0, 0, c))
}

/// A row whose channel is `v` throughout sums to `v` times its length.
proof fn lemma_row_sum_const(
    img: Seq<u8>,
    w: int,
    h: int,
    y: int,
    x0: int,
    x_end: int,
    c: int,
    v: int,
)
    requires
        channel_is(img, w, h, c, v),
        0 <= y < h,
        0 <= x0 <= x_end <= w,
    ensures
        row_sum(img, w, y, x0, x_end, c) == v * (x_end - x0),
    decreases x_end - x0,
{
    if x_end > x0 {
        lemma_row_sum_const(img, w, h, y, x0, x_end - 1, c, v);
        assert(channel(img, w, x_end - 1, y, c) == v);
        assert(v * (x_end - 1 - x0) + v == v * (x_end - x0)) by (nonlinear_arith);
    } else {
        assert(v * (x_end - x0) == 0) by (nonlinear_arith)
            requires
                x_end == x0,
        ;
    }
}

/// A window whose channel is `v` throughout sums to `v` times its size.
proof fn lemma_area_sum_const(
    img: Seq<u8>,
    w: int,
    h: int,
    x0: int,
    x1: int,
    y0: int,
    y_end: int,
    c: int,
    v: int,
)
    requires
        channel_is(img, w, h, c, v),
        0 <= x0 <= x1 < w,
        0 <= y0 <= y_end <= h,
    ensures
        area_sum(img, w, x0, x1, y0, y_end, c) == v * ((y_end - y0) * (x1 - x0 + 1)),
    decreases y_end - y0,
{
    if y_end > y0 {
        lemma_area_sum_const(img, w, h, x0, x1, y0, y_end - 1, c, v);
        lemma_row_sum_const(img, w, h, y_end - 1, x0, x1 + 1, c, v);
        let k = x1 - x0 + 1;
        assert(v * ((y_end - 1 - y0) * k) + v * k == v * ((y_end - y0) * k)) by (nonlinear_arith);
    } else {
        assert(v * ((y_end - y0) * (x1 - x0 + 1)) == 0) by (nonlinear_arith)
            requires
                y_end == y0,
        ;
    }
}

/// The rounded mean of equal values is that value.
proof fn lemma_rounded_mean_uniform(v: int, k: int)
    requires
        0 <= v,
        0 < k,
    ensures
        rounded_mean(v * k, k) == v,
{
    assert(2 * (v * k) + k == v * (2 * k) + k) by (nonlinear_arith);
    vstd::arithmetic::div_mod::lemma_fundamental_div_mod_converse(2 * (v * k) + k, 2 * k, v, k);
}

/// A pixel's channel after a pass is `v` when that channel is `v` all over.
proof fn lemma_blurred_channel_const(
    img: Seq<u8>,
    w: int,
    h: int,
    r: int,
    x: int,
    y: int,
    c: int,
    v: int,
)
    requires
        channel_is(img, w, h, c, v),
        0 <= v <= 255,
        0 <= x < w,
        0 <= y < h,
        0 <= r,
    ensures
        blurred_channel(img, w, h, r, x, y, c) == v,
{
    let x0 = window_low(x, r);
    let x1 = window_high(x, r, w);
    let y0 = window_low(y, r);
    let y1 = window_high(y, r, h);
    let k = (y1 - y0 + 1) * (x1 - x0 + 1);
    lemma_area_sum_const(img, w, h, x0, x1, y0, y1 + 1, c, v);
    assert(0 < k) by (nonlinear_arith)
        requires
            k == (y1 - y0 + 1) * (x1 - x0 + 1),
            y0 <= y1,
            x0 <= x1,
    ;
    lemma_rounded_mean_uniform(v, k);
}

/// A pass keeps a channel that is `v` all over at `v`.
proof fn lemma_blur_once_keeps_channel(img: Seq<u8>, w: int, h: int, r: int, c: int, v: int)
    requires
        channel_is(img, w, h, c, v),
        0 <= v <= 255,
        0 <= c < 4,
        img.len() >= w * h * 4,
        0 <= w,
        0 <= h,
        0 <= r,
    ensures
        channel_is(blur_once(img, w, h, r), w, h, c, v),
        blur_once(img, w, h, r).len() == img.len(),
{
    let out = blur_once(img, w, h, r);
    assert forall|x: int, y: int| 0 <= x < w && 0 <= y < h implies #[trigger] channel(
        out,
        w,
        x,
        y,
        c,
    ) == v by {
        lemma_byte_index(w, x, y, c);
        lemma_byte_index_bound(w, h, x, y, c);
        lemma_blurred_channel_const(img, w, h, r, x, y, c, v);
    }
}

/// A channel that is the same in every pixel (such as a fully opaque alpha
/// channel) keeps its value through any number of blur passes.
pub proof fn law_blur_keeps_constant_channel(
    img: Seq<u8>,
    w: int,
    h: int,
    r: int,
    n: nat,
    c: int,
    v: int,
)
    requires
        channel_is(img, w, h, c, v),
        0 <= v <= 255,
        0 <= c < 4,
        img.len() >= w * h * 4,
        0 <= w,
        0 <= h,
        0 <= r,
    ensures
        channel_is(blurred(img, w, h, r, n), w, h, c, v),
        blurred(img, w, h, r, n).len() == img.len(),
    decreases n,
{
    if n > 0 {
        law_blur_keeps_constant_channel(img, w, h, r, (n - 1) as nat, c, v);
        lemma_blur_once_keeps_channel(blurred(img, w, h, r, (n - 1) as nat), w, h, r, c, v);
    }
}

/// A blur pass leaves a uniform image as it is.
proof fn lemma_blur_once_uniform(img: Seq<u8>, w: int, h: int, r: int)
    requires
        uniform(img, w, h),
        img.len() >= w * h * 4,
        0 <= w,
        0 <= h,
        0 <= r,
    ensures
        blur_once(img, w, h, r) == img,
{
    let out = blur_once(img, w, h, r);
    assert forall|i: int| 0 <= i < img.len() implies out[i] == img[i] by {
        if i < w * h * 4 {
            lemma_index_decompose(w, h, i);
            let x = (i / 4) % w;
            let y = (i / 4) / w;
            let c = i % 4;
            let v = channel(img, w, 0, 0, c);
            assert(channel_is(img, w, h, c, v));
            lemma_blurred_channel_const(img, w, h, r, x, y, c, v);
            assert(channel(img, w, x, y, c) == v);
        }
    }
    assert(out =~= img);
}

/// Blurring an image whose pixels are all alike changes nothing, however
/// wide the radius and however many the passes.
pub proof fn law_blur_uniform_unchanged(img: Seq<u8>, w: int, h: int, r: int, n: nat)
    requires
        uniform(img, w, h),
        img.len() >= w * h * 4,
        0 <= w,
        0 <= h,
        0 <= r,
    ensures
        blurred(img, w, h, r, n) == img,
    decreases n,
{
    if n > 0 {
        law_blur_uniform_unchanged(img, w, h, r, (n - 1) as nat);
        lemma_blur_once_uniform(img, w, h, r);
    }
}

/// Channel `c` of every pixel of the `w * h` image lies between `lo` and
/// `hi`.
pub open spec fn channel_within(img: Seq<u8>, w: int, h: int, c: int, lo: int, hi: int) -> bool {
    forall|x: int, y: int|
        0 <= x < w && 0 <= y < h ==> lo <= #[trigger] channel(img, w, x, y, c) <= hi
}

/// A row whose channel lies between `lo` and `hi` sums to between `lo` and
/// `hi` times its length.
proof fn lemma_row_sum_within(
    img: Seq<u8>,
    w: int,
    h: int,
    y: int,
    x0: int,
    x_end: int,
    c: int,
    lo: int,
    hi: int,
)
    requires
        channel_within(img, w, h, c, lo, hi),
        0 <= y < h,
        0 <= x0 <= x_end <= w,
    ensures
        lo * (x_end - x0) <= row_sum(img, w, y, x0, x_end, c) <= hi * (x_end - x0),
    decreases x_end - x0,
{
    if x_end > x0 {
        lemma_row_sum_within(img, w, h, y, x0, x_end - 1, c, lo, hi);
        assert(lo <= channel(img, w, x_end - 1, y, c) <= hi);
        assert(lo * (x_end - 1 - x0) + lo == lo * (x_end - x0)) by (nonlinear_arith);
        assert(hi * (x_end - 1 - x0) + hi == hi * (x_end - x0)) by (nonlinear_arith);
    } else {
        assert(lo * (x_end - x0) == 0 && hi * (x_end - x0) == 0) by (nonlinear_arith)
            requires
                x_end == x0,
        ;
    }
}

/// A window whose channel lies between `lo` and `hi` sums to between `lo`
/// and `hi` times its size.
proof fn lemma_area_sum_within(
    img: Seq<u8>,
    w: int,
    h: int,
    x0: int,
    x1: int,
    y0: int,
    y_end: int,
    c: int,
    lo: int,
    hi: int,
)
    requires
        channel_within(img, w, h, c, lo, hi),
        0 <= x0 <= x1 < w,
        0 <= y0 <= y_end <= h,
    ensures
        lo * ((y_end - y0) * (x1 - x0 + 1)) <= area_sum(img, w, x0, x1, y0, y_end, c) <= hi * (
        (y_end - y0) * (x1 - x0 + 1)),
    decreases y_end - y0,
{
    let k = x1 - x0 + 1;
    if y_end > y0 {
        lemma_area_sum_within(img, w, h, x0, x1, y0, y_end - 1, c, lo, hi);
        lemma_row_sum_within(img, w, h, y_end - 1, x0, x1 + 1, c, lo, hi);
        assert(lo * ((y_end - 1 - y0) * k) + lo * k == lo * ((y_end - y0) * k)) by (nonlinear_arith);
        assert(hi * ((y_end - 1 - y0) * k) + hi * k == hi * ((y_end - y0) * k)) by (nonlinear_arith);
    } else {
        assert(lo * ((y_end - y0) * k) == 0 && hi * ((y_end - y0) * k) == 0) by (nonlinear_arith)
            requires
                y_end == y0,
        ;
    }
}

/// The rounded mean of values between `lo` and `hi` lies between them.
proof fn lemma_rounded_mean_within(sum: int, count: int, lo: int, hi: int)
    requires
        0 < count,
        lo * count <= sum <= hi * count,
    ensures
        lo <= rounded_mean(sum, count) <= hi,
{
    let d = 2 * count;
    let n = 2 * sum + count;
    vstd::arithmetic::div_mod::lemma_fundamental_div_mod(n, d);
    let q = n / d;
    let m = n % d;
    assert(lo <= q && q <= hi) by (nonlinear_arith)
        requires
            0 < count,
            d == 2 * count,
            n == 2 * sum + count,
            n == d * q + m,
            0 <= m < d,
            lo * count <= sum <= hi * count,
    ;
}

/// A pixel's channel after a pass lies between `lo` and `hi` when that
/// channel does so all over.
proof fn lemma_blurred_channel_within(
    img: Seq<u8>,
    w: int,
    h: int,
    r: int,
    x: int,
    y: int,
    c: int,
    lo: int,
    hi: int,
)
    requires
        channel_within(img, w, h, c, lo, hi),
        0 <= x < w,
        0 <= y < h,
        0 <= c < 4,
        img.len() >= w * h * 4,
        0 <= r,
    ensures
        lo <= blurred_channel(img, w, h, r, x, y, c) <= hi,
{
    let x0 = window_low(x, r);
    let x1 = window_high(x, r, w);
    let y0 = window_low(y, r);
    let y1 = window_high(y, r, h);
    let k = (y1 - y0 + 1) * (x1 - x0 + 1);
    let s = area_sum(img, w, x0, x1, y0, y1 + 1, c);
    assert(0 < k) by (nonlinear_arith)
        requires
            k == (y1 - y0 + 1) * (x1 - x0 + 1),
            y0 <= y1,
            x0 <= x1,
    ;
    lemma_area_sum_within(img, w, h, x0, x1, y0, y1 + 1, c, lo, hi);
    lemma_rounded_mean_within(s, k, lo, hi);
    assert forall|px: int, py: int| 0 <= px < w && 0 <= py < h implies 0 <= #[trigger] channel(
        img,
        w,
        px,
        py,
        c,
    ) <= 255 by {
        lemma_byte_index_bound(w, h, px, py, c);
    }
    lemma_area_sum_within(img, w, h, x0, x1, y0, y1 + 1, c, 0, 255);
    lemma_rounded_mean_bound(s, k);
}

/// A pass keeps each channel between the bounds it lay between.
proof fn lemma_blur_once_within(
    img: Seq<u8>,
    w: int,
    h: int,
    r: int,
    c: int,
    lo: int,
    hi: int,
)
    requires
        channel_within(img, w, h, c, lo, hi),
        0 <= c < 4,
        img.len() >= w * h * 4,
        0 <= w,
        0 <= h,
        0 <= r,
    ensures
        channel_within(blur_once(img, w, h, r), w, h, c, lo, hi),
        blur_once(img, w, h, r).len() == img.len(),
{
    let out = blur_once(img, w, h, r);
    assert forall|x: int, y: int| 0 <= x < w && 0 <= y < h implies lo <= #[trigger] channel(
        out,
        w,
        x,
        y,
        c,
    ) <= hi by {
        lemma_byte_index(w, x, y, c);
        lemma_byte_index_bound(w, h, x, y, c);
        lemma_blurred_channel_within(img, w, h, r, x, y, c, lo, hi);
    }
}

/// Blurring never takes a channel outside the range it spanned: after any
/// number of passes, with any radius, each channel of each pixel lies
/// between the smallest and the largest value that channel had in the
/// image (or any wider bounds), and the buffer keeps its length.
pub proof fn law_blur_stays_within(
    img: Seq<u8>,
    w: int,
    h: int,
    r: int,
    n: nat,
    c: int,
    lo: int,
    hi: int,
)
    requires
        channel_within(img, w, h, c, lo, hi),
        0 <= c < 4,
        img.len() >= w * h * 4,
        0 <= w,
        0 <= h,
        0 <= r,
    ensures
        channel_within(blurred(img, w, h, r, n), w, h, c, lo, hi),
        blurred(img, w, h, r, n).len() == img.len(),
    decreases n,
{
    if n > 0 {
        law_blur_stays_within(img, w, h, r, (n - 1) as nat, c, lo, hi);
        lemma_blur_once_within(blurred(img, w, h, r, (n - 1) as nat), w, h, r, c, lo, hi);
    }
}

/// A pass of radius 0 leaves the image as it is: each pixel's window is
/// the pixel alone.
proof fn lemma_blur_once_radius_zero(img: Seq<u8>, w: int, h: int)
    requires
        img.len() >= w * h * 4,
        0 <= w,
        0 <= h,
    ensures
        blur_once(img, w, h, 0) == img,
{
    let out = blur_once(img, w, h, 0);
    assert forall|i: int| 0 <= i < img.len() implies out[i] == img[i] by {
        if i < w * h * 4 {
            lemma_index_decompose(w, h, i);
            let x = (i / 4) % w;
            let y = (i / 4) / w;
            let c = i % 4;
            let v = channel(img, w, x, y, c);
            assert(window_low(x, 0) == x && window_high(x, 0, w) == x);
            assert(window_low(y, 0) == y && window_high(y, 0, h) == y);
            assert(row_sum(img, w, y, x, x, c) == 0);
            assert(row_sum(img, w, y, x, x + 1, c) == v);
            assert(area_sum(img, w, x, x, y, y, c) == 0);
            assert(area_sum(img, w, x, x, y, y + 1, c) == v);
            vstd::arithmetic::div_mod::lemma_fundamental_div_mod_converse(2 * v + 1, 2, v, 1);
            assert(rounded_mean(v, 1) == v);
            assert((y - y + 1) * (x - x + 1) == 1) by (nonlinear_arith);
            assert(blurred_channel(img, w, h, 0, x, y, c) == rounded_mean(
                area_sum(img, w, x, x, y, y + 1, c),
                (y - y + 1) * (x - x + 1),
            ) as u8);
            assert(blurred_channel(img, w, h, 0, x, y, c) == v as u8);
            assert(v == img[i] as int);
        }
    }
    assert(out =~= img);
}

/// Blurring with radius 0, or with no passes at all, leaves the image as
/// it is.
pub proof fn law_blur_identity(img: Seq<u8>, w: int, h: int, r: int, n: nat)
    requires
        r == 0 || n == 0,
        img.len() >= w * h * 4,
        0 <= w,
        0 <= h,
    ensures
        blurred(img, w, h, r, n) == img,
    decreases n,
{
    if n > 0 {
        law_blur_identity(img, w, h, r, (n - 1) as nat);
        lemma_blur_once_radius_zero(img, w, h);
    }
}

/// The window of a pass reaches the full radius: along an axis of `n`
/// pixels, the window around `p` holds exactly the positions on the axis
/// at most `r` away from `p`, however large `r` is.
pub proof fn law_blur_window_is_radius(p: int, r: int, n: int, q: int)
    requires
        0 <= p < n,
        0 <= r,
    ensures
        (window_low(p, r) <= q <= window_high(p, r, n)) <==> (0 <= q < n && p - r <= q <= p
            + r),
{
}

/// On an image one pixel high, a pass gives each pixel the rounded mean of
/// the channel over the pixels of the row at most `r` away from it, for
/// every radius.
pub proof fn law_blur_row_mean(img: Seq<u8>, w: int, r: int, x: int, c: int)
    requires
        0 <= x < w,
        0 <= r,
    ensures
        ({
            let lo = if x - r > 0 {
                x - r
            } else {
                0
            };
            let end = if x + r + 1 < w {
                x + r + 1
            } else {
                w
            };
            blurred_channel(img, w, 1, r, x, 0, c) == rounded_mean(
                row_sum(img, w, 0, lo, end, c),
                end - lo,
            ) as u8
        }),
{
    let lo = window_low(x, r);
    let hi = window_high(x, r, w);
    assert(area_sum(img, w, lo, hi, 0, 0, c) == 0);
    assert(area_sum(img, w, lo, hi, 0, 1, c) == row_sum(img, w, 0, lo, hi + 1, c));
    assert((0 - 0 + 1) * (hi - lo + 1) == hi - lo + 1) by (nonlinear_arith);
}

/// The rounded mean is the integer nearest to `sum / count`, halves going
/// up: it lies less than half a step above the quotient and at most half
/// a step below it.
pub proof fn law_rounded_mean_is_nearest(sum: int, count: int)
    requires
        0 < count,
    ensures
        count * (2 * rounded_mean(sum, count) - 1) <= 2 * sum,
        2 * sum < count * (2 * rounded_mean(sum, count) + 1),
{
    let d = 2 * count;
    let n = 2 * sum + count;
    vstd::arithmetic::div_mod::lemma_fundamental_div_mod(n, d);
    let q = n / d;
    let m = n % d;
    assert(count * (2 * q - 1) <= 2 * sum && 2 * sum < count * (2 * q + 1)) by (nonlinear_arith)
        requires
            0 < count,
            d == 2 * count,
            n == 2 * sum + count,
            n == d * q + m,
            0 <= m < d,
    ;
}

/// What the pieces give, when they read, from the values set so far: each
/// value is the one written in the last piece that sets it, or the value so
/// far when none does.
proof fn lemma_blur_parse_values(pieces: Seq<Seq<char>>, r0: u32, n0: u32, i: int)
    requires
        blur_parse(pieces, r0, n0) is Ok,
    ensures
        last_setting(pieces, "radius"@, i) ==> u32_value(setting_value(pieces[i])) == Some(
            blur_parse(pieces, r0, n0)->Ok_0.radius,
        ),
        last_setting(pieces, "iterations"@, i) ==> u32_value(setting_value(pieces[i])) == Some(
            blur_parse(pieces, r0, n0)->Ok_0.iterations,
        ),
        never_set(pieces, "radius"@) ==> blur_parse(pieces, r0, n0)->Ok_0.radius == r0,
        never_set(pieces, "iterations"@) ==> blur_parse(pieces, r0, n0)->Ok_0.iterations == n0,
    decreases pieces.len(),
{
    reveal_strlit("radius");
    reveal_strlit("iterations");
    assert("radius"@ != "iterations"@) by {
        assert("radius"@.len() != "iterations"@.len());
    }
    if pieces.len() > 0 {
        let rest = pieces.drop_first();
        let (r1, n1) = match setting_of(pieces[0]) {
            SettingModel::Pair(k, v) => if k == "radius"@ {
                (u32_value(v)->0, n0)
            } else if k == "iterations"@ {
                (r0, u32_value(v)->0)
            } else {
                (r0, n0)
            },
            _ => (r0, n0),
        };
        assert(blur_parse(pieces, r0, n0) == blur_parse(rest, r1, n1));
        lemma_blur_parse_values(rest, r1, n1, i - 1);
        assert forall|j: int| 0 <= j < rest.len() implies rest[j] == pieces[j + 1] by {}
        if last_setting(pieces, "radius"@, i) && i > 0 {
            assert(last_setting(rest, "radius"@, i - 1)) by {
                assert forall|j: int| i - 1 < j < rest.len() implies !sets_key(
                    #[trigger] rest[j],
                    "radius"@,
                ) by {
                    assert(rest[j] == pieces[j + 1]);
                }
            }
        }
        if last_setting(pieces, "iterations"@, i) && i > 0 {
            assert(last_setting(rest, "iterations"@, i - 1)) by {
                assert forall|j: int| i - 1 < j < rest.len() implies !sets_key(
                    #[trigger] rest[j],
                    "iterations"@,
                ) by {
                    assert(rest[j] == pieces[j + 1]);
                }
            }
        }
        if last_setting(pieces, "radius"@, 0) || never_set(pieces, "radius"@) {
            assert(never_set(rest, "radius"@)) by {
                assert forall|j: int| 0 <= j < rest.len() implies !sets_key(
                    #[trigger] rest[j],
                    "radius"@,
                ) by {
                    assert(rest[j] == pieces[j + 1]);
                }
            }
        }
        if last_setting(pieces, "iterations"@, 0) || never_set(pieces, "iterations"@) {
            assert(never_set(rest, "iterations"@)) by {
                assert forall|j: int| 0 <= j < rest.len() implies !sets_key(
                    #[trigger] rest[j],
                    "iterations"@,
                ) by {
                    assert(rest[j] == pieces[j + 1]);
                }
            }
        }
        if never_set(pieces, "radius"@) {
            assert(!sets_key(pieces[0], "radius"@));
        }
        if never_set(pieces, "iterations"@) {
            assert(!sets_key(pieces[0], "iterations"@));
        }
    }
}

/// The radius and the number of passes of a parameter string that reads
/// are the values written in the last pieces that set them, and 1 when no
/// piece does.
pub proof fn law_blur_params_follow_last_setting(s: Seq<char>, i: int)
    requires
        blur_params_of(s) is Ok,
    ensures
        last_setting(pieces_of(s), "radius"@, i) ==> u32_value(setting_value(pieces_of(s)[i]))
            == Some(blur_params_of(s)->Ok_0.radius),
        last_setting(pieces_of(s), "iterations"@, i) ==> u32_value(
            setting_value(pieces_of(s)[i]),
        ) == Some(blur_params_of(s)->Ok_0.iterations),
        never_set(pieces_of(s), "radius"@) ==> blur_params_of(s)->Ok_0.radius == 1,
        never_set(pieces_of(s), "iterations"@) ==> blur_params_of(s)->Ok_0.iterations == 1,
{
    lemma_blur_parse_values(pieces_of(s), 1, 1, i);
}

} // verus!
