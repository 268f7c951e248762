//! The mirror plugin: flips an image left to right, top to bottom, or both.
use vstd::prelude::*;
use crate::chars::{split_on_char, views};
use crate::strings::{chars_of, chars_eq};
use crate::plugins::pixels::{
    byte_index, channel, lemma_byte_index, lemma_byte_index_bound, lemma_index_decompose,
    lemma_pixel_of_index,
};
use crate::plugins::params::{
    Setting, SettingModel, setting_of, read_setting, pieces_of, format_text, value_text,
    unknown_text, format_message, value_message, unknown_message, lemma_pieces_step, sets_key,
    setting_value, last_setting, never_set,
};

verus! {

/// Which flips to make.
#[derive(Debug, PartialEq, Eq, Structural)]
pub struct MirrorParams {
    pub horizontal: bool,
    pub vertical: bool,
}

/// A `bool` value of a parameter (`str::parse::<bool>`): exactly `true` or
/// `false`.
pub open spec fn bool_value(s: Seq<char>) -> Option<bool> {
    if s == "true"@ {
        Some(true)
    } else if s == "false"@ {
        Some(false)
    } else {
        None
    }
}

/// What the pieces give, from the values set so far: `horizontal` and
/// `vertical` take `bool` values, a later setting replaces an earlier one,
/// and the first bad piece ends the reading with its message.
pub open spec fn mirror_parse(pieces: Seq<Seq<char>>, horizontal: bool, vertical: bool) -> Result<
    MirrorParams,
    Seq<char>,
>
    decreases pieces.len(),
{
    if pieces.len() == 0 {
        Ok(MirrorParams { horizontal, vertical })
    } else {
        let rest = pieces.drop_first();
        match setting_of(pieces[0]) {
            SettingModel::Skip => mirror_parse(rest, horizontal, vertical),
            SettingModel::BadFormat(t) => Err(format_text(t)),
            SettingModel::Pair(k, v) => if k == "horizontal"@ {
                match bool_value(v) {
                    Some(b) => mirror_parse(rest, b, vertical),
                    None => Err(value_text(k, v)),
                }
            } else if k == "vertical"@ {
                match bool_value(v) {
                    Some(b) => mirror_parse(rest, horizontal, b),
                    None => Err(value_text(k, v)),
                }
            } else {
                Err(unknown_text(k))
            },
        }
    }
}

/// What a mirror parameter string gives; both flips are off unless set.
pub open spec fn mirror_params_of(s: Seq<char>) -> Result<MirrorParams, Seq<char>> {
    mirror_parse(pieces_of(s), false, false)
}

/// `str::parse::<bool>` over characters.
fn parse_bool(cs: &[char], true_word: &[char], false_word: &[char]) -> (r: Option<bool>)
    requires
        true_word@ == "true"@,
        false_word@ == "false"@,
    ensures
        r == bool_value(cs@),
{
    if chars_eq(cs, true_word) {
        Some(true)
    } else if chars_eq(cs, false_word) {
        Some(false)
    } else {
        None
    }
}

/// Reads mirror parameters such as `horizontal=true,vertical=false`.
pub fn parse_mirror_params(params_str: &str) -> (r: Result<MirrorParams, String>)
    ensures
        match mirror_params_of(params_str@) {
            Ok(p) => r matches Ok(q) && q == p,
            Err(m) => r matches Err(x) && x@ == m,
        },
{
    let cs = chars_of(params_str);
    let pieces = split_on_char(cs.as_slice(), ',');
    let ghost all = views(pieces@);
    let horizontal_key = chars_of("horizontal");
    let vertical_key = chars_of("vertical");
    let true_word = chars_of("true");
    let false_word = chars_of("false");
    let mut horizontal_to_use = false;
    let mut vertical_to_use = false;
    let mut i: usize = 0;
    assert(all.skip(0) =~= all);
    while i < pieces.len()
        invariant
            i <= pieces@.len(),
            all == views(pieces@),
            all == pieces_of(params_str@),
            horizontal_key@ == "horizontal"@,
            vertical_key@ == "vertical"@,
            true_word@ == "true"@,
            false_word@ == "false"@,
            mirror_params_of(params_str@) == mirror_parse(
                all.skip(i as int),
                horizontal_to_use,
                vertical_to_use,
            ),
        decreases pieces@.len() - i,
    {
        proof {
            lemma_pieces_step(all, i as int);
        }
        assert(pieces@[i as int]@ == all[i as int]);
        let setting = read_setting(pieces[i].as_slice());
        match setting {
            Setting::Skip => {},
            Setting::BadFormat(t) => {
                return Err(format_message(t.as_slice()));
            },
            Setting::Pair(key, value) => {
                if chars_eq(key.as_slice(), horizontal_key.as_slice()) {
                    match parse_bool(value.as_slice(), true_word.as_slice(), false_word.as_slice()) {
                        Some(b) => {
                            horizontal_to_use = b;
                        },
                        None => {
                            return Err(value_message(key.as_slice(), value.as_slice()));
                        },
                    }
                } else if chars_eq(key.as_slice(), vertical_key.as_slice()) {
                    match parse_bool(value.as_slice(), true_word.as_slice(), false_word.as_slice()) {
                        Some(b) => {
                            vertical_to_use = b;
                        },
                        None => {
                            return Err(value_message(key.as_slice(), value.as_slice()));
                        },
                    }
                } else {
                    return Err(unknown_message(key.as_slice()));
                }
            },
        }
        i = i + 1;
    }
    Ok(MirrorParams { horizontal: horizontal_to_use, vertical: vertical_to_use })
}

/// The image flipped left to right: pixel (`x`, `y`) takes the bytes of
/// pixel (`w - 1 - x`, `y`); bytes past the `w * h` pixels stay.
pub open spec fn flipped_h(img: Seq<u8>, w: int, h: int) -> Seq<u8> {
    Seq::new(
        img.len(),
        |i: int|
            if i < w * h * 4 {
                img[byte_index(w, w - 1 - (i / 4) % w, (i / 4) / w, i % 4)]
            } else {
                img[i]
            },
    )
}

/// The image flipped top to bottom: pixel (`x`, `y`) takes the bytes of
/// pixel (`x`, `h - 1 - y`); bytes past the `w * h` pixels stay.
pub open spec fn flipped_v(img: Seq<u8>, w: int, h: int) -> Seq<u8> {
    Seq::new(
        img.len(),
        |i: int|
            if i < w * h * 4 {
                img[byte_index(w, (i / 4) % w, h - 1 - (i / 4) / w, i % 4)]
            } else {
                img[i]
            },
    )
}

/// The image after the flips that `p` asks for: left to right first, then
/// top to bottom.
pub open spec fn mirrored(img: Seq<u8>, w: int, h: int, p: MirrorParams) -> Seq<u8> {
    let a = if p.horizontal {
        flipped_h(img, w, h)
    } else {
        img
    };
    if p.vertical {
        flipped_v(a, w, h)
    } else {
        a
    }
}

/// `s` with its `b` bytes from `p` and its `b` bytes from `q` exchanged.
pub open spec fn swapped(s: Seq<u8>, p: int, q: int, b: int) -> Seq<u8> {
    Seq::new(
        s.len(),
        |i: int|
            if p <= i < p + b {
                s[i - p + q]
            } else if q <= i < q + b {
                s[i - q + p]
            } else {
                s[i]
            },
    )
}

/// Swaps the four bytes at `p` with the four bytes at `q`.
fn swap_pixels(data: &mut [u8], p: usize, q: usize)
    requires
        p + 4 <= q,
        q + 4 <= old(data)@.len(),
    ensures
        final(data)@ == swapped(old(data)@, p as int, q as int, 4),
{
    let mut b: usize = 0;
    assert(old(data)@ =~= swapped(old(data)@, p as int, q as int, 0));
    while b < 4
        invariant
            p + 4 <= q,
            q + 4 <= old(data)@.len(),
            b <= 4,
            data@ == swapped(old(data)@, p as int, q as int, b as int),
        decreases 4 - b,
    {
        let t = data[p + b];
        data[p + b] = data[q + b];
        data[q + b] = t;
        b = b + 1;
        assert(data@ =~= swapped(old(data)@, p as int, q as int, b as int));
    }
}

/// An image one pixel wide (or empty) is its own left-to-right flip.
proof fn lemma_narrow_flip_h(img: Seq<u8>, w: int, h: int)
    requires
        0 <= w < 2,
        0 <= h,
    ensures
        flipped_h(img, w, h) == img,
{
    let f = flipped_h(img, w, h);
    assert forall|i: int| 0 <= i < img.len() implies f[i] == img[i] by {
        if i < w * h * 4 {
            lemma_index_decompose(w, h, i);
        }
    }
    assert(f =~= img);
}

/// An image one pixel high (or empty) is its own top-to-bottom flip.
proof fn lemma_short_flip_v(img: Seq<u8>, w: int, h: int)
    requires
        0 <= w,
        0 <= h < 2,
    ensures
        flipped_v(img, w, h) == img,
{
    let f = flipped_v(img, w, h);
    assert forall|i: int| 0 <= i < img.len() implies f[i] == img[i] by {
        if i < w * h * 4 {
            lemma_index_decompose(w, h, i);
        }
    }
    assert(f =~= img);
}

/// Flips the `w * h` pixels at the front of `data` left to right.
fn flip_horizontal(data: &mut [u8], w: u32, h: u32)
    requires
        w >= 2 ==> w * h <= 0x4000_0000 && old(data)@.len() >= w * h * 4,
    ensures
        final(data)@ == flipped_h(old(data)@, w as int, h as int),
{
    let ghost img = data@;
    if w < 2 {
        proof {
            lemma_narrow_flip_h(img, w as int, h as int);
        }
        return;
    }
    let ghost wi = w as int;
    let ghost hi = h as int;
    let mut row: u32 = 0;
    while row < h
        invariant
            img == old(data)@,
            wi == w as int,
            hi == h as int,
            w * h <= 0x4000_0000,
            img.len() >= w * h * 4,
            row <= h,
            data@.len() == img.len(),
            forall|y: int, x: int, c: int|
                0 <= y < hi && 0 <= x < wi && 0 <= c < 4 ==> #[trigger] data@[byte_index(
                    wi,
                    x,
                    y,
                    c,
                )] == if y < row {
                    img[byte_index(wi, wi - 1 - x, y, c)]
                } else {
                    img[byte_index(wi, x, y, c)]
                },
            forall|i: int| wi * hi * 4 <= i < img.len() ==> #[trigger] data@[i] == img[i],
        decreases h - row,
    {
        let mut col: u32 = 0;
        while col < w / 2
            invariant
                img == old(data)@,
                wi == w as int,
                hi == h as int,
                w * h <= 0x4000_0000,
                img.len() >= w * h * 4,
                row < h,
                col <= w / 2,
                data@.len() == img.len(),
                forall|y: int, x: int, c: int|
                    0 <= y < hi && 0 <= x < wi && 0 <= c < 4 ==> #[trigger] data@[byte_index(
                        wi,
                        x,
                        y,
                        c,
                    )] == if y < row || (y == row && (x < col || x >= wi - col)) {
                        img[byte_index(wi, wi - 1 - x, y, c)]
                    } else {
                        img[byte_index(wi, x, y, c)]
                    },
                forall|i: int| wi * hi * 4 <= i < img.len() ==> #[trigger] data@[i] == img[i],
            decreases w / 2 - col,
        {
            let ghost rw = row as int;
            let ghost cl = col as int;
            let ghost cr = wi - 1 - cl;
            proof {
                lemma_byte_index_bound(wi, hi, cr, rw, 3);
                lemma_byte_index_bound(wi, hi, cl, rw, 3);
                lemma_byte_index(wi, cl, rw, 0);
                lemma_byte_index(wi, cr, rw, 0);
            }
            let left = ((row * w + col) * 4) as usize;
            let right = ((row * w + (w - 1 - col)) * 4) as usize;
            assert(left == byte_index(wi, cl, rw, 0));
            assert(right == byte_index(wi, cr, rw, 0));
            let ghost before = data@;
            swap_pixels(data, left, right);
            proof {
                assert forall|y: int, x: int, c: int|
                    0 <= y < hi && 0 <= x < wi && 0 <= c < 4 implies #[trigger] data@[byte_index(
                        wi,
                        x,
                        y,
                        c,
                    )] == if y < row || (y == row && (x < col + 1 || x >= wi - (col + 1))) {
                        img[byte_index(wi, wi - 1 - x, y, c)]
                    } else {
                        img[byte_index(wi, x, y, c)]
                    } by {
                    let k = byte_index(wi, x, y, c);
                    lemma_byte_index_bound(wi, hi, x, y, c);
                    if y == rw && x == cl {
                        assert(k == left + c);
                        assert(data@[k] == before[right + c]);
                        assert(before[right + c] == before[byte_index(wi, cr, rw, c)]);
                    } else if y == rw && x == cr {
                        assert(k == right + c);
                        assert(data@[k] == before[left + c]);
                        assert(before[left + c] == before[byte_index(wi, cl, rw, c)]);
                    } else {
                        if left <= k < left + 4 {
                            lemma_pixel_of_index(wi, x, y, c, cl, rw);
                        }
                        if right <= k < right + 4 {
                            lemma_pixel_of_index(wi, x, y, c, cr, rw);
                        }
                        assert(data@[k] == before[k]);
                    }
                }
            }
            col = col + 1;
        }
        proof {
            assert forall|y: int, x: int, c: int|
                0 <= y < hi && 0 <= x < wi && 0 <= c < 4 implies #[trigger] data@[byte_index(
                    wi,
                    x,
                    y,
                    c,
                )] == if y < row + 1 {
                    img[byte_index(wi, wi - 1 - x, y, c)]
                } else {
                    img[byte_index(wi, x, y, c)]
                } by {
                if y == row && !(x < col || x >= wi - col) {
                    assert(x == wi - 1 - x);
                }
            }
        }
        row = row + 1;
    }
    proof {
        let target = flipped_h(img, wi, hi);
        assert forall|i: int| 0 <= i < img.len() implies data@[i] == target[i] by {
            if i < wi * hi * 4 {
                lemma_index_decompose(wi, hi, i);
                let x = (i / 4) % wi;
                let y = (i / 4) / wi;
                let c = i % 4;
                assert(data@[byte_index(wi, x, y, c)] == img[byte_index(wi, wi - 1 - x, y, c)]);
            }
        }
        assert(data@ =~= target);
    }
}

/// Flips the `w * h` pixels at the front of `data` top to bottom.
fn flip_vertical(data: &mut [u8], w: u32, h: u32)
    requires
        h >= 2 ==> w * h <= 0x4000_0000 && old(data)@.len() >= w * h * 4,
    ensures
        final(data)@ == flipped_v(old(data)@, w as int, h as int),
{
    let ghost img = data@;
    if h < 2 {
        proof {
            lemma_short_flip_v(img, w as int, h as int);
        }
        return;
    }
    let ghost wi = w as int;
    let ghost hi = h as int;
    let mut row: u32 = 0;
    while row < h / 2
        invariant
            img == old(data)@,
            wi == w as int,
            hi == h as int,
            w * h <= 0x4000_0000,
            img.len() >= w * h * 4,
            row <= h / 2,
            data@.len() == img.len(),
            forall|y: int, x: int, c: int|
                0 <= y < hi && 0 <= x < wi && 0 <= c < 4 ==> #[trigger] data@[byte_index(
                    wi,
                    x,
                    y,
                    c,
                )] == if y < row || y >= hi - row {
                    img[byte_index(wi, x, hi - 1 - y, c)]
                } else {
                    img[byte_index(wi, x, y, c)]
                },
            forall|i: int| wi * hi * 4 <= i < img.len() ==> #[trigger] data@[i] == img[i],
        decreases h / 2 - row,
    {
        let mut col: u32 = 0;
        while col < w
            invariant
                img == old(data)@,
                wi == w as int,
                hi == h as int,
                w * h <= 0x4000_0000,
                img.len() >= w * h * 4,
                row < h / 2,
                col <= w,
                data@.len() == img.len(),
                forall|y: int, x: int, c: int|
                    0 <= y < hi && 0 <= x < wi && 0 <= c < 4 ==> #[trigger] data@[byte_index(
                        wi,
                        x,
                        y,
                        c,
                    )] == if y < row || y >= hi - row || ((y == row || y == hi - 1 - row) && x
                        < col) {
                        img[byte_index(wi, x, hi - 1 - y, c)]
                    } else {
                        img[byte_index(wi, x, y, c)]
                    },
                forall|i: int| wi * hi * 4 <= i < img.len() ==> #[trigger] data@[i] == img[i],
            decreases w - col,
        {
            let ghost ru = row as int;
            let ghost rd = hi - 1 - ru;
            let ghost cl = col as int;
            proof {
                lemma_byte_index_bound(wi, hi, cl, ru, 3);
                lemma_byte_index_bound(wi, hi, cl, rd, 3);
                lemma_byte_index(wi, cl, ru, 0);
                lemma_byte_index(wi, cl, rd, 0);
                assert(ru * wi + cl + wi <= rd * wi + cl) by (nonlinear_arith)
                    requires
                        ru < rd,
                        0 <= wi,
                ;
            }
            let pixel_up = ((row * w + col) * 4) as usize;
            let pixel_down = (((h - 1 - row) * w + col) * 4) as usize;
            assert(pixel_up == byte_index(wi, cl, ru, 0));
            assert(pixel_down == byte_index(wi, cl, rd, 0));
            let ghost before = data@;
            swap_pixels(data, pixel_up, pixel_down);
            proof {
                assert forall|y: int, x: int, c: int|
                    0 <= y < hi && 0 <= x < wi && 0 <= c < 4 implies #[trigger] data@[byte_index(
                        wi,
                        x,
                        y,
                        c,
                    )] == if y < row || y >= hi - row || ((y == row || y == hi - 1 - row) && x
                        < col + 1) {
                        img[byte_index(wi, x, hi - 1 - y, c)]
                    } else {
                        img[byte_index(wi, x, y, c)]
                    } by {
                    let k = byte_index(wi, x, y, c);
                    lemma_byte_index_bound(wi, hi, x, y, c);
                    if y == ru && x == cl {
                        assert(k == pixel_up + c);
                        assert(data@[k] == before[pixel_down + c]);
                        assert(before[pixel_down + c] == before[byte_index(wi, cl, rd, c)]);
                    } else if y == rd && x == cl {
                        assert(k == pixel_down + c);
                        assert(data@[k] == before[pixel_up + c]);
                        assert(before[pixel_up + c] == before[byte_index(wi, cl, ru, c)]);
                    } else {
                        if pixel_up <= k < pixel_up + 4 {
                            lemma_pixel_of_index(wi, x, y, c, cl, ru);
                        }
                        if pixel_down <= k < pixel_down + 4 {
                            lemma_pixel_of_index(wi, x, y, c, cl, rd);
                        }
                        assert(data@[k] == before[k]);
                    }
                }
            }
            col = col + 1;
        }
        row = row + 1;
    }
    proof {
        let target = flipped_v(img, wi, hi);
        assert forall|i: int| 0 <= i < img.len() implies data@[i] == target[i] by {
            if i < wi * hi * 4 {
                lemma_index_decompose(wi, hi, i);
                let x = (i / 4) % wi;
                let y = (i / 4) / wi;
                let c = i % 4;
                if !(y < row || y >= hi - row) {
                    assert(y == hi - 1 - y);
                }
                assert(data@[byte_index(wi, x, y, c)] == img[byte_index(wi, x, hi - 1 - y, c)]);
            }
        }
        assert(data@ =~= target);
    }
}

/// Flips the `width * height` RGBA pixels at the front of `rgba_data` as
/// `params` asks: left to right, then top to bottom.
pub fn apply_mirror_logic(rgba_data: &mut [u8], width: u32, height: u32, params: MirrorParams)
    requires
        (params.horizontal && width >= 2) || (params.vertical && height >= 2) ==> width * height
            <= 0x4000_0000 && old(rgba_data)@.len() >= width * height * 4,
    ensures
        final(rgba_data)@ == mirrored(old(rgba_data)@, width as int, height as int, params),
{
    if params.horizontal {
        flip_horizontal(rgba_data, width, height);
    }
    if params.vertical {
        flip_vertical(rgba_data, width, height);
    }
}

/// Reads the mirror parameters from `params_str`, then flips the
/// `width * height` RGBA pixels of `rgba_data` as they ask. When the
/// parameters do not read, the image is left as it is and the message comes
/// back.
pub fn mirror_image(width: u32, height: u32, rgba_data: &mut [u8], params_str: &str) -> (r:
    Result<(), String>)
    requires
        width * height * 4 <= u32::MAX,
        old(rgba_data)@.len() == width * height * 4,
    ensures
        match mirror_params_of(params_str@) {
            Ok(p) => r is Ok && final(rgba_data)@ == mirrored(
                old(rgba_data)@,
                width as int,
                height as int,
                p,
            ),
            Err(m) => r matches Err(x) && x@ == m && final(rgba_data)@ == old(rgba_data)@,
        },
{
    match parse_mirror_params(params_str) {
        Ok(params_to_use) => {
            apply_mirror_logic(rgba_data, width, height, params_to_use);
            Ok(())
        },
        Err(e) => Err(e),
    }
}

/// Flipping left to right twice gives the image back.
proof fn lemma_flip_h_twice(img: Seq<u8>, w: int, h: int)
    requires
        0 <= w,
        0 <= h,
        img.len() >= w * h * 4,
    ensures
        flipped_h(flipped_h(img, w, h), w, h) == img,
{
    let a = flipped_h(img, w, h);
    let b = flipped_h(a, w, h);
    assert forall|i: int| 0 <= i < img.len() implies b[i] == img[i] by {
        if i < w * h * 4 {
            lemma_index_decompose(w, h, i);
            let x = (i / 4) % w;
            let y = (i / 4) / w;
            let c = i % 4;
            let j = byte_index(w, w - 1 - x, y, c);
            lemma_byte_index(w, w - 1 - x, y, c);
            lemma_byte_index_bound(w, h, w - 1 - x, y, c);
            assert(a[j] == img[byte_index(w, w - 1 - (w - 1 - x), y, c)]);
        }
    }
    assert(b =~= img);
}

/// Flipping top to bottom twice gives the image back.
proof fn lemma_flip_v_twice(img: Seq<u8>, w: int, h: int)
    requires
        0 <= w,
        0 <= h,
        img.len() >= w * h * 4,
    ensures
        flipped_v(flipped_v(img, w, h), w, h) == img,
{
    let a = flipped_v(img, w, h);
    let b = flipped_v(a, w, h);
    assert forall|i: int| 0 <= i < img.len() implies b[i] == img[i] by {
        if i < w * h * 4 {
            lemma_index_decompose(w, h, i);
            let x = (i / 4) % w;
            let y = (i / 4) / w;
            let c = i % 4;
            let j = byte_index(w, x, h - 1 - y, c);
            lemma_byte_index(w, x, h - 1 - y, c);
            lemma_byte_index_bound(w, h, x, h - 1 - y, c);
            assert(a[j] == img[byte_index(w, x, h - 1 - (h - 1 - y), c)]);
        }
    }
    assert(b =~= img);
}

/// The two flips can be made in either order.
proof fn lemma_flips_commute(img: Seq<u8>, w: int, h: int)
    requires
        0 <= w,
        0 <= h,
        img.len() >= w * h * 4,
    ensures
        flipped_v(flipped_h(img, w, h), w, h) == flipped_h(flipped_v(img, w, h), w, h),
{
    let hv = flipped_v(flipped_h(img, w, h), w, h);
    let vh = flipped_h(flipped_v(img, w, h), w, h);
    assert forall|i: int| 0 <= i < img.len() implies hv[i] == vh[i] by {
        if i < w * h * 4 {
            lemma_index_decompose(w, h, i);
            let x = (i / 4) % w;
            let y = (i / 4) / w;
            let c = i % 4;
            lemma_byte_index(w, x, h - 1 - y, c);
            lemma_byte_index_bound(w, h, x, h - 1 - y, c);
            lemma_byte_index(w, w - 1 - x, y, c);
            lemma_byte_index_bound(w, h, w - 1 - x, y, c);
        }
    }
    assert(hv =~= vh);
}

/// Mirroring twice with the same parameters gives the image back.
pub proof fn law_mirror_involution(img: Seq<u8>, w: int, h: int, p: MirrorParams)
    requires
        0 <= w,
        0 <= h,
        img.len() >= w * h * 4,
    ensures
        mirrored(mirrored(img, w, h, p), w, h, p) == img,
{
    lemma_flip_h_twice(img, w, h);
    lemma_flip_v_twice(img, w, h);
    let a = flipped_h(img, w, h);
    lemma_flip_v_twice(a, w, h);
    lemma_flips_commute(flipped_v(a, w, h), w, h);
    lemma_flip_v_twice(flipped_v(a, w, h), w, h);
    lemma_flip_h_twice(flipped_v(flipped_v(a, w, h), w, h), w, h);
}

/// What the pieces give, when they read, from the values set so far: each
/// flag is the value of the last piece that sets it, or the value so far
/// when none does.
proof fn lemma_mirror_parse_flags(pieces: Seq<Seq<char>>, h0: bool, v0: bool, i: int)
    requires
        mirror_parse(pieces, h0, v0) is Ok,
    ensures
        last_setting(pieces, "vertical"@, i) ==> bool_value(setting_value(pieces[i])) == Some(
            mirror_parse(pieces, h0, v0)->Ok_0.vertical,
        ),
        last_setting(pieces, "horizontal"@, i) ==> bool_value(setting_value(pieces[i])) == Some(
            mirror_parse(pieces, h0, v0)->Ok_0.horizontal,
        ),
        never_set(pieces, "vertical"@) ==> mirror_parse(pieces, h0, v0)->Ok_0.vertical == v0,
        never_set(pieces, "horizontal"@) ==> mirror_parse(pieces, h0, v0)->Ok_0.horizontal == h0,
    decreases pieces.len(),
{
    reveal_strlit("vertical");
    reveal_strlit("horizontal");
    assert("vertical"@ != "horizontal"@) by {
        assert("vertical"@.len() != "horizontal"@.len());
    }
    if pieces.len() > 0 {
        let rest = pieces.drop_first();
        let (h1, v1) = match setting_of(pieces[0]) {
            SettingModel::Pair(k, v) => if k == "horizontal"@ {
                (bool_value(v)->0, v0)
            } else if k == "vertical"@ {
                (h0, bool_value(v)->0)
            } else {
                (h0, v0)
            },
            _ => (h0, v0),
        };
        assert(mirror_parse(pieces, h0, v0) == mirror_parse(rest, h1, v1));
        lemma_mirror_parse_flags(rest, h1, v1, i - 1);
        lemma_mirror_parse_flags(rest, h1, v1, -1);
        assert forall|j: int| 0 <= j < rest.len() implies rest[j] == pieces[j + 1] by {}
        if last_setting(pieces, "vertical"@, i) && i > 0 {
            assert(last_setting(rest, "vertical"@, i - 1)) by {
                assert forall|j: int| i - 1 < j < rest.len() implies !sets_key(
                    #[trigger] rest[j],
                    "vertical"@,
                ) by {
                    assert(rest[j] == pieces[j + 1]);
                }
            }
        }
        if last_setting(pieces, "vertical"@, 0) {
            assert(never_set(rest, "vertical"@)) by {
                assert forall|j: int| 0 <= j < rest.len() implies !sets_key(
                    #[trigger] rest[j],
                    "vertical"@,
                ) by {
                    assert(rest[j] == pieces[j + 1]);
                }
            }
        }
        if last_setting(pieces, "horizontal"@, i) && i > 0 {
            assert(last_setting(rest, "horizontal"@, i - 1)) by {
                assert forall|j: int| i - 1 < j < rest.len() implies !sets_key(
                    #[trigger] rest[j],
                    "horizontal"@,
                ) by {
                    assert(rest[j] == pieces[j + 1]);
                }
            }
        }
        if last_setting(pieces, "horizontal"@, 0) {
            assert(never_set(rest, "horizontal"@)) by {
                assert forall|j: int| 0 <= j < rest.len() implies !sets_key(
                    #[trigger] rest[j],
                    "horizontal"@,
                ) by {
                    assert(rest[j] == pieces[j + 1]);
                }
            }
        }
        if never_set(pieces, "vertical"@) {
            assert(!sets_key(pieces[0], "vertical"@));
            assert(never_set(rest, "vertical"@)) by {
                assert forall|j: int| 0 <= j < rest.len() implies !sets_key(
                    #[trigger] rest[j],
                    "vertical"@,
                ) by {
                    assert(rest[j] == pieces[j + 1]);
                }
            }
        }
        if never_set(pieces, "horizontal"@) {
            assert(!sets_key(pieces[0], "horizontal"@));
            assert(never_set(rest, "horizontal"@)) by {
                assert forall|j: int| 0 <= j < rest.len() implies !sets_key(
                    #[trigger] rest[j],
                    "horizontal"@,
                ) by {
                    assert(rest[j] == pieces[j + 1]);
                }
            }
        }
    }
}

/// Each flag of a parameter string that reads is the value written in the
/// last piece that sets it (`vertical=false` turns the vertical flip off,
/// `vertical=true` on), and is off when no piece sets it.
pub proof fn law_mirror_flags_follow_last_setting(s: Seq<char>, i: int)
    requires
        mirror_params_of(s) is Ok,
    ensures
        last_setting(pieces_of(s), "vertical"@, i) ==> bool_value(
            setting_value(pieces_of(s)[i]),
        ) == Some(mirror_params_of(s)->Ok_0.vertical),
        last_setting(pieces_of(s), "horizontal"@, i) ==> bool_value(
            setting_value(pieces_of(s)[i]),
        ) == Some(mirror_params_of(s)->Ok_0.horizontal),
        never_set(pieces_of(s), "vertical"@) ==> !mirror_params_of(s)->Ok_0.vertical,
        never_set(pieces_of(s), "horizontal"@) ==> !mirror_params_of(s)->Ok_0.horizontal,
{
    lemma_mirror_parse_flags(pieces_of(s), false, false, i);
}

/// Mirroring moves pixels and nothing else: channel `c` of pixel (`x`, `y`)
/// afterwards is that channel of the pixel at the mirrored column when the
/// image is flipped left to right, and at the mirrored row when it is
/// flipped top to bottom.
pub proof fn law_mirror_moves_pixels(
    img: Seq<u8>,
    w: int,
    h: int,
    p: MirrorParams,
    x: int,
    y: int,
    c: int,
)
    requires
        0 <= x < w,
        0 <= y < h,
        0 <= c < 4,
        img.len() >= w * h * 4,
    ensures
        mirrored(img, w, h, p).len() == img.len(),
        channel(mirrored(img, w, h, p), w, x, y, c) == channel(
            img,
            w,
            if p.horizontal {
                w - 1 - x
            } else {
                x
            },
            if p.vertical {
                h - 1 - y
            } else {
                y
            },
            c,
        ),
{
    let a = if p.horizontal {
        flipped_h(img, w, h)
    } else {
        img
    };
    let y2 = if p.vertical {
        h - 1 - y
    } else {
        y
    };
    lemma_byte_index(w, x, y, c);
    lemma_byte_index_bound(w, h, x, y, c);
    lemma_byte_index(w, x, y2, c);
    lemma_byte_index_bound(w, h, x, y2, c);
    assert(channel(mirrored(img, w, h, p), w, x, y, c) == channel(a, w, x, y2, c));
}

} // verus!
