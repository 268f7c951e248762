//! Character-level text handling: whitespace trimming, splitting on
//! separators, decimal numbers.
use vstd::prelude::*;
use crate::strings::push_char;

verus! {

/// Unicode `White_Space`, the property that `char::is_whitespace` and
/// `str::trim` go by.
pub open spec fn is_ws(c: char) -> bool {
    let u = c as u32;
    ||| 9 <= u <= 13
    ||| u == 0x20
    ||| u == 0x85
    ||| u == 0xa0
    ||| u == 0x1680
    ||| 0x2000 <= u <= 0x200a
    ||| u == 0x2028
    ||| u == 0x2029
    ||| u == 0x202f
    ||| u == 0x205f
    ||| u == 0x3000
}

/// `s` without its leading whitespace.
pub open spec fn trim_start(s: Seq<char>) -> Seq<char>
    decreases s.len(),
{
    if s.len() > 0 && is_ws(s[0]) {
        trim_start(s.drop_first())
    } else {
        s
    }
}

/// `s` without its trailing whitespace.
pub open spec fn trim_end(s: Seq<char>) -> Seq<char>
    decreases s.len(),
{
    if s.len() > 0 && is_ws(s.last()) {
        trim_end(s.drop_last())
    } else {
        s
    }
}

/// `s` without leading and trailing whitespace (`str::trim`).
pub open spec fn trim(s: Seq<char>) -> Seq<char> {
    trim_end(trim_start(s))
}

/// The pieces of `s` between occurrences of `sep`, in order (`str::split`
/// with a `char`): `n` separators give `n + 1` pieces.
pub open spec fn split_on(s: Seq<char>, sep: char) -> Seq<Seq<char>>
    decreases s.len(),
{
    if s.len() == 0 {
        seq![Seq::<char>::empty()]
    } else {
        let rest = split_on(s.drop_first(), sep);
        if s[0] == sep {
            seq![Seq::<char>::empty()] + rest
        } else {
            rest.update(0, seq![s[0]] + rest[0])
        }
    }
}

/// The pieces of `s` between non-overlapping occurrences of the two-character
/// pattern `a b`, searched from the left (`str::split` with a two-character
/// `&str` whose characters differ).
pub open spec fn split_pat(s: Seq<char>, a: char, b: char) -> Seq<Seq<char>>
    decreases s.len(),
{
    if s.len() < 2 {
        seq![s]
    } else if s[0] == a && s[1] == b {
        seq![Seq::<char>::empty()] + split_pat(s.skip(2), a, b)
    } else {
        let rest = split_pat(s.drop_first(), a, b);
        rest.update(0, seq![s[0]] + rest[0])
    }
}

/// True for the ASCII digits `0`..`9`.
pub open spec fn is_digit(c: char) -> bool {
    48 <= (c as u32) <= 57
}

/// Every character of `d` is an ASCII digit.
pub open spec fn all_digits(d: Seq<char>) -> bool {
    forall|i: int| 0 <= i < d.len() ==> is_digit(#[trigger] d[i])
}

/// The value of a string of decimal digits.
pub open spec fn digits_value(d: Seq<char>) -> nat
    decreases d.len(),
{
    if d.len() == 0 {
        0
    } else {
        (digits_value(d.drop_last()) * 10 + ((d.last() as u32) - 48)) as nat
    }
}

/// What `str::parse` gives for an unsigned integer type whose largest value
/// is `max`: an optional `+`, then at least one ASCII digit and nothing else,
/// with a value no greater than `max`.
pub open spec fn parse_uint_spec(s: Seq<char>, max: nat) -> Option<nat> {
    let d = if s.len() > 0 && s[0] == '+' {
        s.drop_first()
    } else {
        s
    };
    if d.len() == 0 || !all_digits(d) || digits_value(d) > max {
        None
    } else {
        Some(digits_value(d))
    }
}

/// The ASCII digit for `d < 10`.
pub open spec fn digit_char(d: nat) -> char {
    ((48 + d) as u8) as char
}

/// The decimal representation of `n`, without leading zeros (`Display` for
/// unsigned integers).
pub open spec fn decimal(n: nat) -> Seq<char>
    decreases n,
{
    if n < 10 {
        seq![digit_char(n)]
    } else {
        decimal(n / 10).push(digit_char(n % 10))
    }
}

/// Dropping leading whitespace one character at a time.
proof fn lemma_trim_start_skip(s: Seq<char>, k: int)
    requires
        0 <= k <= s.len(),
        forall|j: int| 0 <= j < k ==> is_ws(#[trigger] s[j]),
    ensures
        trim_start(s) == trim_start(s.skip(k)),
    decreases k,
{
    if k > 0 {
        assert(is_ws(s[0]));
        lemma_trim_start_skip(s.drop_first(), k - 1);
        assert(s.drop_first().skip(k - 1) =~= s.skip(k));
    } else {
        assert(s.skip(0) =~= s);
    }
}

/// Dropping trailing whitespace one character at a time.
proof fn lemma_trim_end_take(s: Seq<char>, k: int)
    requires
        0 <= k <= s.len(),
        forall|j: int| k <= j < s.len() ==> is_ws(#[trigger] s[j]),
    ensures
        trim_end(s) == trim_end(s.take(k)),
    decreases s.len() - k,
{
    if k < s.len() {
        assert(is_ws(s.last()));
        lemma_trim_end_take(s.drop_last(), k);
        assert(s.drop_last().take(k) =~= s.take(k));
    } else {
        assert(s.take(k) =~= s);
    }
}

/// The bounds `(a, b)` of `trim(cs)` inside `cs`.
pub fn trim_bounds(cs: &[char]) -> (r: (usize, usize))
    ensures
        r.0 <= r.1 <= cs@.len(),
        cs@.subrange(r.0 as int, r.1 as int) == trim(cs@),
{
    let mut a: usize = 0;
    while a < cs.len() && is_whitespace(cs[a])
        invariant
            a <= cs@.len(),
            forall|j: int| 0 <= j < a ==> is_ws(#[trigger] cs@[j]),
        decreases cs@.len() - a,
    {
        a = a + 1;
    }
    proof {
        lemma_trim_start_skip(cs@, a as int);
    }
    let ghost t = cs@.skip(a as int);
    assert(trim_start(cs@) == t) by {
        if t.len() > 0 {
            assert(t[0] == cs@[a as int]);
        }
    }
    let mut b: usize = cs.len();
    while b > a && is_whitespace(cs[b - 1])
        invariant
            a <= b <= cs@.len(),
            forall|j: int| b <= j < cs@.len() ==> is_ws(#[trigger] cs@[j]),
        decreases b,
    {
        b = b - 1;
    }
    proof {
        let k = (b - a) as int;
        assert forall|j: int| k <= j < t.len() implies is_ws(#[trigger] t[j]) by {
            assert(t[j] == cs@[a + j]);
        }
        lemma_trim_end_take(t, k);
        let u = t.take(k);
        if u.len() > 0 {
            assert(u.last() == cs@[b - 1]);
        }
        assert(u =~= cs@.subrange(a as int, b as int));
    }
    (a, b)
}

/// `char::is_whitespace`.
pub fn is_whitespace(c: char) -> (r: bool)
    ensures
        r == is_ws(c),
{
    let u = c as u32;
    (9 <= u && u <= 13) || u == 0x20 || u == 0x85 || u == 0xa0 || u == 0x1680 || (0x2000 <= u
        && u <= 0x200a) || u == 0x2028 || u == 0x2029 || u == 0x202f || u == 0x205f || u == 0x3000
}

/// A copy of `cs[a..b]`.
pub fn sub_vec(cs: &[char], a: usize, b: usize) -> (r: Vec<char>)
    requires
        a <= b <= cs@.len(),
    ensures
        r@ == cs@.subrange(a as int, b as int),
{
    let mut r: Vec<char> = Vec::new();
    let mut i = a;
    while i < b
        invariant
            a <= i <= b <= cs@.len(),
            r@ == cs@.subrange(a as int, i as int),
        decreases b - i,
    {
        r.push(cs[i]);
        i = i + 1;
        assert(r@ =~= cs@.subrange(a as int, i as int));
    }
    r
}

/// `trim(cs)` as a new vector.
pub fn trimmed(cs: &[char]) -> (r: Vec<char>)
    ensures
        r@ == trim(cs@),
{
    let (a, b) = trim_bounds(cs);
    sub_vec(cs, a, b)
}

/// The views of a vector of character vectors.
pub open spec fn views(v: Seq<Vec<char>>) -> Seq<Seq<char>> {
    v.map_values(|x: Vec<char>| x@)
}

/// `split_on` of a sequence that has a prefix split off already.
proof fn lemma_split_on_step(s: Seq<char>, i: int, sep: char)
    requires
        0 <= i < s.len(),
    ensures
        split_on(s.skip(i), sep) == (if s[i] == sep {
            seq![Seq::<char>::empty()] + split_on(s.skip(i + 1), sep)
        } else {
            split_on(s.skip(i + 1), sep).update(
                0,
                seq![s[i]] + split_on(s.skip(i + 1), sep)[0],
            )
        }),
{
    assert(s.skip(i).drop_first() =~= s.skip(i + 1));
}

/// Every split has at least one piece.
pub proof fn lemma_split_on_nonempty(s: Seq<char>, sep: char)
    ensures
        split_on(s, sep).len() >= 1,
    decreases s.len(),
{
    if s.len() > 0 {
        lemma_split_on_nonempty(s.drop_first(), sep);
    }
}

/// The pieces of `cs` between occurrences of `sep` (`str::split`).
pub fn split_on_char(cs: &[char], sep: char) -> (r: Vec<Vec<char>>)
    ensures
        views(r@) == split_on(cs@, sep),
{
    let mut pieces: Vec<Vec<char>> = Vec::new();
    let mut cur: Vec<char> = Vec::new();
    let mut i: usize = 0;
    proof {
        assert(cs@.skip(0) =~= cs@);
        lemma_split_on_nonempty(cs@, sep);
        assert(seq![Seq::<char>::empty() + split_on(cs@, sep)[0]] + split_on(cs@, sep).drop_first()
            =~= split_on(cs@, sep));
        assert(views(pieces@) =~= Seq::<Seq<char>>::empty());
    }
    while i < cs.len()
        invariant
            i <= cs@.len(),
            ({
                let rest = split_on(cs@.skip(i as int), sep);
                views(pieces@) + seq![cur@ + rest[0]] + rest.drop_first() == split_on(cs@, sep)
            }),
        decreases cs@.len() - i,
    {
        proof {
            lemma_split_on_step(cs@, i as int, sep);
            lemma_split_on_nonempty(cs@.skip(i + 1), sep);
        }
        let ghost old_pieces = views(pieces@);
        let ghost old_cur = cur@;
        let ghost rest1 = split_on(cs@.skip(i + 1), sep);
        if cs[i] == sep {
            let done = cur;
            pieces.push(done);
            cur = Vec::new();
            proof {
                assert(views(pieces@) =~= old_pieces.push(old_cur));
                let rest0 = split_on(cs@.skip(i as int), sep);
                assert(rest0 == seq![Seq::<char>::empty()] + rest1);
                assert(cur@ + rest1[0] =~= rest1[0]);
                assert(old_cur + rest0[0] =~= old_cur);
                assert(rest0.drop_first() =~= rest1);
                assert(rest1 =~= seq![rest1[0]] + rest1.drop_first());
                assert(views(pieces@) + seq![cur@ + rest1[0]] + rest1.drop_first()
                    =~= old_pieces.push(old_cur) + rest1);
                assert(old_pieces + seq![old_cur + rest0[0]] + rest0.drop_first()
                    =~= old_pieces.push(old_cur) + rest1);
            }
        } else {
            cur.push(cs[i]);
            proof {
                let rest0 = split_on(cs@.skip(i as int), sep);
                assert(rest0 == rest1.update(0, seq![cs@[i as int]] + rest1[0]));
                assert(cur@ + rest1[0] =~= old_cur + rest0[0]);
                assert(rest0.drop_first() =~= rest1.drop_first());
                assert(views(pieces@) + seq![cur@ + rest1[0]] + rest1.drop_first() =~= old_pieces
                    + seq![old_cur + rest0[0]] + rest0.drop_first());
            }
        }
        i = i + 1;
    }
    let ghost before = views(pieces@);
    let ghost last = cur@;
    pieces.push(cur);
    proof {
        assert(cs@.skip(i as int) =~= Seq::<char>::empty());
        let rest = split_on(cs@.skip(i as int), sep);
        assert(rest == seq![Seq::<char>::empty()]);
        assert(views(pieces@) =~= before + seq![last + rest[0]] + rest.drop_first());
    }
    pieces
}

/// `split_pat` of a sequence that has a prefix split off already.
proof fn lemma_split_pat_step(s: Seq<char>, i: int, a: char, b: char)
    requires
        0 <= i < s.len(),
    ensures
        i + 1 < s.len() && s[i] == a && s[i + 1] == b ==> split_pat(s.skip(i), a, b) == seq![
            Seq::<char>::empty(),
        ] + split_pat(s.skip(i + 2), a, b),
        !(i + 1 < s.len() && s[i] == a && s[i + 1] == b) ==> split_pat(s.skip(i), a, b)
            == split_pat(s.skip(i + 1), a, b).update(
            0,
            seq![s[i]] + split_pat(s.skip(i + 1), a, b)[0],
        ),
{
    let t = s.skip(i);
    if t.len() < 2 {
        assert(s.skip(i + 1) =~= Seq::<char>::empty());
        assert(seq![s[i]] =~= t);
        assert(seq![s[i]] + Seq::<char>::empty() =~= t);
    } else {
        assert(t.drop_first() =~= s.skip(i + 1));
        assert(t.skip(2) =~= s.skip(i + 2));
    }
}

/// Every split has at least one piece.
pub proof fn lemma_split_pat_nonempty(s: Seq<char>, a: char, b: char)
    ensures
        split_pat(s, a, b).len() >= 1,
    decreases s.len(),
{
    if s.len() >= 2 {
        lemma_split_pat_nonempty(s.drop_first(), a, b);
        lemma_split_pat_nonempty(s.skip(2), a, b);
    }
}

/// The pieces of `cs` between non-overlapping occurrences of the two
/// characters `a b`, searched from the left.
pub fn split_on_pair(cs: &[char], a: char, b: char) -> (r: Vec<Vec<char>>)
    ensures
        views(r@) == split_pat(cs@, a, b),
{
    let mut pieces: Vec<Vec<char>> = Vec::new();
    let mut cur: Vec<char> = Vec::new();
    let mut i: usize = 0;
    proof {
        assert(cs@.skip(0) =~= cs@);
        lemma_split_pat_nonempty(cs@, a, b);
        assert(seq![Seq::<char>::empty() + split_pat(cs@, a, b)[0]] + split_pat(
            cs@,
            a,
            b,
        ).drop_first() =~= split_pat(cs@, a, b));
        assert(views(pieces@) =~= Seq::<Seq<char>>::empty());
    }
    while i < cs.len()
        invariant
            i <= cs@.len(),
            ({
                let rest = split_pat(cs@.skip(i as int), a, b);
                views(pieces@) + seq![cur@ + rest[0]] + rest.drop_first() == split_pat(cs@, a, b)
            }),
        decreases cs@.len() - i,
    {
        proof {
            lemma_split_pat_step(cs@, i as int, a, b);
            lemma_split_pat_nonempty(cs@.skip(i + 1), a, b);
            if i + 2 <= cs@.len() {
                lemma_split_pat_nonempty(cs@.skip(i + 2), a, b);
            }
        }
        let ghost old_pieces = views(pieces@);
        let ghost old_cur = cur@;
        let ghost rest0 = split_pat(cs@.skip(i as int), a, b);
        if i + 1 < cs.len() && cs[i] == a && cs[i + 1] == b {
            let ghost rest2 = split_pat(cs@.skip(i + 2), a, b);
            let done = cur;
            pieces.push(done);
            cur = Vec::new();
            proof {
                assert(views(pieces@) =~= old_pieces.push(old_cur));
                assert(cur@ + rest2[0] =~= rest2[0]);
                assert(old_cur + rest0[0] =~= old_cur);
                assert(rest0.drop_first() =~= rest2);
                assert(rest2 =~= seq![rest2[0]] + rest2.drop_first());
                assert(views(pieces@) + seq![cur@ + rest2[0]] + rest2.drop_first()
                    =~= old_pieces.push(old_cur) + rest2);
                assert(old_pieces + seq![old_cur + rest0[0]] + rest0.drop_first()
                    =~= old_pieces.push(old_cur) + rest2);
            }
            i = i + 2;
        } else {
            let ghost rest1 = split_pat(cs@.skip(i + 1), a, b);
            cur.push(cs[i]);
            proof {
                assert(cur@ + rest1[0] =~= old_cur + rest0[0]);
                assert(rest0.drop_first() =~= rest1.drop_first());
                assert(views(pieces@) + seq![cur@ + rest1[0]] + rest1.drop_first() =~= old_pieces
                    + seq![old_cur + rest0[0]] + rest0.drop_first());
            }
            i = i + 1;
        }
    }
    let ghost before = views(pieces@);
    let ghost last = cur@;
    pieces.push(cur);
    proof {
        assert(cs@.skip(i as int) =~= Seq::<char>::empty());
        let rest = split_pat(cs@.skip(i as int), a, b);
        assert(rest == seq![Seq::<char>::empty()]);
        assert(views(pieces@) =~= before + seq![last + rest[0]] + rest.drop_first());
    }
    pieces
}

/// The value of a digit string is at least that of any of its prefixes.
proof fn lemma_digits_value_prefix(d: Seq<char>, k: int)
    requires
        0 <= k <= d.len(),
        all_digits(d),
    ensures
        digits_value(d) >= digits_value(d.take(k)),
    decreases d.len(),
{
    if k < d.len() {
        assert(is_digit(d[d.len() - 1]));
        lemma_digits_value_prefix(d.drop_last(), k);
        assert(d.drop_last().take(k) =~= d.take(k));
    } else {
        assert(d.take(k) =~= d);
    }
}

/// One more digit on the right.
proof fn lemma_digits_value_push(d: Seq<char>, k: int)
    requires
        0 <= k < d.len(),
        is_digit(d[k]),
    ensures
        digits_value(d.take(k + 1)) == digits_value(d.take(k)) * 10 + ((d[k] as u32) - 48),
{
    assert(d.take(k + 1).drop_last() =~= d.take(k));
    assert(d.take(k + 1).last() == d[k]);
}

/// `str::parse` for an unsigned integer type with largest value `max`.
pub fn parse_uint(cs: &[char], max: u64) -> (r: Option<u64>)
    ensures
        match parse_uint_spec(cs@, max as nat) {
            Some(v) => r == Some(v as u64),
            None => r is None,
        },
{
    let start: usize = if cs.len() > 0 && cs[0] == '+' {
        1
    } else {
        0
    };
    let ghost d = cs@.skip(start as int);
    assert(d =~= if cs@.len() > 0 && cs@[0] == '+' {
        cs@.drop_first()
    } else {
        cs@
    });
    if start == cs.len() {
        return None;
    }
    let mut v: u64 = 0;
    let mut i: usize = start;
    assert(d.take(0) =~= Seq::<char>::empty());
    while i < cs.len()
        invariant
            start <= i <= cs@.len(),
            d == cs@.skip(start as int),
            d == (if cs@.len() > 0 && cs@[0] == '+' {
                cs@.drop_first()
            } else {
                cs@
            }),
            v as nat == digits_value(d.take(i - start)),
            v <= max,
            all_digits(d.take(i - start)),
        decreases cs@.len() - i,
    {
        let u = cs[i] as u32;
        if u < 48 || u > 57 {
            assert(!is_digit(d[i - start]));
            assert(!all_digits(cs@.skip(start as int)));
            return None;
        }
        proof {
            lemma_digits_value_push(d, i - start);
        }
        let digit = (u - 48) as u64;
        let next: u128 = (v as u128) * 10 + (digit as u128);
        if next > max as u128 {
            proof {
                assert(digits_value(d.take(i - start + 1)) > max);
                if all_digits(d) {
                    lemma_digits_value_prefix(d, i - start + 1);
                }
            }
            return None;
        }
        v = next as u64;
        i = i + 1;
        assert(all_digits(d.take(i - start))) by {
            assert forall|j: int| 0 <= j < i - start implies is_digit(#[trigger] d.take(i - start)[j]) by {
                if j < i - start - 1 {
                    assert(d.take(i - start)[j] == d.take(i - start - 1)[j]);
                }
            }
        }
    }
    assert(d.take(i - start) =~= d);
    Some(v)
}

/// A digit character's code.
proof fn lemma_digit_char(d: nat)
    requires
        d < 10,
    ensures
        digit_char(d) as u32 == 48 + d,
        is_digit(digit_char(d)),
{
    let b: u8 = (48 + d) as u8;
    assert(b == 48 + d);
    assert((b as char) as u32 == b as u32);
}

/// The decimal form of `n` consists of digits and reads back as `n`.
pub proof fn lemma_decimal(n: nat)
    ensures
        decimal(n).len() >= 1,
        all_digits(decimal(n)),
        digits_value(decimal(n)) == n,
    decreases n,
{
    lemma_digit_char(n % 10);
    if n >= 10 {
        lemma_decimal(n / 10);
        let d = decimal(n);
        assert(d.drop_last() =~= decimal(n / 10));
        assert(d.last() == digit_char(n % 10));
        assert(digits_value(d) == digits_value(decimal(n / 10)) * 10 + (n % 10));
        assert forall|i: int| 0 <= i < d.len() implies is_digit(#[trigger] d[i]) by {
            if i < d.len() - 1 {
                assert(d[i] == decimal(n / 10)[i]);
            }
        }
    } else {
        assert(decimal(n) =~= seq![digit_char(n)]);
        assert(decimal(n).drop_last() =~= Seq::<char>::empty());
        assert(digits_value(Seq::<char>::empty()) == 0);
        assert(decimal(n).last() == digit_char(n));
        assert(n % 10 == n);
    }
}

/// Parsing the decimal form of a number gives the number back.
pub proof fn lemma_parse_decimal(n: nat, max: nat)
    requires
        n <= max,
    ensures
        parse_uint_spec(decimal(n), max) == Some(n),
{
    lemma_decimal(n);
    assert(is_digit(decimal(n)[0]));
}

/// Appends the decimal form of `n` to `s`.
pub fn push_decimal(s: &mut String, n: u64)
    ensures
        final(s)@ == old(s)@ + decimal(n as nat),
    decreases n,
{
    if n >= 10 {
        push_decimal(s, n / 10);
    }
    let digit: u8 = 48 + (n % 10) as u8;
    push_char(s, digit as char);
    proof {
        if n >= 10 {
            assert(s@ =~= old(s)@ + decimal(n as nat));
        } else {
            assert(s@ =~= old(s)@ + decimal(n as nat));
        }
    }
}

/// The decimal representation of a signed integer (`Display` for signed
/// integers): a minus sign before the digits of a negative number.
pub open spec fn signed_decimal(i: int) -> Seq<char> {
    if i < 0 {
        seq!['-'] + decimal((-i) as nat)
    } else {
        decimal(i as nat)
    }
}

/// Appends the decimal form of a signed `n` to `s`.
pub fn push_signed_decimal(s: &mut String, n: i64)
    ensures
        final(s)@ == old(s)@ + signed_decimal(n as int),
{
    if n < 0 {
        push_char(s, '-');
        let magnitude: u64 = if n == i64::MIN {
            0x8000_0000_0000_0000u64
        } else {
            (-n) as u64
        };
        push_decimal(s, magnitude);
        assert(s@ =~= old(s)@ + signed_decimal(n as int));
    } else {
        push_decimal(s, n as u64);
    }
}

/// The words of `s`, `cur` being the word read so far: the maximal runs of
/// characters that are not whitespace, in order (`str::split_whitespace`).
pub open spec fn words_from(s: Seq<char>, cur: Seq<char>) -> Seq<Seq<char>>
    decreases s.len(),
{
    if s.len() == 0 {
        if cur.len() > 0 {
            seq![cur]
        } else {
            Seq::empty()
        }
    } else if is_ws(s[0]) {
        (if cur.len() > 0 {
            seq![cur]
        } else {
            Seq::empty()
        }) + words_from(s.drop_first(), Seq::empty())
    } else {
        words_from(s.drop_first(), cur.push(s[0]))
    }
}

/// The words of `s` (`str::split_whitespace`).
pub open spec fn words(s: Seq<char>) -> Seq<Seq<char>> {
    words_from(s, Seq::empty())
}

/// The words of `cs`, in order.
pub fn split_whitespace(cs: &[char]) -> (r: Vec<Vec<char>>)
    ensures
        views(r@) == words(cs@),
{
    let mut pieces: Vec<Vec<char>> = Vec::new();
    let mut cur: Vec<char> = Vec::new();
    let mut i: usize = 0;
    assert(cs@.skip(0) =~= cs@);
    assert(views(pieces@) =~= Seq::<Seq<char>>::empty());
    assert(cur@ =~= Seq::<char>::empty());
    assert(Seq::<Seq<char>>::empty() + words(cs@) =~= words(cs@));
    while i < cs.len()
        invariant
            i <= cs@.len(),
            views(pieces@) + words_from(cs@.skip(i as int), cur@) == words(cs@),
        decreases cs@.len() - i,
    {
        let ghost s = cs@.skip(i as int);
        let ghost before = views(pieces@);
        let ghost old_cur = cur@;
        assert(s[0] == cs@[i as int]);
        assert(s.drop_first() =~= cs@.skip(i + 1));
        if is_whitespace(cs[i]) {
            if cur.len() > 0 {
                pieces.push(cur);
                proof {
                    assert(views(pieces@) =~= before.push(old_cur));
                    assert(before + (seq![old_cur] + words_from(s.drop_first(), Seq::empty()))
                        =~= before.push(old_cur) + words_from(s.drop_first(), Seq::empty()));
                }
            } else {
                proof {
                    assert(Seq::<Seq<char>>::empty() + words_from(s.drop_first(), Seq::empty())
                        =~= words_from(s.drop_first(), Seq::empty()));
                }
            }
            cur = Vec::new();
            assert(cur@ =~= Seq::<char>::empty());
        } else {
            cur.push(cs[i]);
        }
        i = i + 1;
    }
    let ghost before = views(pieces@);
    assert(cs@.skip(i as int) =~= Seq::<char>::empty());
    if cur.len() > 0 {
        let ghost last = cur@;
        pieces.push(cur);
        assert(views(pieces@) =~= before + seq![last]);
    } else {
        assert(before + Seq::<Seq<char>>::empty() =~= before);
    }
    pieces
}

/// Text without the separator is a single piece.
pub proof fn lemma_split_on_none(a: Seq<char>, sep: char)
    requires
        forall|i: int| 0 <= i < a.len() ==> #[trigger] a[i] != sep,
    ensures
        split_on(a, sep) == seq![a],
    decreases a.len(),
{
    if a.len() > 0 {
        assert forall|i: int| 0 <= i < a.drop_first().len() implies #[trigger] a.drop_first()[i]
            != sep by {
            assert(a.drop_first()[i] == a[i + 1]);
        }
        lemma_split_on_none(a.drop_first(), sep);
        assert(seq![a[0]] + a.drop_first() =~= a);
        assert(split_on(a, sep) =~= seq![a]);
    } else {
        assert(a =~= Seq::<char>::empty());
    }
}

/// A piece without the separator, then the separator, splits off first.
pub proof fn lemma_split_on_cons(a: Seq<char>, rest: Seq<char>, sep: char)
    requires
        forall|i: int| 0 <= i < a.len() ==> #[trigger] a[i] != sep,
    ensures
        split_on(a + seq![sep] + rest, sep) == seq![a] + split_on(rest, sep),
    decreases a.len(),
{
    let s = a + seq![sep] + rest;
    if a.len() == 0 {
        assert(s.drop_first() =~= rest);
        assert(a =~= Seq::<char>::empty());
        assert(seq![a] =~= seq![Seq::<char>::empty()]);
    } else {
        assert forall|i: int| 0 <= i < a.drop_first().len() implies #[trigger] a.drop_first()[i]
            != sep by {
            assert(a.drop_first()[i] == a[i + 1]);
        }
        assert(s.drop_first() =~= a.drop_first() + seq![sep] + rest);
        lemma_split_on_cons(a.drop_first(), rest, sep);
        assert(seq![a[0]] + a.drop_first() =~= a);
        assert(split_on(s, sep) =~= seq![a] + split_on(rest, sep));
    }
}

/// Trimming a line that ends in a newline and has no other whitespace at
/// its ends leaves the line without the newline.
pub proof fn lemma_trim_line(x: Seq<char>)
    requires
        x.len() > 0,
        !is_ws(x[0]),
        !is_ws(x.last()),
    ensures
        trim(x.push('\n')) == x,
{
    let y = x.push('\n');
    assert(y[0] == x[0]);
    assert(trim_start(y) == y);
    assert(('\n' as u32) == 10);
    assert(is_ws('\n'));
    assert(y.last() == '\n');
    assert(y.drop_last() =~= x);
    assert(trim_end(x) == x);
    assert(trim_end(y) == trim_end(x));
}

/// Decimal digits hold no character that is not a digit.
pub proof fn lemma_decimal_no(n: nat, c: char)
    requires
        !is_digit(c),
    ensures
        no_char(decimal(n), c),
{
    lemma_decimal(n);
    assert forall|i: int| 0 <= i < decimal(n).len() implies #[trigger] decimal(n)[i] != c by {
        assert(is_digit(decimal(n)[i]));
    }
}

/// `c` does not occur in `s`.
pub open spec fn no_char(s: Seq<char>, c: char) -> bool {
    forall|i: int| 0 <= i < s.len() ==> #[trigger] s[i] != c
}

/// A character missing from two sequences is missing from their
/// concatenation.
pub proof fn lemma_no_char_concat(a: Seq<char>, b: Seq<char>, c: char)
    requires
        no_char(a, c),
        no_char(b, c),
    ensures
        no_char(a + b, c),
{
    assert forall|i: int| 0 <= i < (a + b).len() implies #[trigger] (a + b)[i] != c by {
        if i < a.len() {
            assert((a + b)[i] == a[i]);
        } else {
            assert((a + b)[i] == b[i - a.len()]);
        }
    }
}

/// `a b` does not occur in `s`.
pub open spec fn no_pair(s: Seq<char>, a: char, b: char) -> bool {
    forall|i: int| 0 <= i < s.len() - 1 ==> !(#[trigger] s[i] == a && s[i + 1] == b)
}

/// Text without the pattern is a single piece.
pub proof fn lemma_split_pat_none(s: Seq<char>, a: char, b: char)
    requires
        no_pair(s, a, b),
    ensures
        split_pat(s, a, b) == seq![s],
    decreases s.len(),
{
    if s.len() >= 2 {
        assert(!(s[0] == a && s[1] == b));
        let t = s.drop_first();
        assert forall|i: int| 0 <= i < t.len() - 1 implies !(#[trigger] t[i] == a && t[i + 1]
            == b) by {
            assert(t[i] == s[i + 1]);
            assert(t[i + 1] == s[i + 2]);
        }
        lemma_split_pat_none(t, a, b);
        assert(seq![s[0]] + t =~= s);
        assert(split_pat(s, a, b) =~= seq![s]);
    }
}

/// A piece without `a`, then the pattern, splits off first.
pub proof fn lemma_split_pat_cons(p: Seq<char>, rest: Seq<char>, a: char, b: char)
    requires
        no_char(p, a),
    ensures
        split_pat(p + seq![a, b] + rest, a, b) == seq![p] + split_pat(rest, a, b),
    decreases p.len(),
{
    let s = p + seq![a, b] + rest;
    if p.len() == 0 {
        assert(s[0] == a);
        assert(s[1] == b);
        assert(s.skip(2) =~= rest);
        assert(p =~= Seq::<char>::empty());
    } else {
        assert(s[0] == p[0]);
        assert(p[0] != a);
        let q = p.drop_first();
        assert forall|i: int| 0 <= i < q.len() implies #[trigger] q[i] != a by {
            assert(q[i] == p[i + 1]);
        }
        assert(s.drop_first() =~= q + seq![a, b] + rest);
        lemma_split_pat_cons(q, rest, a, b);
        assert(seq![p[0]] + q =~= p);
        assert(split_pat(s, a, b) =~= seq![p] + split_pat(rest, a, b));
    }
}

} // verus!
