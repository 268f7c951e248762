//! Small numeric and text helpers: sums over slices, a byte count and a
//! string normalisation.
use vstd::prelude::*;
use crate::strings::{lowercase, to_lowercase, chars_of, push_char};

verus! {

/// The sum of the even values of `s`.
pub open spec fn even_sum(s: Seq<i64>) -> int
    decreases s.len(),
{
    if s.len() == 0 {
        0
    } else {
        even_sum(s.drop_last()) + if s.last() % 2 == 0 {
            s.last() as int
        } else {
            0
        }
    }
}

/// Every running sum of the even values fits in an `i64`.
pub open spec fn even_sums_fit(s: Seq<i64>) -> bool {
    forall|k: int|
        0 <= k <= s.len() ==> i64::MIN <= #[trigger] even_sum(s.take(k)) <= i64::MAX
}

/// The sum of the even values; the running sum never leaves `i64`.
pub fn sum_even(values: &[i64]) -> (r: i64)
    requires
        even_sums_fit(values@),
    ensures
        r == even_sum(values@),
{
    let mut acc: i64 = 0;
    let mut i: usize = 0;
    assert(values@.take(0) =~= Seq::<i64>::empty());
    while i < values.len()
        invariant
            i <= values@.len(),
            even_sums_fit(values@),
            acc == even_sum(values@.take(i as int)),
        decreases values@.len() - i,
    {
        let cur_value = values[i];
        assert(values@.take(i + 1).drop_last() =~= values@.take(i as int));
        assert(values@.take(i + 1).last() == cur_value);
        assert(i64::MIN <= even_sum(values@.take(i + 1)) <= i64::MAX);
        if cur_value % 2 == 0 {
            acc = acc + cur_value;
        }
        i = i + 1;
    }
    assert(values@.take(i as int) =~= values@);
    acc
}

/// The number of bytes of `s` that are not zero.
pub open spec fn nonzero_count(s: Seq<u8>) -> nat
    decreases s.len(),
{
    if s.len() == 0 {
        0
    } else {
        nonzero_count(s.drop_last()) + if s.last() != 0 {
            1nat
        } else {
            0nat
        }
    }
}

/// A count of nonzero bytes is at most the length.
proof fn lemma_nonzero_count_bound(s: Seq<u8>)
    ensures
        nonzero_count(s) <= s.len(),
    decreases s.len(),
{
    if s.len() > 0 {
        lemma_nonzero_count_bound(s.drop_last());
    }
}

/// Counts the bytes of `input` that are not zero.
pub fn leak_buffer(input: &[u8]) -> (r: usize)
    ensures
        r == nonzero_count(input@),
{
    let mut count: usize = 0;
    let mut i: usize = 0;
    assert(input@.take(0) =~= Seq::<u8>::empty());
    while i < input.len()
        invariant
            i <= input@.len(),
            count == nonzero_count(input@.take(i as int)),
        decreases input@.len() - i,
    {
        assert(input@.take(i + 1).drop_last() =~= input@.take(i as int));
        proof {
            lemma_nonzero_count_bound(input@.take(i as int));
        }
        if input[i] != 0 {
            count = count + 1;
        }
        i = i + 1;
    }
    assert(input@.take(i as int) =~= input@);
    count
}

/// The sum and the number of the positive values of `s`.
pub open spec fn positive_sum(s: Seq<i64>) -> int
    decreases s.len(),
{
    if s.len() == 0 {
        0
    } else {
        positive_sum(s.drop_last()) + if s.last() > 0 {
            s.last() as int
        } else {
            0
        }
    }
}

/// The number of positive values of `s`.
pub open spec fn positive_count(s: Seq<i64>) -> nat
    decreases s.len(),
{
    if s.len() == 0 {
        0
    } else {
        positive_count(s.drop_last()) + if s.last() > 0 {
            1nat
        } else {
            0nat
        }
    }
}

/// A count of positive values is at most the length.
proof fn lemma_positive_count_bound(s: Seq<i64>)
    ensures
        positive_count(s) <= s.len(),
    decreases s.len(),
{
    if s.len() > 0 {
        lemma_positive_count_bound(s.drop_last());
    }
}

/// Sums of positive values only grow.
proof fn lemma_positive_sum_mono(s: Seq<i64>, k: int)
    requires
        0 <= k <= s.len(),
    ensures
        0 <= positive_sum(s.take(k)) <= positive_sum(s),
    decreases s.len(),
{
    if s.len() > 0 {
        if k == s.len() {
            assert(s.take(k) =~= s);
            lemma_positive_sum_mono(s.drop_last(), k - 1);
            assert(s.drop_last().take(k - 1) =~= s.drop_last());
        } else {
            lemma_positive_sum_mono(s.drop_last(), k);
            assert(s.drop_last().take(k) =~= s.take(k));
        }
    } else {
        assert(s.take(k) =~= s);
    }
}

/// Whether the sum of the positive values fits in an `i64`, so that adding
/// them up one by one never overflows.
pub fn positive_sum_fits(values: &[i64]) -> (r: bool)
    ensures
        r == (positive_sum(values@) <= i64::MAX),
{
    let mut acc: i64 = 0;
    let mut i: usize = 0;
    assert(values@.take(0) =~= Seq::<i64>::empty());
    while i < values.len()
        invariant
            i <= values@.len(),
            acc == positive_sum(values@.take(i as int)),
        decreases values@.len() - i,
    {
        let cur_value = values[i];
        assert(values@.take(i + 1).drop_last() =~= values@.take(i as int));
        proof {
            lemma_positive_sum_mono(values@, i + 1);
        }
        if cur_value > 0 {
            match acc.checked_add(cur_value) {
                Some(next) => {
                    acc = next;
                },
                None => {
                    return false;
                },
            }
        }
        i = i + 1;
    }
    assert(values@.take(i as int) =~= values@);
    true
}

/// The sum and the number of the positive values, the two parts of their
/// average; the sum must fit in an `i64`.
pub fn positive_sum_and_count(values: &[i64]) -> (r: (i64, usize))
    requires
        positive_sum(values@) <= i64::MAX,
    ensures
        r.0 == positive_sum(values@),
        r.1 == positive_count(values@),
{
    let mut positive_sum_acc: i64 = 0;
    let mut positive_count_acc: usize = 0;
    let mut i: usize = 0;
    assert(values@.take(0) =~= Seq::<i64>::empty());
    while i < values.len()
        invariant
            i <= values@.len(),
            positive_sum(values@) <= i64::MAX,
            positive_sum_acc == positive_sum(values@.take(i as int)),
            positive_count_acc == positive_count(values@.take(i as int)),
        decreases values@.len() - i,
    {
        let cur_value = values[i];
        assert(values@.take(i + 1).drop_last() =~= values@.take(i as int));
        proof {
            lemma_positive_sum_mono(values@, i + 1);
            lemma_positive_count_bound(values@.take(i as int));
        }
        if cur_value > 0 {
            positive_sum_acc = positive_sum_acc + cur_value;
            positive_count_acc = positive_count_acc + 1;
        }
        i = i + 1;
    }
    assert(values@.take(i as int) =~= values@);
    (positive_sum_acc, positive_count_acc)
}

/// The text without its space characters.
pub open spec fn without_spaces(s: Seq<char>) -> Seq<char>
    decreases s.len(),
{
    if s.len() == 0 {
        s
    } else if s.last() == ' ' {
        without_spaces(s.drop_last())
    } else {
        without_spaces(s.drop_last()).push(s.last())
    }
}

/// Removes the spaces of a text (tabs and other whitespace stay), then
/// lowercases it.
pub fn normalize(input: &str) -> (r: String)
    ensures
        r@ == lowercase(without_spaces(input@)),
{
    let cs = chars_of(input);
    let mut kept = String::new();
    let mut i: usize = 0;
    assert(cs@.take(0) =~= Seq::<char>::empty());
    while i < cs.len()
        invariant
            i <= cs@.len(),
            kept@ == without_spaces(cs@.take(i as int)),
        decreases cs@.len() - i,
    {
        let c = cs[i];
        assert(cs@.take(i + 1).drop_last() =~= cs@.take(i as int));
        if c != ' ' {
            push_char(&mut kept, c);
        }
        i = i + 1;
    }
    assert(cs@.take(i as int) =~= input@);
    to_lowercase(kept.as_str())
}

} // verus!
