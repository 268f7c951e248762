//! An in-memory byte source read line by line or in exact chunks, as the
//! report readers consume their input.
use vstd::prelude::*;

verus! {

/// The length of the first line of `s`: up to and including the first
/// newline byte, or all of `s` when it has none (`BufRead::read_line`).
pub open spec fn line_len(s: Seq<u8>) -> nat
    decreases s.len(),
{
    if s.len() == 0 {
        0
    } else if s[0] == 10 {
        1
    } else {
        1 + line_len(s.drop_first())
    }
}

/// Skipping bytes that are not newlines.
proof fn lemma_line_len_skip(s: Seq<u8>, k: int)
    requires
        0 <= k <= s.len(),
        forall|j: int| 0 <= j < k ==> #[trigger] s[j] != 10,
    ensures
        line_len(s) == k + line_len(s.skip(k)),
    decreases k,
{
    if k > 0 {
        assert(s[0] != 10);
        lemma_line_len_skip(s.drop_first(), k - 1);
        assert(s.drop_first().skip(k - 1) =~= s.skip(k));
    } else {
        assert(s.skip(0) =~= s);
    }
}

/// A line has at most the length of its input.
pub proof fn lemma_line_len_bound(s: Seq<u8>)
    ensures
        line_len(s) <= s.len(),
        s.len() > 0 ==> line_len(s) > 0,
    decreases s.len(),
{
    if s.len() > 0 {
        lemma_line_len_bound(s.drop_first());
    }
}

/// A byte source over a buffer in memory, with a read position.
pub struct ByteReader {
    data: Vec<u8>,
    pos: usize,
}

impl ByteReader {
    #[verifier::type_invariant]
    spec fn inv(&self) -> bool {
        self.pos <= self.data@.len()
    }

    /// The bytes not read yet.
    pub closed spec fn remaining(&self) -> Seq<u8> {
        self.data@.skip(self.pos as int)
    }

    /// A reader positioned at the start of `data`.
    pub fn new(data: Vec<u8>) -> (r: Self)
        ensures
            r.remaining() == data@,
    {
        let r = ByteReader { data, pos: 0 };
        assert(r.data@.skip(0) =~= r.data@);
        r
    }

    /// Reads exactly `n` bytes (`Read::read_exact`); when fewer are left it
    /// reads them all and gives nothing back.
    pub fn read_exact(&mut self, n: usize) -> (r: Option<Vec<u8>>)
        ensures
            old(self).remaining().len() >= n ==> (r matches Some(v) && v@ == old(
                self,
            ).remaining().take(n as int)),
            old(self).remaining().len() >= n ==> final(self).remaining() == old(
                self,
            ).remaining().skip(n as int),
            old(self).remaining().len() < n ==> r is None && final(self).remaining().len() == 0,
    {
        proof {
            use_type_invariant(&*self);
        }
        let ghost rem = self.remaining();
        if self.data.len() - self.pos < n {
            self.pos = self.data.len();
            proof {
                assert(self.data@.skip(self.pos as int) =~= Seq::<u8>::empty());
            }
            return None;
        }
        let mut out: Vec<u8> = Vec::new();
        let start = self.pos;
        let end = self.pos + n;
        let mut i = start;
        while i < end
            invariant
                start <= i <= end <= self.data@.len(),
                rem == self.data@.skip(start as int),
                out@ == self.data@.subrange(start as int, i as int),
            decreases end - i,
        {
            out.push(self.data[i]);
            i = i + 1;
            assert(out@ =~= self.data@.subrange(start as int, i as int));
        }
        self.pos = end;
        proof {
            assert(out@ =~= rem.take(n as int));
            assert(self.data@.skip(end as int) =~= rem.skip(n as int));
        }
        Some(out)
    }

    /// Reads one line: the bytes up to and including the next newline, or
    /// the rest of the input when there is none (empty at the end).
    pub fn read_line(&mut self) -> (r: Vec<u8>)
        ensures
            r@ == old(self).remaining().take(line_len(old(self).remaining()) as int),
            final(self).remaining() == old(self).remaining().skip(
                line_len(old(self).remaining()) as int,
            ),
    {
        proof {
            use_type_invariant(&*self);
        }
        let ghost rem = self.remaining();
        let start = self.pos;
        let mut out: Vec<u8> = Vec::new();
        let mut i = start;
        while i < self.data.len() && self.data[i] != 10
            invariant
                start <= i <= self.data@.len(),
                rem == self.data@.skip(start as int),
                out@ == self.data@.subrange(start as int, i as int),
                forall|j: int| start <= j < i ==> #[trigger] self.data@[j] != 10,
            decreases self.data@.len() - i,
        {
            out.push(self.data[i]);
            i = i + 1;
            assert(out@ =~= self.data@.subrange(start as int, i as int));
        }
        let ghost k = (i - start) as int;
        proof {
            assert forall|j: int| 0 <= j < k implies #[trigger] rem[j] != 10 by {
                assert(rem[j] == self.data@[start + j]);
            }
            lemma_line_len_skip(rem, k);
        }
        if i < self.data.len() {
            out.push(self.data[i]);
            i = i + 1;
            proof {
                let t = rem.skip(k);
                assert(t[0] == 10);
                assert(line_len(t) == 1);
            }
        } else {
            proof {
                assert(rem.skip(k).len() == 0);
            }
        }
        self.pos = i;
        proof {
            assert(out@ =~= rem.take(line_len(rem) as int));
            assert(self.data@.skip(i as int) =~= rem.skip(line_len(rem) as int));
        }
        out
    }
}

} // verus!
