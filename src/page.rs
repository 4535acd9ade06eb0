//! Splitting an address range into pieces that each stay within one page.

use vstd::prelude::*;

verus! {

/// The pieces of `[a, m)` cut at multiples of `p`, as (start, length) pairs.
pub open spec fn segments(a: int, m: int, p: int) -> Seq<(int, int)>
    decreases m - a,
{
    if a < m && p > 0 {
        let l = chunk_len(a, m, p);
        seq![(a, l)] + segments(a + l, m, p)
    } else {
        seq![]
    }
}

/// Length of the piece that starts at `a`: up to the next page boundary,
/// or up to `m` if that comes first.
pub open spec fn chunk_len(a: int, m: int, p: int) -> int {
    if p - a % p <= m - a {
        p - a % p
    } else {
        m - a
    }
}

/// The sum of the lengths of a list of pieces.
pub open spec fn total_len(s: Seq<(int, int)>) -> int
    decreases s.len(),
{
    if s.len() == 0 {
        0
    } else {
        s[0].1 + total_len(s.drop_first())
    }
}

/// A piece as a pair of integers.
pub open spec fn piece_view(c: (usize, usize)) -> (int, int) {
    (c.0 as int, c.1 as int)
}

proof fn lemma_segments_shape(a: int, m: int, p: int)
    requires
        0 <= a <= m,
        p > 0,
    ensures
        ({
            let s = segments(a, m, p);
            &&& (s.len() == 0 <==> a == m)
            &&& s.len() > 0 ==> s[0].0 == a
            &&& s.len() > 0 ==> s[s.len() - 1].0 + s[s.len() - 1].1 == m
            &&& total_len(s) == m - a
            &&& forall|i: int| 0 <= i < s.len() - 1 ==> #[trigger] s[i].0 + s[i].1 == s[i + 1].0
            &&& forall|i: int| 0 <= i < s.len() ==> 0 < #[trigger] s[i].1 <= p
            &&& forall|i: int| 0 <= i < s.len() ==> #[trigger] s[i].0 % p + s[i].1 <= p
            &&& forall|i: int| 0 <= i < s.len() - 1 ==> #[trigger] s[i].0 % p + s[i].1 == p
            &&& forall|i: int| 0 < i < s.len() ==> #[trigger] s[i].0 % p == 0
        }),
    decreases m - a,
{
    let s = segments(a, m, p);
    if a < m {
        let l = chunk_len(a, m, p);
        let t = segments(a + l, m, p);
        assert(0 <= a % p < p) by {
            vstd::arithmetic::div_mod::lemma_mod_bound(a, p);
        }
        lemma_segments_shape(a + l, m, p);
        assert(s == seq![(a, l)] + t);
        assert(s.drop_first() == t);
        assert(s[0] == (a, l));
        assert forall|i: int| 0 < i < s.len() implies #[trigger] s[i] == t[i - 1] by {}
        if t.len() > 0 {
            assert(l == p - a % p);
            assert((a + l) % p == 0) by {
                vstd::arithmetic::div_mod::lemma_fundamental_div_mod(a, p);
                assert(a + l == (a / p + 1) * p) by (nonlinear_arith)
                    requires
                        a == p * (a / p) + a % p,
                        l == p - a % p,
                ;
                vstd::arithmetic::div_mod::lemma_mod_multiples_basic(a / p + 1, p);
            }
            assert(s[s.len() - 1] == t[t.len() - 1]);
        }
        assert forall|i: int| 0 <= i < s.len() - 1 implies #[trigger] s[i].0 + s[i].1 == s[i
            + 1].0 by {
            if i > 0 {
                assert(s[i] == t[i - 1] && s[i + 1] == t[i]);
            }
        }
        assert forall|i: int| 0 <= i < s.len() implies 0 < #[trigger] s[i].1 <= p && s[i].0 % p
            + s[i].1 <= p by {
            if i > 0 {
                assert(s[i] == t[i - 1]);
            }
        }
        assert forall|i: int| 0 <= i < s.len() - 1 implies #[trigger] s[i].0 % p + s[i].1
            == p by {
            if i > 0 {
                assert(s[i] == t[i - 1]);
            }
        }
        assert forall|i: int| 0 < i < s.len() implies #[trigger] s[i].0 % p == 0 by {
            assert(s[i] == t[i - 1]);
        }
    }
}

/// Page segmentation of `[a, a + l)` with page size `p`: the pieces are
/// contiguous and do not overlap, they start at `a` and their lengths sum
/// to `l`; each piece lies within one page, every piece but the first
/// starts on a page boundary, and every piece but the first and the last
/// is exactly one page long. A zero length gives no pieces.
pub proof fn lemma_segments(a: int, l: int, p: int)
    requires
        0 <= a,
        0 <= l,
        p > 0,
    ensures
        ({
            let s = segments(a, a + l, p);
            &&& (l == 0 <==> s.len() == 0)
            &&& s.len() > 0 ==> s[0].0 == a
            &&& total_len(s) == l
            &&& forall|i: int| 0 <= i < s.len() - 1 ==> #[trigger] s[i].0 + s[i].1 == s[i + 1].0
            &&& forall|i: int| 0 <= i < s.len() ==> 0 < #[trigger] s[i].1
            &&& forall|i: int| 0 <= i < s.len() ==> #[trigger] s[i].0 % p + s[i].1 <= p
            &&& forall|i: int| 0 < i < s.len() ==> #[trigger] s[i].0 % p == 0
            &&& forall|i: int| 0 < i < s.len() - 1 ==> #[trigger] s[i].1 == p
        }),
{
    lemma_segments_shape(a, a + l, p);
    let s = segments(a, a + l, p);
    assert forall|i: int| 0 < i < s.len() - 1 implies #[trigger] s[i].1 == p by {
        assert(s[i].0 % p == 0);
        assert(s[i].0 % p + s[i].1 == p);
    }
}

/// A list of pieces as pairs of integers.
pub open spec fn pieces_view(v: Seq<(usize, usize)>) -> Seq<(int, int)> {
    v.map_values(|c: (usize, usize)| piece_view(c))
}

/// Walks `[addr, max_addr)` one page-bounded piece at a time.
pub struct PageIter {
    addr: usize,
    max_addr: usize,
    page_size: usize,
}

impl PageIter {
    /// The pieces still to come.
    pub closed spec fn remaining(&self) -> Seq<(int, int)> {
        segments(self.addr as int, self.max_addr as int, self.page_size as int)
    }

    pub closed spec fn wf(&self) -> bool {
        self.addr <= self.max_addr && self.page_size > 0
    }

    pub fn new(addr: usize, len: usize, page_size: usize) -> (r: PageIter)
        requires
            page_size > 0,
            addr + len <= usize::MAX,
        ensures
            r.wf(),
            r.remaining() == segments(addr as int, addr + len, page_size as int),
    {
        PageIter { addr: addr, max_addr: addr + len, page_size: page_size }
    }

    /// The next piece, or `None` once the range is used up.
    pub fn next(&mut self) -> (r: Option<(usize, usize)>)
        requires
            old(self).wf(),
        ensures
            final(self).wf(),
            old(self).remaining().len() == 0 ==> r.is_none() && final(self).remaining().len()
                == 0,
            old(self).remaining().len() > 0 ==> r.is_some() && piece_view(r.unwrap())
                == old(self).remaining()[0] && final(self).remaining()
                == old(self).remaining().drop_first(),
    {
        if self.addr == self.max_addr {
            return None;
        }
        let ghost s = self.remaining();
        let mut len: usize = self.page_size - (self.addr % self.page_size);
        if len > self.max_addr - self.addr {
            len = self.max_addr - self.addr;
        }
        let ret = Some((self.addr, len));
        assert(s == seq![(self.addr as int, len as int)] + segments(
            self.addr + len,
            self.max_addr as int,
            self.page_size as int,
        ));
        assert(s.drop_first() =~= segments(
            self.addr + len,
            self.max_addr as int,
            self.page_size as int,
        ));
        self.addr = self.addr + len;
        ret
    }

    /// Whether no piece is left.
    pub fn is_done(&self) -> (r: bool)
        requires
            self.wf(),
        ensures
            r == (self.remaining().len() == 0),
    {
        self.addr == self.max_addr
    }

    /// All the pieces still to come, in order.
    pub fn collect(self) -> (r: Vec<(usize, usize)>)
        requires
            self.wf(),
        ensures
            pieces_view(r@) == self.remaining(),
    {
        let ghost all = self.remaining();
        let mut it = PageIter { addr: self.addr, max_addr: self.max_addr, page_size: self.page_size };
        let mut out: Vec<(usize, usize)> = Vec::new();
        assert(pieces_view(out@) =~= Seq::<(int, int)>::empty());
        loop
            invariant
                it.wf(),
                all == self.remaining(),
                pieces_view(out@) + it.remaining() == all,
            decreases it.remaining().len(),
        {
            let ghost before = it.remaining();
            match it.next() {
                None => {
                    assert(before.len() == 0);
                    assert(it.remaining() =~= Seq::<(int, int)>::empty());
                    assert(pieces_view(out@) == all);
                    assert(pieces_view(out@) + it.remaining()
                        =~= pieces_view(out@));
                    return out;
                },
                Some(c) => {
                    let ghost prev = out@;
                    out.push(c);
                    assert(pieces_view(out@) =~= pieces_view(prev).push(piece_view(c)));
                    assert(pieces_view(out@) + it.remaining()
                        =~= pieces_view(prev) + before);
                },
            }
        }
    }
}

} // verus!
