//! Stream adapters that put bytes in front: a reader that hands out
//! prepended bytes before reading on, and a writer that sends prepended
//! bytes together with the first write.
use vstd::prelude::*;
use crate::bytes::{copy_range, push_slice};

verus! {

/// One read of up to `want` bytes from the prepended bytes `p`: what it
/// hands out, and what is left.
pub open spec fn read_step(p: Seq<u8>, want: nat) -> (Seq<u8>, Seq<u8>) {
    let n = if want < p.len() { want as int } else { p.len() as int };
    (p.take(n), p.skip(n))
}

/// Successive reads of `wants` bytes from the prepended bytes `p`: all
/// they hand out, and what is left.
pub open spec fn read_steps(p: Seq<u8>, wants: Seq<nat>) -> (Seq<u8>, Seq<u8>)
    decreases wants.len(),
{
    if wants.len() == 0 {
        (Seq::empty(), p)
    } else {
        let (o, rest) = read_step(p, wants[0]);
        let (o2, left) = read_steps(rest, wants.drop_first());
        (o + o2, left)
    }
}

/// The prepended bytes come out first, in order, nothing lost or repeated:
/// successive reads hand out a prefix of them and leave the rest; once as
/// many reads of at least one byte as there are prepended bytes have been
/// made, all of them are out and reads go to the inner stream.
pub proof fn lemma_prepend_reads(p: Seq<u8>, wants: Seq<nat>)
    ensures
        read_steps(p, wants).0 + read_steps(p, wants).1 == p,
        (forall|i: int| 0 <= i < wants.len() ==> #[trigger] wants[i] >= 1) && wants.len() >= p.len()
            ==> read_steps(p, wants).0 == p && read_steps(p, wants).1.len() == 0,
    decreases wants.len(),
{
    if wants.len() == 0 {
        assert(Seq::<u8>::empty() + p == p);
    } else {
        let (o, rest) = read_step(p, wants[0]);
        lemma_prepend_reads(rest, wants.drop_first());
        assert(o + rest == p);
        let (o2, left) = read_steps(rest, wants.drop_first());
        assert(o + o2 + left == o + (o2 + left));
        if (forall|i: int| 0 <= i < wants.len() ==> #[trigger] wants[i] >= 1) && wants.len() >= p.len() {
            assert forall|i: int| 0 <= i < wants.drop_first().len() implies #[trigger] wants.drop_first()[i] >= 1 by {
                assert(wants.drop_first()[i] == wants[i + 1]);
            }
            if p.len() > 0 {
                assert(wants[0] >= 1);
                assert(rest.len() < p.len());
            } else {
                assert(rest.len() == 0);
            }
            assert(o + o2 + left =~= o + o2);
        }
    }
}

/// The reading side: bytes to hand out before the inner stream's.
#[derive(Debug)]
pub struct PrependReader {
    pub prepend: Option<Vec<u8>>,
}

impl PrependReader {
    /// The bytes still to hand out.
    pub open spec fn pending(&self) -> Seq<u8> {
        match self.prepend {
            Some(p) => p@,
            None => Seq::empty(),
        }
    }

    pub open spec fn wf(&self) -> bool {
        self.prepend matches Some(p) ==> p@.len() > 0
    }

    /// A reader over `prepend`; nothing is kept where it is empty.
    pub fn new(prepend: Vec<u8>) -> (r: Self)
        ensures
            r.wf(),
            r.pending() == prepend@,
    {
        if prepend.len() == 0 {
            PrependReader { prepend: None }
        } else {
            PrependReader { prepend: Some(prepend) }
        }
    }

    /// A read of up to `want` bytes: the next prepended bytes while there
    /// are any, else `None` (read the inner stream).
    pub fn read(&mut self, want: usize) -> (r: Option<Vec<u8>>)
        requires
            old(self).wf(),
        ensures
            final(self).wf(),
            old(self).pending().len() == 0 ==> r is None && final(self).pending().len() == 0,
            old(self).pending().len() > 0 ==> ({
                let n = if want < old(self).pending().len() { want as int } else { old(self).pending().len() as int };
                &&& (r matches Some(out) && out@ == old(self).pending().take(n)
                    && out@ + final(self).pending() == old(self).pending() && (want > 0 ==> out@.len() > 0))
                &&& final(self).pending() == old(self).pending().skip(n)
                &&& (r matches Some(out) && (out@, final(self).pending()) == read_step(old(self).pending(), want as nat))
            }),
    {
        match &self.prepend {
            None => None,
            Some(p) => {
                let n = if want < p.len() { want } else { p.len() };
                assert(p@.take(n as int) + p@.skip(n as int) == p@);
                let out = copy_range(p.as_slice(), 0, n);
                let rest = copy_range(p.as_slice(), n, p.len());
                if rest.len() == 0 {
                    self.prepend = None;
                } else {
                    self.prepend = Some(rest);
                }
                Some(out)
            },
        }
    }
}

/// The writing side: bytes to send in front of the first write. The first
/// write's data is appended to them, and the combined buffer goes to the
/// inner stream piece by piece, each piece starting where the inner stream
/// stopped taking, until it has taken more than the prepended part.
#[derive(Debug)]
pub struct PrependWriter {
    /// The prepended bytes, with the first write's data once it came.
    pub prepend: Option<Vec<u8>>,
    /// How many of the combined bytes were prepended, once combined.
    pub len_before_concat: Option<usize>,
    /// How many of the combined bytes the inner stream has taken.
    pub written: usize,
}

/// What to do with a write.
pub enum PrependWrite {
    /// Write these bytes (the rest of the combined buffer) to the inner
    /// stream, then report how many it took.
    Send(Vec<u8>),
    /// Nothing is prepended any more: write straight through.
    Through,
}

/// The total of `ns`.
pub open spec fn total(ns: Seq<nat>) -> nat
    decreases ns.len(),
{
    if ns.len() == 0 { 0 } else { ns[0] + total(ns.drop_first()) }
}

/// What the inner stream receives when the combined buffer `c` is sent
/// from position `w`, each send taking the next count of `ns` bytes of
/// what was offered.
pub open spec fn sent_pieces(c: Seq<u8>, w: int, ns: Seq<nat>) -> Seq<u8>
    decreases ns.len(),
{
    if ns.len() == 0 {
        Seq::empty()
    } else {
        c.skip(w).take(ns[0] as int) + sent_pieces(c, w + ns[0], ns.drop_first())
    }
}

/// Sending the rest of the combined buffer, however the inner stream cuts
/// it, delivers its bytes once each and in order.
pub proof fn lemma_sent_pieces(c: Seq<u8>, w: int, ns: Seq<nat>)
    requires
        0 <= w,
        w + total(ns) <= c.len(),
    ensures
        sent_pieces(c, w, ns) == c.subrange(w, w + total(ns)),
    decreases ns.len(),
{
    if ns.len() == 0 {
        assert(c.subrange(w, w) =~= Seq::<u8>::empty());
    } else {
        lemma_sent_pieces(c, w + ns[0], ns.drop_first());
        assert(c.skip(w).take(ns[0] as int) =~= c.subrange(w, w + ns[0]));
        assert(c.subrange(w, w + ns[0]) + c.subrange(w + ns[0], w + total(ns))
            =~= c.subrange(w, w + total(ns)));
    }
}

/// The prepended bytes `p` reach the inner stream once and first: when the
/// sends of the combined buffer `p + b` have taken `total(ns)` bytes, more
/// than `p`, the inner stream has received `p` followed by the first
/// `total(ns) - p.len()` bytes of the write, and that count is what the
/// write reports.
pub proof fn lemma_prepend_writer_once(p: Seq<u8>, b: Seq<u8>, ns: Seq<nat>)
    requires
        p.len() < total(ns) <= p.len() + b.len(),
    ensures
        sent_pieces(p + b, 0, ns) == p + b.take(total(ns) - p.len()),
{
    lemma_sent_pieces(p + b, 0, ns);
    assert((p + b).subrange(0, total(ns) as int) =~= p + b.take(total(ns) - p.len()));
}

impl PrependWriter {
    pub open spec fn wf(&self) -> bool {
        match (self.prepend, self.len_before_concat) {
            (Some(c), Some(l)) => l <= c@.len() && self.written <= l,
            (Some(p), None) => self.written == 0,
            (None, _) => true,
        }
    }

    /// A writer with `prepend` in front; nothing where it is empty.
    pub fn new(prepend: Vec<u8>) -> (r: Self)
        ensures
            r.wf(),
            r.prepend matches Some(p) ==> p@ == prepend@,
            r.prepend is None <==> prepend@.len() == 0,
            r.len_before_concat is None,
            r.written == 0,
    {
        let p = if prepend.len() == 0 { None } else { Some(prepend) };
        PrependWriter { prepend: p, len_before_concat: None, written: 0 }
    }

    /// The bytes a write of `buf` sends: on the first write the prepended
    /// bytes get `buf` appended; the rest of the combined buffer, from where
    /// the inner stream stopped taking, is sent until the inner stream has
    /// taken more than the prepended part.
    pub fn start_write(&mut self, buf: &[u8]) -> (r: PrependWrite)
        requires
            old(self).wf(),
        ensures
            final(self).wf(),
            final(self).written == old(self).written,
            match old(self).prepend {
                None => r is Through && final(self).prepend is None
                    && final(self).len_before_concat == old(self).len_before_concat,
                Some(p) => match old(self).len_before_concat {
                    None => {
                        &&& final(self).len_before_concat == Some(p@.len() as usize)
                        &&& (final(self).prepend matches Some(q) && q@ == p@ + buf@)
                        &&& (r matches PrependWrite::Send(s) && s@ == p@ + buf@)
                    },
                    Some(l) => {
                        &&& final(self).len_before_concat == Some(l)
                        &&& final(self).prepend == old(self).prepend
                        &&& (r matches PrependWrite::Send(s) && s@ == p@.skip(old(self).written as int))
                    },
                },
            },
    {
        match &self.prepend {
            None => PrependWrite::Through,
            Some(p) => {
                if self.len_before_concat.is_none() {
                    let mut q = copy_range(p.as_slice(), 0, p.len());
                    assert(p@.subrange(0, p@.len() as int) == p@);
                    self.len_before_concat = Some(p.len());
                    push_slice(&mut q, buf);
                    let s = copy_range(q.as_slice(), 0, q.len());
                    assert(q@.subrange(0, q@.len() as int) == q@);
                    self.prepend = Some(q);
                    PrependWrite::Send(s)
                } else {
                    let s = copy_range(p.as_slice(), self.written, p.len());
                    assert(p@.subrange(self.written as int, p@.len() as int) == p@.skip(self.written as int));
                    PrependWrite::Send(s)
                }
            },
        }
    }

    /// Records that the inner stream took `n` of the bytes sent: once it has
    /// taken more than the prepended part, the prepending is over and the
    /// write reports how much of its own data went (`Some`); else the rest is
    /// sent again.
    pub fn finish_write(&mut self, n: usize) -> (r: Option<usize>)
        requires
            old(self).wf(),
            old(self).len_before_concat is Some,
            old(self).prepend matches Some(c) && old(self).written + n <= c@.len(),
        ensures
            final(self).wf(),
            final(self).written == old(self).written + n,
            final(self).len_before_concat == old(self).len_before_concat,
            ({
                let l = old(self).len_before_concat->Some_0;
                if final(self).written > l {
                    r == Some((final(self).written - l) as usize) && final(self).prepend is None
                } else {
                    r is None && final(self).prepend == old(self).prepend
                }
            }),
    {
        let cap: usize = match &self.prepend {
            Some(c) => c.len(),
            None => 0,
        };
        assert(self.written + n <= cap);
        self.written = self.written + n;
        let l = match self.len_before_concat {
            Some(l) => l,
            None => 0,
        };
        if self.written > l {
            self.prepend = None;
            Some(self.written - l)
        } else {
            None
        }
    }
}

} // verus!
