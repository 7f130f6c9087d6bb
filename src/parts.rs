use vstd::prelude::*;
use vstd::arithmetic::div_mod::{
    lemma_fundamental_div_mod, lemma_hoist_over_denominator, lemma_mod_add_multiples_vanish,
};

verus! {

/// Size in bytes of every part of a multipart upload but the last.
pub const CHUNK_SIZE: usize = 5 * 1024 * 1024;

/// The bodies that `data` is cut into: `c` bytes each, in order, the last one
/// shorter where `c` does not divide the length.
pub open spec fn chunks(data: Seq<u8>, c: nat) -> Seq<Seq<u8>>
    decreases data.len(),
{
    if data.len() == 0 || c == 0 {
        Seq::empty()
    } else if data.len() <= c {
        seq![data]
    } else {
        seq![data.take(c as int)] + chunks(data.skip(c as int), c)
    }
}

/// One part of a multipart upload: its sequence number (from 1) and its bytes.
pub struct Part {
    pub number: u64,
    pub body: Vec<u8>,
}

/// The bodies of `parts`, in order.
pub open spec fn bodies_of(parts: Seq<Part>) -> Seq<Seq<u8>> {
    parts.map_values(|p: Part| p.body@)
}

/// Cuts a byte stream, read piece by piece, into numbered parts.
///
/// Bytes are buffered until a whole chunk is there; each chunk becomes the
/// next part as soon as it is complete, so the reader never waits on an
/// upload. `flush` hands out what is left as the last, shorter part.
pub struct PartCutter {
    chunk_size: usize,
    buffer: Vec<u8>,
    cut: u64,
    consumed: u64,
    finished: bool,
    data: Ghost<Seq<u8>>,
    bodies: Ghost<Seq<Seq<u8>>>,
}

impl PartCutter {
    /// Size of a full part.
    pub closed spec fn chunk_len(&self) -> nat {
        self.chunk_size as nat
    }

    /// Every byte pushed so far.
    pub closed spec fn consumed(&self) -> Seq<u8> {
        self.data@
    }

    /// The bodies of the parts handed out so far, in the order of their numbers.
    pub closed spec fn emitted(&self) -> Seq<Seq<u8>> {
        self.bodies@
    }

    /// Bytes pushed but not yet handed out in a part.
    pub closed spec fn buffered(&self) -> Seq<u8> {
        self.buffer@
    }

    /// Whether the last part has been handed out.
    pub closed spec fn finished(&self) -> bool {
        self.finished
    }

    /// The counters agree with what they count.
    pub closed spec fn counters_wf(&self) -> bool {
        &&& self.cut as nat == self.bodies@.len()
        &&& self.consumed as nat == self.data@.len()
    }

    /// While open, the parts handed out are full chunks and, followed by the
    /// buffer, give back the stream; once finished, they are the stream's chunks.
    pub open spec fn wf(&self) -> bool {
        &&& self.chunk_len() > 0
        &&& self.counters_wf()
        &&& if !self.finished() {
            &&& self.consumed() == self.emitted().flatten() + self.buffered()
            &&& self.buffered().len() < self.chunk_len()
            &&& forall|i: int|
                0 <= i < self.emitted().len() ==> #[trigger] self.emitted()[i].len()
                    == self.chunk_len()
        } else {
            &&& self.emitted() == chunks(self.consumed(), self.chunk_len())
            &&& self.buffered().len() == 0
        }
    }

    /// A cutter for parts of `chunk_size` bytes, with nothing read yet.
    pub fn new(chunk_size: usize) -> (r: PartCutter)
        requires
            chunk_size > 0,
        ensures
            r.wf(),
            r.chunk_len() == chunk_size,
            r.consumed() == Seq::<u8>::empty(),
            r.emitted() == Seq::<Seq<u8>>::empty(),
            !r.finished(),
    {
        PartCutter {
            chunk_size,
            buffer: Vec::new(),
            cut: 0,
            consumed: 0,
            finished: false,
            data: Ghost(Seq::empty()),
            bodies: Ghost(Seq::empty()),
        }
    }

    /// Number of bytes pushed so far.
    pub fn consumed_len(&self) -> (r: u64)
        requires
            self.wf(),
        ensures
            r == self.consumed().len(),
    {
        self.consumed
    }

    /// Number of parts handed out so far.
    pub fn parts_cut(&self) -> (r: u64)
        requires
            self.wf(),
        ensures
            r == self.emitted().len(),
    {
        self.cut
    }

    /// Whether the last part has been handed out.
    pub fn is_finished(&self) -> (r: bool)
        ensures
            r == self.finished(),
    {
        self.finished
    }

    /// Reads the next piece of the stream and returns the parts that it
    /// completes, numbered on from the parts already handed out.
    pub fn push(&mut self, bytes: &[u8]) -> (parts: Vec<Part>)
        requires
            old(self).wf(),
            !old(self).finished(),
            old(self).consumed().len() + bytes@.len() <= u64::MAX,
        ensures
            final(self).wf(),
            !final(self).finished(),
            final(self).chunk_len() == old(self).chunk_len(),
            final(self).consumed() == old(self).consumed() + bytes@,
            final(self).emitted() == old(self).emitted() + bodies_of(parts@),
            forall|i: int|
                0 <= i < parts@.len() ==> #[trigger] parts@[i].number == old(self).emitted().len()
                    + i + 1,
    {
        let ghost old_bodies = self.bodies@;
        self.buffer.extend_from_slice(bytes);
        assert(self.buffer@ =~= old(self).buffer@ + bytes@);
        self.consumed = self.consumed + bytes.len() as u64;
        self.data = Ghost(self.data@ + bytes@);
        assert(self.data@ =~= self.bodies@.flatten() + self.buffer@);
        let mut parts: Vec<Part> = Vec::new();
        while self.buffer.len() >= self.chunk_size
            invariant
                self.chunk_size == old(self).chunk_size,
                self.chunk_size > 0,
                !self.finished,
                self.counters_wf(),
                self.consumed <= u64::MAX,
                self.data@ == old(self).data@ + bytes@,
                self.data@ == self.bodies@.flatten() + self.buffer@,
                forall|i: int|
                    0 <= i < self.bodies@.len() ==> #[trigger] self.bodies@[i].len()
                        == self.chunk_size,
                self.bodies@ == old_bodies + bodies_of(parts@),
                old_bodies == old(self).bodies@,
                forall|i: int|
                    0 <= i < parts@.len() ==> #[trigger] parts@[i].number == old_bodies.len() + i
                        + 1,
            decreases self.buffer@.len(),
        {
            let mut body = self.buffer.split_off(self.chunk_size);
            std::mem::swap(&mut body, &mut self.buffer);
            proof {
                lemma_flatten_uniform_len(self.bodies@, self.chunk_size as nat);
                let n = self.bodies@.len() as int;
                let c = self.chunk_size as int;
                assert(n <= n * c) by (nonlinear_arith)
                    requires
                        c >= 1,
                        n >= 0,
                ;
                lemma_flatten_push(self.bodies@, body@);
                assert(self.data@ =~= self.bodies@.push(body@).flatten() + self.buffer@);
            }
            self.cut = self.cut + 1;
            self.bodies = Ghost(self.bodies@.push(body@));
            let part = Part { number: self.cut, body };
            let ghost prev = parts@;
            parts.push(part);
            assert(bodies_of(parts@) =~= bodies_of(prev).push(part.body@));
        }
        parts
    }

    /// Ends the stream: hands out what is left as the last part, if anything
    /// is, after which the parts handed out are exactly the stream's chunks.
    pub fn flush(&mut self) -> (last: Option<Part>)
        requires
            old(self).wf(),
            !old(self).finished(),
        ensures
            final(self).wf(),
            final(self).finished(),
            final(self).chunk_len() == old(self).chunk_len(),
            final(self).consumed() == old(self).consumed(),
            last.is_some() <==> old(self).buffered().len() > 0,
            last matches Some(p) ==> {
                &&& p.number == old(self).emitted().len() + 1
                &&& p.body@ == old(self).buffered()
                &&& final(self).emitted() == old(self).emitted().push(p.body@)
            },
            last.is_none() ==> final(self).emitted() == old(self).emitted(),
            final(self).emitted() == chunks(final(self).consumed(), final(self).chunk_len()),
    {
        self.finished = true;
        if self.buffer.len() == 0 {
            proof {
                assert(self.data@ =~= self.bodies@.flatten());
                lemma_chunks_of_cut(self.bodies@, self.chunk_size as nat);
            }
            None
        } else {
            let body = self.buffer.split_off(0);
            proof {
                lemma_flatten_uniform_len(self.bodies@, self.chunk_size as nat);
                let n = self.bodies@.len() as int;
                let c = self.chunk_size as int;
                assert(n <= n * c) by (nonlinear_arith)
                    requires
                        c >= 1,
                        n >= 0,
                ;
                lemma_flatten_push(self.bodies@, body@);
                assert(self.data@ =~= self.bodies@.push(body@).flatten());
                lemma_chunks_of_cut(self.bodies@.push(body@), self.chunk_size as nat);
            }
            self.cut = self.cut + 1;
            self.bodies = Ghost(self.bodies@.push(body@));
            Some(Part { number: self.cut, body })
        }
    }
}

/// Pieces that all have length `c` flatten to `c` times as many items.
proof fn lemma_flatten_uniform_len(s: Seq<Seq<u8>>, c: nat)
    requires
        forall|i: int| 0 <= i < s.len() ==> #[trigger] s[i].len() == c,
    ensures
        s.flatten().len() == s.len() * c,
    decreases s.len(),
{
    if s.len() > 0 {
        lemma_flatten_uniform_len(s.drop_first(), c);
        assert(s.flatten().len() == c + s.drop_first().flatten().len());
        assert(s.len() * c == c + (s.len() - 1) * c) by (nonlinear_arith);
    }
}

proof fn lemma_flatten_push(s: Seq<Seq<u8>>, e: Seq<u8>)
    ensures
        s.push(e).flatten() == s.flatten() + e,
{
    s.lemma_flatten_push(e);
}

/// Full chunks followed by at most one shorter, non-empty piece are the
/// chunks of their concatenation.
proof fn lemma_chunks_of_cut(s: Seq<Seq<u8>>, c: nat)
    requires
        c > 0,
        forall|i: int| 0 <= i < s.len() - 1 ==> #[trigger] s[i].len() == c,
        s.len() > 0 ==> 0 < s.last().len() <= c,
    ensures
        chunks(s.flatten(), c) == s,
    decreases s.len(),
{
    if s.len() == 0 {
        assert(chunks(s.flatten(), c) =~= s);
    } else if s.len() == 1 {
        assert(s.flatten() == s[0] + s.drop_first().flatten());
        assert(s.flatten() =~= s[0]);
        assert(chunks(s.flatten(), c) =~= s);
    } else {
        let rest = s.drop_first();
        assert forall|i: int| 0 <= i < rest.len() - 1 implies #[trigger] rest[i].len() == c by {
            assert(rest[i] == s[i + 1]);
        }
        lemma_chunks_of_cut(rest, c);
        lemma_flatten_len_ge_last(rest);
        let data = s.flatten();
        assert(data == s[0] + rest.flatten());
        assert(data.take(c as int) =~= s[0]);
        assert(data.skip(c as int) =~= rest.flatten());
        assert(chunks(data, c) == seq![data.take(c as int)] + chunks(data.skip(c as int), c));
        assert(chunks(data, c) =~= s);
    }
}

proof fn lemma_flatten_len_ge_last(s: Seq<Seq<u8>>)
    requires
        s.len() > 0,
    ensures
        s.flatten().len() >= s.last().len(),
{
    s.lemma_flatten_and_flatten_alt_are_equivalent();
    s.lemma_flatten_length_ge_single_element_length(s.len() - 1);
}

/// Length of the last chunk of `n > 0` bytes cut by `c`.
pub open spec fn last_chunk_len(n: nat, c: nat) -> nat {
    if n % c == 0 {
        c
    } else {
        n % c
    }
}

/// Cutting an object of `N` bytes into chunks of `c` bytes gives `ceil(N / c)`
/// parts whose concatenation, in order, is the object again; every part but
/// the last has `c` bytes, and the last has `N mod c`, or `c` where `c` divides
/// `N`.
pub proof fn lemma_chunks_reconstruct(data: Seq<u8>, c: nat)
    requires
        c > 0,
    ensures
        chunks(data, c).len() == (data.len() + c - 1) / (c as int),
        chunks(data, c).flatten() == data,
        forall|i: int| 0 <= i < chunks(data, c).len() - 1 ==> #[trigger] chunks(data, c)[i].len() == c,
        data.len() > 0 ==> chunks(data, c).last().len() == last_chunk_len(data.len(), c),
    decreases data.len(),
{
    let n = data.len() as int;
    let ci = c as int;
    let ps = chunks(data, c);
    if n == 0 {
        assert((n + ci - 1) / ci == 0) by (nonlinear_arith)
            requires
                n == 0,
                ci > 0,
        ;
        assert(ps.flatten() =~= data);
    } else if n <= ci {
        assert((n + ci - 1) / ci == 1) by (nonlinear_arith)
            requires
                0 < n <= ci,
        ;
        assert(ps.flatten() == ps[0] + ps.drop_first().flatten());
        assert(ps.flatten() =~= data);
        if n == ci {
            lemma_fundamental_div_mod(n, ci);
            assert(n % ci == 0) by (nonlinear_arith)
                requires
                    n == ci,
                    ci > 0,
            ;
        } else {
            assert(n % ci == n) by (nonlinear_arith)
                requires
                    0 < n < ci,
            ;
        }
    } else {
        let rest = data.skip(ci);
        lemma_chunks_reconstruct(rest, c);
        let rs = chunks(rest, c);
        assert(ps == seq![data.take(ci)] + rs);
        assert(ps.flatten() == ps[0] + ps.drop_first().flatten());
        assert(ps.drop_first() =~= rs);
        assert(ps.flatten() =~= data);
        lemma_hoist_over_denominator(n - ci + ci - 1, 1, c);
        lemma_mod_add_multiples_vanish(n - ci, ci);
        assert forall|i: int| 0 <= i < ps.len() - 1 implies #[trigger] ps[i].len() == c by {
            if i > 0 {
                assert(ps[i] == rs[i - 1]);
            }
        }
        assert(ps.last() == rs.last());
    }
}

} // verus!
