//! Cutting a byte stream into units, and terminating units on the way out.
use vstd::prelude::*;
use vstd::slice::*;
use vstd::string::*;
use vstd::utf8::*;

verus! {

/// The byte that ends a line.
pub const NEWLINE: u8 = 10;

/// How the backend's byte stream is cut into units.
#[derive(Clone, Copy, Debug, PartialEq, Eq, Structural)]
pub enum FramingPolicy {
    /// Every received byte range is one unit.
    RawChunk,
    /// Units are lines: each ends with a newline, which is not part of it.
    LineDelimited,
}

/// The bytes written to the backend for a text payload: its UTF-8 encoding,
/// followed by a newline under the line-delimited policy.
pub open spec fn text_on_wire(policy: FramingPolicy, text: Seq<char>) -> Seq<u8> {
    match policy {
        FramingPolicy::RawChunk => encode_utf8(text),
        FramingPolicy::LineDelimited => encode_utf8(text).push(NEWLINE),
    }
}

/// Encodes a text payload for the backend.
pub fn encode_text(policy: FramingPolicy, text: &str) -> (out: Vec<u8>)
    ensures
        out@ == text_on_wire(policy, text@),
{
    let mut out = text.as_bytes_vec();
    match policy {
        FramingPolicy::RawChunk => {},
        FramingPolicy::LineDelimited => {
            out.push(NEWLINE);
        },
    }
    out
}

/// The bytes that follow the last newline of `s`: a line that is not yet
/// complete.
pub open spec fn pending(s: Seq<u8>) -> Seq<u8>
    decreases s.len(),
{
    if s.len() == 0 {
        Seq::empty()
    } else if s.last() == NEWLINE {
        Seq::empty()
    } else {
        pending(s.drop_last()).push(s.last())
    }
}

/// The complete lines of `s`, in order, without their newlines.
pub open spec fn lines(s: Seq<u8>) -> Seq<Seq<u8>>
    decreases s.len(),
{
    if s.len() == 0 {
        Seq::empty()
    } else if s.last() == NEWLINE {
        lines(s.drop_last()).push(pending(s.drop_last()))
    } else {
        lines(s.drop_last())
    }
}

/// Whether no byte of `s` is a newline.
pub open spec fn newline_free(s: Seq<u8>) -> bool {
    forall|i: int| 0 <= i < s.len() ==> s[i] != NEWLINE
}

/// The stream made of the given lines, each followed by a newline.
pub open spec fn joined(ls: Seq<Seq<u8>>) -> Seq<u8>
    decreases ls.len(),
{
    if ls.len() == 0 {
        Seq::empty()
    } else {
        joined(ls.drop_last()) + ls.last().push(NEWLINE)
    }
}

/// Whether every complete line of `s`, and the line still pending, is at
/// most `max` bytes long.
pub open spec fn within_limit(s: Seq<u8>, max: nat) -> bool {
    &&& forall|i: int| 0 <= i < lines(s).len() ==> (#[trigger] lines(s)[i]).len() <= max
    &&& pending(s).len() <= max
}

/// Neither a line nor the pending bytes hold a newline.
pub proof fn lemma_units_newline_free(s: Seq<u8>)
    ensures
        newline_free(pending(s)),
        forall|i: int| 0 <= i < lines(s).len() ==> newline_free(#[trigger] lines(s)[i]),
    decreases s.len(),
{
    if s.len() > 0 {
        let t = s.drop_last();
        lemma_units_newline_free(t);
        assert forall|i: int| 0 <= i < lines(s).len() implies newline_free(
            #[trigger] lines(s)[i],
        ) by {
            if i < lines(t).len() {
                assert(lines(s)[i] == lines(t)[i]);
            }
        }
    }
}

/// A stream without a newline holds no line yet: all of it is pending.
pub proof fn lemma_newline_free_is_pending(s: Seq<u8>)
    requires
        newline_free(s),
    ensures
        lines(s) == Seq::<Seq<u8>>::empty(),
        pending(s) == s,
    decreases s.len(),
{
    if s.len() > 0 {
        lemma_newline_free_is_pending(s.drop_last());
        assert(pending(s) =~= s);
    }
}

/// Nothing is lost or reordered: the lines, each with its newline, followed
/// by the pending bytes, are the stream itself.
pub proof fn lemma_rejoin(s: Seq<u8>)
    ensures
        joined(lines(s)) + pending(s) == s,
    decreases s.len(),
{
    if s.len() == 0 {
        assert(joined(lines(s)) + pending(s) =~= s);
    } else {
        let t = s.drop_last();
        lemma_rejoin(t);
        if s.last() == NEWLINE {
            let ls = lines(s);
            assert(ls.drop_last() =~= lines(t));
            assert(ls.last() == pending(t));
            assert(joined(ls) + pending(s) =~= (joined(lines(t)) + pending(t)).push(NEWLINE));
            assert(t.push(NEWLINE) =~= s);
        } else {
            assert(joined(lines(s)) + pending(s) =~= (joined(lines(t)) + pending(t)).push(
                s.last(),
            ));
            assert(t.push(s.last()) =~= s);
        }
    }
}

/// The cut is the only one: whenever a stream is made of newline-free lines,
/// each followed by a newline, and a newline-free rest, those are its lines
/// and its pending bytes.
pub proof fn lemma_cut_is_unique(ls: Seq<Seq<u8>>, rest: Seq<u8>)
    requires
        forall|i: int| 0 <= i < ls.len() ==> newline_free(#[trigger] ls[i]),
        newline_free(rest),
    ensures
        lines(joined(ls) + rest) == ls,
        pending(joined(ls) + rest) == rest,
    decreases ls.len(), rest.len(),
{
    let s = joined(ls) + rest;
    if rest.len() > 0 {
        let r = rest.drop_last();
        lemma_cut_is_unique(ls, r);
        assert(s.drop_last() =~= joined(ls) + r);
        assert(s.last() == rest.last());
        assert(pending(s) =~= rest);
    } else if ls.len() > 0 {
        let front = ls.drop_last();
        assert(forall|i: int| 0 <= i < front.len() ==> newline_free(#[trigger] front[i])) by {
            assert forall|i: int| 0 <= i < front.len() implies newline_free(
                #[trigger] front[i],
            ) by {
                assert(front[i] == ls[i]);
            }
        }
        lemma_cut_is_unique(front, ls.last());
        assert(s =~= (joined(front) + ls.last()).push(NEWLINE));
        assert(s.drop_last() =~= joined(front) + ls.last());
        assert(lines(s) =~= ls);
        assert(pending(s) =~= rest);
    } else {
        assert(s =~= Seq::<u8>::empty());
        assert(lines(s) =~= ls);
        assert(pending(s) =~= rest);
    }
}

/// Cutting does not depend on how the stream arrived: the lines of `a + b`
/// are the lines of `a`, then the lines of what `a` left pending followed by
/// `b`, and the same bytes stay pending.
pub proof fn lemma_cut_in_chunks(a: Seq<u8>, b: Seq<u8>)
    ensures
        lines(a + b) == lines(a) + lines(pending(a) + b),
        pending(a + b) == pending(pending(a) + b),
    decreases b.len(),
{
    let p = pending(a);
    if b.len() == 0 {
        lemma_units_newline_free(a);
        lemma_newline_free_is_pending(p);
        assert(a + b =~= a);
        assert(p + b =~= p);
        assert(lines(a) + lines(p) =~= lines(a));
    } else {
        let c = b.drop_last();
        lemma_cut_in_chunks(a, c);
        assert((a + b).drop_last() =~= a + c);
        assert((p + b).drop_last() =~= p + c);
        assert((a + b).last() == b.last());
        assert((p + b).last() == b.last());
        if b.last() == NEWLINE {
            assert(lines(a + b) =~= lines(a) + lines(p + b));
        }
    }
}

/// A stream within the limit was within it at every earlier moment: the
/// limit holds of each of its prefixes.
pub proof fn lemma_limit_holds_of_prefix(a: Seq<u8>, b: Seq<u8>, max: nat)
    requires
        within_limit(a + b, max),
    ensures
        within_limit(a, max),
    decreases b.len(),
{
    if b.len() == 0 {
        assert(a + b =~= a);
    } else {
        let c = b.drop_last();
        let s = a + b;
        let t = a + c;
        assert(s.drop_last() =~= t);
        assert(s.last() == b.last());
        if b.last() == NEWLINE {
            assert(lines(s) == lines(t).push(pending(t)));
            assert forall|i: int| 0 <= i < lines(t).len() implies (#[trigger] lines(t)[i]).len()
                <= max by {
                assert(lines(s)[i] == lines(t)[i]);
            }
            assert(lines(s)[lines(t).len() as int] == pending(t));
        } else {
            assert(lines(s) == lines(t));
            assert(pending(s) == pending(t).push(b.last()));
        }
        lemma_limit_holds_of_prefix(a, c, max);
    }
}

/// The limit can be checked chunk by chunk: `a + b` is within it exactly
/// when `a` is, and so is what `a` left pending followed by `b`.
pub proof fn lemma_limit_in_chunks(a: Seq<u8>, b: Seq<u8>, max: nat)
    ensures
        within_limit(a + b, max) <==> within_limit(a, max) && within_limit(pending(a) + b, max),
{
    let p = pending(a);
    lemma_cut_in_chunks(a, b);
    let whole = lines(a + b);
    let first = lines(a);
    let second = lines(p + b);
    if within_limit(a + b, max) {
        lemma_limit_holds_of_prefix(a, b, max);
        assert forall|i: int| 0 <= i < second.len() implies (#[trigger] second[i]).len()
            <= max by {
            assert(whole[first.len() + i] == second[i]);
        }
    }
    if within_limit(a, max) && within_limit(p + b, max) {
        assert forall|i: int| 0 <= i < whole.len() implies (#[trigger] whole[i]).len() <= max by {
            if i < first.len() {
                assert(whole[i] == first[i]);
            } else {
                assert(whole[i] == second[i - first.len()]);
            }
        }
    }
}

/// Why a chunk of the stream was refused.
#[derive(Clone, Copy, Debug, PartialEq, Eq, Structural)]
pub enum CodecError {
    /// A line, complete or still pending, is longer than the codec's limit.
    LineTooLong,
}

/// What a codec is, to its contracts: its policy, its limit on the length of
/// a line, and the bytes it holds back until their line is complete.
pub struct CodecModel {
    pub policy: FramingPolicy,
    pub max_len: usize,
    pub pending: Seq<u8>,
}

impl CodecModel {
    /// A codec holds back nothing under the raw-chunk policy; under the
    /// line-delimited policy it holds back part of one line, within the limit.
    pub open spec fn wf(self) -> bool {
        match self.policy {
            FramingPolicy::RawChunk => self.pending.len() == 0,
            FramingPolicy::LineDelimited => newline_free(self.pending) && self.pending.len()
                <= self.max_len,
        }
    }

    /// Whether the codec takes `data`: always under the raw-chunk policy;
    /// under the line-delimited policy when no line of the stream so far,
    /// complete or pending, exceeds the limit.
    pub open spec fn accepts(self, data: Seq<u8>) -> bool {
        match self.policy {
            FramingPolicy::RawChunk => true,
            FramingPolicy::LineDelimited => within_limit(self.pending + data, self.max_len as nat),
        }
    }

    /// The units that `data` completes. Under the raw-chunk policy a chunk is
    /// one unit, and an empty chunk none.
    pub open spec fn units(self, data: Seq<u8>) -> Seq<Seq<u8>> {
        match self.policy {
            FramingPolicy::RawChunk => if data.len() == 0 {
                Seq::empty()
            } else {
                seq![data]
            },
            FramingPolicy::LineDelimited => lines(self.pending + data),
        }
    }

    /// The codec once it has taken `data`.
    pub open spec fn after(self, data: Seq<u8>) -> CodecModel {
        match self.policy {
            FramingPolicy::RawChunk => self,
            FramingPolicy::LineDelimited => CodecModel {
                pending: pending(self.pending + data),
                ..self
            },
        }
    }

    /// The codec once it has taken each of `chunks`, one after the other.
    pub open spec fn after_all(self, chunks: Seq<Seq<u8>>) -> CodecModel
        decreases chunks.len(),
    {
        if chunks.len() == 0 {
            self
        } else {
            self.after_all(chunks.drop_last()).after(chunks.last())
        }
    }

    /// Whether the codec takes each of `chunks` in turn.
    pub open spec fn accepts_all(self, chunks: Seq<Seq<u8>>) -> bool
        decreases chunks.len(),
    {
        chunks.len() > 0 ==> self.accepts_all(chunks.drop_last()) && self.after_all(
            chunks.drop_last(),
        ).accepts(chunks.last())
    }

    /// The units that `chunks` complete when the codec takes them one after
    /// the other, in the order in which they are handed out.
    pub open spec fn units_of_all(self, chunks: Seq<Seq<u8>>) -> Seq<Seq<u8>>
        decreases chunks.len(),
    {
        if chunks.len() == 0 {
            Seq::empty()
        } else {
            self.units_of_all(chunks.drop_last()) + self.after_all(chunks.drop_last()).units(
                chunks.last(),
            )
        }
    }
}

/// The bytes of `chunks`, one after the other.
pub open spec fn stream(chunks: Seq<Seq<u8>>) -> Seq<u8>
    decreases chunks.len(),
{
    if chunks.len() == 0 {
        Seq::empty()
    } else {
        stream(chunks.drop_last()) + chunks.last()
    }
}

/// Those of `chunks` that are not empty, in order.
pub open spec fn nonempty(chunks: Seq<Seq<u8>>) -> Seq<Seq<u8>>
    decreases chunks.len(),
{
    if chunks.len() == 0 {
        Seq::empty()
    } else if chunks.last().len() == 0 {
        nonempty(chunks.drop_last())
    } else {
        nonempty(chunks.drop_last()).push(chunks.last())
    }
}

/// A well-formed codec is still well-formed after every chunk it accepts.
pub proof fn lemma_codec_stays_well_formed(c: CodecModel, data: Seq<u8>)
    requires
        c.wf(),
        c.accepts(data),
    ensures
        c.after(data).wf(),
{
    lemma_units_newline_free(c.pending + data);
}

/// Under the line-delimited policy the units do not depend on where the
/// stream was split into chunks: a codec that takes `a` and then `b` accepts
/// exactly when it would accept `a + b` at once, hands out the same units in
/// the same order, none of them twice, and ends up holding back the same
/// bytes.
pub proof fn lemma_decode_in_chunks(c: CodecModel, a: Seq<u8>, b: Seq<u8>)
    requires
        c.wf(),
        c.policy == FramingPolicy::LineDelimited,
    ensures
        c.accepts(a + b) <==> c.accepts(a) && c.after(a).accepts(b),
        c.units(a + b) == c.units(a) + c.after(a).units(b),
        c.after(a + b) == c.after(a).after(b),
{
    assert(c.pending + (a + b) =~= (c.pending + a) + b);
    lemma_cut_in_chunks(c.pending + a, b);
    lemma_limit_in_chunks(c.pending + a, b, c.max_len as nat);
}

/// Under the line-delimited policy decoding loses nothing: the units handed
/// out, each with its newline back, followed by the bytes held back, are the
/// bytes held back before followed by the chunk.
pub proof fn lemma_decode_keeps_every_byte(c: CodecModel, data: Seq<u8>)
    requires
        c.policy == FramingPolicy::LineDelimited,
    ensures
        joined(c.units(data)) + c.after(data).pending == c.pending + data,
{
    lemma_rejoin(c.pending + data);
}

/// Under the line-delimited policy the units are the lines of the stream,
/// however the stream arrives: a codec takes `chunks` one after the other
/// exactly when the whole stream stays within its limit, the units it hands
/// out are the complete lines of the bytes it held back followed by the
/// stream, in stream order, and it ends up holding back what follows the
/// last newline.
pub proof fn lemma_lines_of_any_chunking(c: CodecModel, chunks: Seq<Seq<u8>>)
    requires
        c.wf(),
        c.policy == FramingPolicy::LineDelimited,
    ensures
        c.accepts_all(chunks) <==> c.accepts(stream(chunks)),
        c.accepts_all(chunks) ==> c.units_of_all(chunks) == lines(c.pending + stream(chunks)),
        c.accepts_all(chunks) ==> c.after_all(chunks) == c.after(stream(chunks)),
        c.accepts_all(chunks) ==> c.after_all(chunks).wf(),
    decreases chunks.len(),
{
    if chunks.len() == 0 {
        lemma_newline_free_is_pending(c.pending);
        assert(c.pending + stream(chunks) =~= c.pending);
    } else {
        let front = chunks.drop_last();
        lemma_lines_of_any_chunking(c, front);
        lemma_decode_in_chunks(c, stream(front), chunks.last());
        if c.accepts_all(chunks) {
            lemma_codec_stays_well_formed(c.after_all(front), chunks.last());
        }
    }
}

/// Under the raw-chunk policy every chunk is taken, and the units are the
/// chunks themselves, but for the empty ones: nothing is held back, split or
/// joined.
pub proof fn lemma_raw_chunks_are_units(c: CodecModel, chunks: Seq<Seq<u8>>)
    requires
        c.policy == FramingPolicy::RawChunk,
    ensures
        c.accepts_all(chunks),
        c.units_of_all(chunks) == nonempty(chunks),
        c.after_all(chunks) == c,
    decreases chunks.len(),
{
    if chunks.len() > 0 {
        lemma_raw_chunks_are_units(c, chunks.drop_last());
        assert(c.units_of_all(chunks) =~= nonempty(chunks));
    }
}

/// Cuts the backend's byte stream into units, chunk by chunk.
pub struct FramingCodec {
    policy: FramingPolicy,
    max_len: usize,
    buffer: Vec<u8>,
}

impl View for FramingCodec {
    type V = CodecModel;

    closed spec fn view(&self) -> CodecModel {
        CodecModel { policy: self.policy, max_len: self.max_len, pending: self.buffer@ }
    }
}

impl FramingCodec {
    /// Every codec is well-formed.
    #[verifier::type_invariant]
    pub open spec fn well_formed(self) -> bool {
        self@.wf()
    }

    /// A codec without a limit on the length of a line.
    pub fn new(policy: FramingPolicy) -> (codec: Self)
        ensures
            codec@ == (CodecModel { policy, max_len: usize::MAX, pending: Seq::empty() }),
            codec@.wf(),
    {
        FramingCodec { policy, max_len: usize::MAX, buffer: Vec::new() }
    }

    /// A codec that refuses lines of more than `max_len` bytes, the newline
    /// not counted. The limit has no bearing on raw chunks.
    pub fn with_max_length(policy: FramingPolicy, max_len: usize) -> (codec: Self)
        ensures
            codec@ == (CodecModel { policy, max_len, pending: Seq::empty() }),
            codec@.wf(),
    {
        FramingCodec { policy, max_len, buffer: Vec::new() }
    }

    /// The policy the codec was made with.
    pub fn policy(&self) -> (policy: FramingPolicy)
        ensures
            policy == self@.policy,
    {
        self.policy
    }

    /// The longest line the codec takes.
    pub fn max_length(&self) -> (max_len: usize)
        ensures
            max_len == self@.max_len,
    {
        self.max_len
    }

    /// The bytes held back: the beginning of a line whose newline has not
    /// arrived.
    pub fn buffered(&self) -> (held: &[u8])
        ensures
            held@ == self@.pending,
            self@.wf(),
    {
        proof {
            use_type_invariant(self);
        }
        self.buffer.as_slice()
    }

    /// Takes the next chunk of the stream and hands out the units it
    /// completes, in stream order. A chunk that would make a line exceed the
    /// limit is refused as a whole, and the codec stays as it was.
    pub fn decode(&mut self, data: &[u8]) -> (r: Result<Vec<Vec<u8>>, CodecError>)
        ensures
            r is Ok <==> old(self)@.accepts(data@),
            match r {
                Ok(units) => units.deep_view() == old(self)@.units(data@) && final(self)@ == old(
                    self,
                )@.after(data@),
                Err(e) => e == CodecError::LineTooLong && final(self)@ == old(self)@,
            },
            final(self)@.wf(),
    {
        proof {
            use_type_invariant(&*self);
        }
        let mut units: Vec<Vec<u8>> = Vec::new();
        match self.policy {
            FramingPolicy::RawChunk => {
                if data.len() > 0 {
                    let unit = slice_to_vec(data);
                    units.push(unit);
                    assert(units.deep_view() =~= seq![data@]) by {
                        assert(units@[0].deep_view() =~= data@);
                    }
                } else {
                    assert(units.deep_view() =~= Seq::<Seq<u8>>::empty());
                }
                Ok(units)
            },
            FramingPolicy::LineDelimited => {
                let max = self.max_len;
                let ghost start = self.buffer@;
                let mut cur: Vec<u8> = slice_to_vec(self.buffer.as_slice());
                let mut i: usize = 0;
                proof {
                    lemma_newline_free_is_pending(start);
                    assert(start + data@.subrange(0, 0) =~= start);
                    assert(units.deep_view() =~= Seq::<Seq<u8>>::empty());
                }
                while i < data.len()
                    invariant
                        i <= data.len(),
                        *self == *old(self),
                        self@.wf(),
                        self@.policy == FramingPolicy::LineDelimited,
                        self@.max_len == max,
                        self@.pending == start,
                        units.deep_view() == lines(start + data@.subrange(0, i as int)),
                        cur@ == pending(start + data@.subrange(0, i as int)),
                        within_limit(start + data@.subrange(0, i as int), max as nat),
                    decreases data.len() - i,
                {
                    let byte = data[i];
                    let ghost seen = start + data@.subrange(0, i as int);
                    let ghost next = start + data@.subrange(0, i + 1);
                    proof {
                        assert(next.drop_last() =~= seen);
                        assert(next.last() == byte);
                    }
                    if byte == NEWLINE {
                        let ghost before = units.deep_view();
                        units.push(cur);
                        cur = Vec::new();
                        proof {
                            assert(units@.last().deep_view() =~= pending(seen));
                            assert(units.deep_view() =~= before.push(pending(seen)));
                            assert(cur@ =~= pending(next));
                        }
                    } else {
                        if cur.len() >= max {
                            proof {
                                assert(data@ =~= data@.subrange(0, i + 1) + data@.subrange(
                                    i + 1,
                                    data@.len() as int,
                                ));
                                assert(start + data@ =~= next + data@.subrange(
                                    i + 1,
                                    data@.len() as int,
                                ));
                                if within_limit(start + data@, max as nat) {
                                    lemma_limit_holds_of_prefix(
                                        next,
                                        data@.subrange(i + 1, data@.len() as int),
                                        max as nat,
                                    );
                                }
                            }
                            return Err(CodecError::LineTooLong);
                        }
                        cur.push(byte);
                    }
                    i += 1;
                }
                proof {
                    assert(data@.subrange(0, i as int) =~= data@);
                    lemma_units_newline_free(start + data@);
                }
                self.buffer = cur;
                Ok(units)
            },
        }
    }
}

} // verus!
