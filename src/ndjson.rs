use vstd::prelude::*;

verus! {

/// The byte that terminates a record.
pub const NEWLINE: u8 = 10;

/// The newline-terminated lines of `s`, each without its newline, in order.
/// Bytes after the last newline form no line.
pub open spec fn lines(s: Seq<u8>) -> Seq<Seq<u8>>
    decreases s.len(),
{
    if s.len() == 0 {
        Seq::empty()
    } else {
        let rest = lines(s.subrange(1, s.len() as int));
        if s[0] == NEWLINE {
            seq![Seq::empty()] + rest
        } else if rest.len() == 0 {
            Seq::empty()
        } else {
            rest.update(0, seq![s[0]] + rest[0])
        }
    }
}

/// `s` holds no newline.
pub open spec fn no_newline(s: Seq<u8>) -> bool {
    forall|j: int| 0 <= j < s.len() ==> s[j] != NEWLINE
}

/// `i` is the position of the first newline in `s`.
pub open spec fn first_newline_at(s: Seq<u8>, i: int) -> bool {
    0 <= i < s.len() && s[i] == NEWLINE && no_newline(s.subrange(0, i))
}

/// `s` is empty or ends with a newline.
pub open spec fn line_aligned(s: Seq<u8>) -> bool {
    s.len() == 0 || s.last() == NEWLINE
}

/// The concatenation of a sequence of chunks.
pub open spec fn flatten(chunks: Seq<Seq<u8>>) -> Seq<u8>
    decreases chunks.len(),
{
    if chunks.len() == 0 {
        Seq::empty()
    } else {
        flatten(chunks.drop_last()) + chunks.last()
    }
}

pub proof fn lemma_lines_no_newline(s: Seq<u8>)
    requires
        no_newline(s),
    ensures
        lines(s) == Seq::<Seq<u8>>::empty(),
    decreases s.len(),
{
    if s.len() > 0 {
        lemma_lines_no_newline(s.subrange(1, s.len() as int));
    }
}

pub proof fn lemma_lines_first_newline(s: Seq<u8>, i: int)
    requires
        first_newline_at(s, i),
    ensures
        lines(s) == seq![s.subrange(0, i)] + lines(s.subrange(i + 1, s.len() as int)),
    decreases i,
{
    let rest = s.subrange(1, s.len() as int);
    if i == 0 {
        assert(s.subrange(0, 0) =~= Seq::<u8>::empty());
        assert(rest =~= s.subrange(i + 1, s.len() as int));
    } else {
        assert(s.subrange(0, i)[0] == s[0]);
        assert(rest.subrange(0, i - 1) =~= s.subrange(1, i));
        assert(first_newline_at(rest, i - 1)) by {
            assert forall|j: int| 0 <= j < i - 1 implies #[trigger] rest.subrange(0, i - 1)[j] != NEWLINE by {
                assert(s.subrange(0, i)[j + 1] == rest.subrange(0, i - 1)[j]);
            }
        }
        lemma_lines_first_newline(rest, i - 1);
        assert(rest.subrange(i, rest.len() as int) =~= s.subrange(i + 1, s.len() as int));
        assert(seq![s[0]] + rest.subrange(0, i - 1) =~= s.subrange(0, i));
        assert(lines(s) =~= seq![s.subrange(0, i)] + lines(s.subrange(i + 1, s.len() as int)));
    }
}

/// A line-aligned prefix contributes its own lines, whatever follows it.
pub proof fn lemma_lines_append(a: Seq<u8>, x: Seq<u8>)
    requires
        line_aligned(a),
    ensures
        lines(a + x) == lines(a) + lines(x),
    decreases a.len(),
{
    if a.len() == 0 {
        assert(a + x =~= x);
        assert(lines(a) + lines(x) =~= lines(x));
    } else {
        let a1 = a.subrange(1, a.len() as int);
        assert((a + x).subrange(1, (a + x).len() as int) =~= a1 + x);
        if a[0] == NEWLINE {
            if a1.len() > 0 {
                assert(a1.last() == a.last());
            }
            lemma_lines_append(a1, x);
            assert(lines(a + x) =~= lines(a) + lines(x));
        } else {
            assert(a1.len() > 0);
            assert(a1.last() == a.last());
            lemma_lines_append(a1, x);
            lemma_lines_nonempty(a1);
            assert(lines(a + x) =~= lines(a) + lines(x));
        }
    }
}

/// A sequence that holds a newline has at least one line.
pub proof fn lemma_lines_nonempty(s: Seq<u8>)
    requires
        s.len() > 0,
        s.last() == NEWLINE,
    ensures
        lines(s).len() > 0,
    decreases s.len(),
{
    if s[0] != NEWLINE {
        let rest = s.subrange(1, s.len() as int);
        assert(rest.last() == s.last());
        lemma_lines_nonempty(rest);
    }
}

/// A line's lines grow only at the end: the lines of `a` begin the lines of any
/// extension of `a`.
pub proof fn lemma_lines_prefix(a: Seq<u8>, x: Seq<u8>)
    ensures
        lines(a).len() <= lines(a + x).len(),
        forall|i: int| 0 <= i < lines(a).len() ==> #[trigger] lines(a)[i] == lines(a + x)[i],
    decreases a.len(),
{
    if a.len() == 0 {
    } else {
        let a1 = a.subrange(1, a.len() as int);
        assert((a + x).subrange(1, (a + x).len() as int) =~= a1 + x);
        lemma_lines_prefix(a1, x);
    }
}

/// What UTF-8 decoding makes of `bytes`: the text, or nothing where the bytes
/// are not well-formed UTF-8.
pub uninterp spec fn utf8_text(bytes: Seq<u8>) -> Option<Seq<char>>;

/// Relies on memchr::memchr: the index of the first occurrence of `needle`
/// in `haystack`, or `None` where it does not occur.
#[verifier::external_body]
fn find_byte(needle: u8, haystack: &[u8]) -> (r: Option<usize>)
    ensures
        match r {
            Some(i) => i < haystack@.len() && haystack@[i as int] == needle && forall|j: int|
                0 <= j < i ==> haystack@[j] != needle,
            None => forall|j: int| 0 <= j < haystack@.len() ==> haystack@[j] != needle,
        },
{
    memchr::memchr(needle, haystack)
}

/// Relies on String::from_utf8: the bytes as text when they are well-formed
/// UTF-8.
#[verifier::external_body]
fn text_of(bytes: Vec<u8>) -> (r: Option<String>)
    ensures
        match r {
            Some(s) => utf8_text(bytes@) == Some(s@),
            None => utf8_text(bytes@) is None,
        },
{
    String::from_utf8(bytes).ok()
}

/// Why a line could not become a record.
#[derive(Debug, PartialEq, Eq)]
pub enum DecodeError<E> {
    /// The line's bytes are not well-formed UTF-8.
    InvalidUtf8,
    /// The text was refused by the record decoder.
    Invalid(E),
}

/// The outcome of one pull on a decoder.
#[derive(Debug)]
pub enum Pull<T, E> {
    /// The next line, decoded.
    Record(Result<T, DecodeError<E>>),
    /// No complete line is buffered: more input is needed.
    NeedInput,
    /// The sequence has ended: the input ended, or a line failed to decode.
    Finished,
}

/// Where a decoder stands.
#[derive(Debug, Clone, Copy, PartialEq, Eq, Structural)]
pub enum Phase {
    Open,
    Exhausted,
    Failed,
}

/// The record decoder's raw result, with its error lifted.
pub open spec fn lifted<T, E>(raw: Result<T, E>) -> Result<T, DecodeError<E>> {
    match raw {
        Ok(t) => Ok(t),
        Err(e) => Err(DecodeError::Invalid(e)),
    }
}

/// `item` is a possible outcome of decoding `line` with `decode`: the line is
/// read as UTF-8, and its text is handed to `decode`.
pub open spec fn record_of<T, E, F: Fn(String) -> Result<T, E>>(
    decode: F,
    line: Seq<u8>,
    item: Result<T, DecodeError<E>>,
) -> bool {
    match utf8_text(line) {
        None => item == Err::<T, DecodeError<E>>(DecodeError::InvalidUtf8),
        Some(text) => exists|s: String, raw: Result<T, E>|
            #[trigger] call_ensures(decode, (s,), raw) && s@ == text && item == lifted(raw),
    }
}

/// `items` is what a decoder yields for the complete lines `ls`: each line
/// decoded in order, ending right after the first failure.
pub open spec fn decoded_run<T, E, F: Fn(String) -> Result<T, E>>(
    decode: F,
    ls: Seq<Seq<u8>>,
    items: Seq<Result<T, DecodeError<E>>>,
) -> bool {
    &&& items.len() <= ls.len()
    &&& forall|i: int| 0 <= i < items.len() ==> record_of(decode, ls[i], #[trigger] items[i])
    &&& forall|i: int| 0 <= i < items.len() - 1 ==> (#[trigger] items[i]) is Ok
    &&& items.len() < ls.len() ==> items.len() > 0 && items.last() is Err
}

/// An incremental decoder of newline-delimited records. Bytes come in chunks
/// cut anywhere; each newline-terminated line becomes one record, in order.
pub struct NDJsonStream {
    buf: Vec<u8>,
    waiting: bool,
    phase: Phase,
    received: Ghost<Seq<u8>>,
    consumed: Ghost<Seq<u8>>,
}

impl NDJsonStream {
    /// Every byte handed to the decoder so far, in order.
    pub closed spec fn received(&self) -> Seq<u8> {
        self.received@
    }

    /// How many lines have been taken from the input.
    pub closed spec fn taken(&self) -> nat {
        lines(self.consumed@).len()
    }

    pub closed spec fn phase(&self) -> Phase {
        self.phase
    }

    /// The bytes buffered after the last line taken.
    pub closed spec fn pending(&self) -> Seq<u8> {
        self.buf@
    }

    pub closed spec fn wf(&self) -> bool {
        &&& self.received@ == self.consumed@ + self.buf@
        &&& line_aligned(self.consumed@)
        &&& self.waiting ==> no_newline(self.buf@)
    }

    proof fn lemma_model(&self)
        requires
            self.wf(),
        ensures
            lines(self.received()) == lines(self.consumed@) + lines(self.pending()),
            self.taken() <= lines(self.received()).len(),
    {
        lemma_lines_append(self.consumed@, self.buf@);
    }

    /// A decoder that has received nothing.
    pub fn new() -> (r: NDJsonStream)
        ensures
            r.wf(),
            r.received() == Seq::<u8>::empty(),
            r.taken() == 0,
            r.phase() == Phase::Open,
    {
        NDJsonStream {
            buf: Vec::new(),
            waiting: false,
            phase: Phase::Open,
            received: Ghost(Seq::empty()),
            consumed: Ghost(Seq::empty()),
        }
    }

    /// Appends a chunk of input, which may be empty or cut a line anywhere.
    pub fn push_chunk(&mut self, chunk: &[u8])
        requires
            old(self).wf(),
        ensures
            final(self).wf(),
            final(self).received() == old(self).received() + chunk@,
            final(self).taken() == old(self).taken(),
            final(self).phase() == old(self).phase(),
    {
        self.buf.extend_from_slice(chunk);
        self.waiting = false;
        self.received = Ghost(self.received@ + chunk@);
        assert(self.received@ =~= self.consumed@ + self.buf@);
    }

    /// Produces the next record when a complete line is buffered. The line is
    /// the first of the received lines not yet taken; it is read as UTF-8 and
    /// handed to `decode`. A failure ends the sequence.
    pub fn poll_next<T, E, F: Fn(String) -> Result<T, E>>(&mut self, decode: &F) -> (r: Pull<T, E>)
        requires
            old(self).wf(),
            forall|s: String| call_requires(*decode, (s,)),
        ensures
            final(self).wf(),
            final(self).received() == old(self).received(),
            old(self).phase() != Phase::Open ==> {
                &&& r is Finished
                &&& final(self).taken() == old(self).taken()
                &&& final(self).phase() == old(self).phase()
            },
            old(self).phase() == Phase::Open && old(self).taken() == lines(old(self).received()).len() ==> {
                &&& r is NeedInput
                &&& final(self).taken() == old(self).taken()
                &&& final(self).phase() == Phase::Open
            },
            old(self).phase() == Phase::Open && old(self).taken() < lines(old(self).received()).len() ==> match r {
                Pull::Record(item) => {
                    &&& record_of(*decode, lines(old(self).received())[old(self).taken() as int], item)
                    &&& final(self).taken() == old(self).taken() + 1
                    &&& final(self).phase() == (if item is Ok {
                        Phase::Open
                    } else {
                        Phase::Failed
                    })
                },
                _ => false,
            },
    {
        proof {
            self.lemma_model();
        }
        if self.phase != Phase::Open {
            return Pull::Finished;
        }
        if !self.waiting && self.buf.len() > 0 {
            match find_byte(NEWLINE, self.buf.as_slice()) {
                Some(i) => {
                    let ghost before = self.buf@;
                    proof {
                        assert(first_newline_at(before, i as int));
                        lemma_lines_first_newline(before, i as int);
                        let head = before.subrange(0, i as int + 1);
                        assert(first_newline_at(head, i as int)) by {
                            assert(head.subrange(0, i as int) =~= before.subrange(0, i as int));
                        }
                        lemma_lines_first_newline(head, i as int);
                        assert(head.subrange(i as int + 1, head.len() as int) =~= Seq::<u8>::empty());
                        assert(head.subrange(0, i as int) =~= before.subrange(0, i as int));
                        lemma_lines_append(self.consumed@, head);
                    }
                    let mut line = self.buf.split_off(i + 1);
                    std::mem::swap(&mut line, &mut self.buf);
                    line.truncate(i);
                    proof {
                        assert(line@ =~= before.subrange(0, i as int));
                        assert(self.buf@ =~= before.subrange(i as int + 1, before.len() as int));
                        self.consumed = Ghost(self.consumed@ + before.subrange(0, i as int + 1));
                        assert(self.received@ =~= self.consumed@ + self.buf@);
                        assert(lines(self.received@)[lines(old(self).consumed@).len() as int]
                            == line@);
                    }
                    let item = match text_of(line) {
                        None => Err(DecodeError::InvalidUtf8),
                        Some(text) => {
                            let ghost t = text;
                            let raw = decode(text);
                            assert(call_ensures(*decode, (t,), raw));
                            match raw {
                                Ok(v) => Ok(v),
                                Err(e) => Err(DecodeError::Invalid(e)),
                            }
                        },
                    };
                    if item.is_err() {
                        self.phase = Phase::Failed;
                    }
                    return Pull::Record(item);
                },
                None => {
                    self.waiting = true;
                    proof {
                        lemma_lines_no_newline(self.buf@);
                    }
                },
            }
        }
        proof {
            lemma_lines_no_newline(self.buf@);
        }
        Pull::NeedInput
    }

    /// The input has ended: bytes after the last newline are dropped and no
    /// further record is produced.
    pub fn finish(&mut self)
        requires
            old(self).wf(),
        ensures
            final(self).wf(),
            final(self).received() == old(self).received(),
            final(self).taken() == old(self).taken(),
            final(self).phase() == (if old(self).phase() == Phase::Open {
                Phase::Exhausted
            } else {
                old(self).phase()
            }),
    {
        if self.phase == Phase::Open {
            self.phase = Phase::Exhausted;
        }
    }
}

/// The byte sequences that a list of chunks holds.
pub open spec fn chunk_views(chunks: Seq<Vec<u8>>) -> Seq<Seq<u8>> {
    chunks.map_values(|c: Vec<u8>| c@)
}

/// `items` is what `stream` has produced so far with `decode`.
pub open spec fn produced<T, E, F: Fn(String) -> Result<T, E>>(
    decode: F,
    stream: NDJsonStream,
    items: Seq<Result<T, DecodeError<E>>>,
) -> bool {
    let ls = lines(stream.received());
    &&& items.len() == stream.taken()
    &&& forall|i: int| 0 <= i < items.len() ==> record_of(decode, ls[i], #[trigger] items[i])
    &&& forall|i: int| 0 <= i < items.len() - 1 ==> (#[trigger] items[i]) is Ok
    &&& (stream.phase() == Phase::Failed) == (items.len() > 0 && items.last() is Err)
}

/// Decodes a body that arrived as `chunks`: every newline-terminated line of
/// their concatenation becomes one record, in order, up to and including the
/// first that fails. How the bytes were cut into chunks does not matter.
pub fn decode_chunks<T, E, F: Fn(String) -> Result<T, E>>(
    chunks: &Vec<Vec<u8>>,
    decode: &F,
) -> (r: Vec<Result<T, DecodeError<E>>>)
    requires
        forall|s: String| call_requires(*decode, (s,)),
    ensures
        decoded_run(*decode, lines(flatten(chunk_views(chunks@))), r@),
{
    let ghost views = chunk_views(chunks@);
    let mut stream = NDJsonStream::new();
    let mut out: Vec<Result<T, DecodeError<E>>> = Vec::new();
    let mut k: usize = 0;
    proof {
        assert(views.take(0) =~= Seq::<Seq<u8>>::empty());
    }
    while k < chunks.len()
        invariant
            stream.wf(),
            0 <= k <= chunks.len(),
            views == chunk_views(chunks@),
            stream.received() == flatten(views.take(k as int)),
            forall|s: String| call_requires(*decode, (s,)),
            produced(*decode, stream, out@),
            stream.phase() != Phase::Exhausted,
            stream.phase() == Phase::Open ==> stream.taken() == lines(stream.received()).len(),
        decreases chunks.len() - k,
    {
        let ghost before = stream.received();
        proof {
            stream.lemma_model();
        }
        stream.push_chunk(chunks[k].as_slice());
        proof {
            assert(views.take(k + 1).drop_last() =~= views.take(k as int));
            assert(views.take(k + 1).last() == chunks@[k as int]@);
            lemma_lines_prefix(before, chunks@[k as int]@);
            assert forall|i: int| 0 <= i < out@.len() implies record_of(
                *decode,
                lines(stream.received())[i],
                #[trigger] out@[i],
            ) by {
                assert(lines(before)[i] == lines(stream.received())[i]);
            }
        }
        loop
            invariant
                stream.wf(),
                stream.received() == flatten(views.take(k + 1)),
                forall|s: String| call_requires(*decode, (s,)),
                produced(*decode, stream, out@),
                stream.phase() != Phase::Exhausted,
            ensures
                stream.phase() == Phase::Open ==> stream.taken() == lines(stream.received()).len(),
            decreases lines(stream.received()).len() - stream.taken(),
        {
            proof {
                stream.lemma_model();
            }
            let ghost prev = out@;
            match stream.poll_next(decode) {
                Pull::Record(item) => {
                    out.push(item);
                    proof {
                        assert(out@.drop_last() =~= prev);
                    }
                },
                _ => break,
            }
        }
        k += 1;
    }
    proof {
        assert(views.take(k as int) =~= views);
        stream.lemma_model();
    }
    stream.finish();
    out
}

/// `decode` gives one result for each text.
pub open spec fn deterministic<T, E, F: Fn(String) -> Result<T, E>>(decode: F) -> bool {
    forall|s1: String, s2: String, r1: Result<T, E>, r2: Result<T, E>|
        s1@ == s2@ && #[trigger] call_ensures(decode, (s1,), r1) && #[trigger] call_ensures(
            decode,
            (s2,),
            r2,
        ) ==> r1 == r2
}

proof fn lemma_record_unique<T, E, F: Fn(String) -> Result<T, E>>(
    decode: F,
    line: Seq<u8>,
    a: Result<T, DecodeError<E>>,
    b: Result<T, DecodeError<E>>,
)
    requires
        deterministic(decode),
        record_of(decode, line, a),
        record_of(decode, line, b),
    ensures
        a == b,
{
    if utf8_text(line) is Some {
        let text = utf8_text(line)->0;
        let (s1, r1) = choose|s: String, raw: Result<T, E>|
            #[trigger] call_ensures(decode, (s,), raw) && s@ == text && a == lifted(raw);
        let (s2, r2) = choose|s: String, raw: Result<T, E>|
            #[trigger] call_ensures(decode, (s,), raw) && s@ == text && b == lifted(raw);
        assert(r1 == r2);
    }
}

/// However the same bytes are cut into chunks, a decoder whose result depends
/// on the text alone yields the same records in the same order.
pub proof fn lemma_chunking_invariant<T, E, F: Fn(String) -> Result<T, E>>(
    decode: F,
    chunks1: Seq<Seq<u8>>,
    chunks2: Seq<Seq<u8>>,
    items1: Seq<Result<T, DecodeError<E>>>,
    items2: Seq<Result<T, DecodeError<E>>>,
)
    requires
        deterministic(decode),
        flatten(chunks1) == flatten(chunks2),
        decoded_run(decode, lines(flatten(chunks1)), items1),
        decoded_run(decode, lines(flatten(chunks2)), items2),
    ensures
        items1 == items2,
{
    let ls = lines(flatten(chunks1));
    let n = if items1.len() < items2.len() {
        items1.len()
    } else {
        items2.len()
    };
    assert forall|i: int| 0 <= i < n implies items1[i] == items2[i] by {
        lemma_record_unique(decode, ls[i], items1[i], items2[i]);
    }
    if items1.len() < items2.len() {
        let j = items1.len() - 1;
        assert(items1[j] is Err);
        lemma_record_unique(decode, ls[j], items1[j], items2[j]);
        assert(items2[j] is Ok);
    } else if items2.len() < items1.len() {
        let j = items2.len() - 1;
        assert(items2[j] is Err);
        lemma_record_unique(decode, ls[j], items1[j], items2[j]);
        assert(items1[j] is Ok);
    }
    assert(items1 =~= items2);
}

/// A line that fails to decode is the last item of the sequence: no record
/// follows it, whatever lines come after it in the input.
pub proof fn lemma_failure_ends_sequence<T, E, F: Fn(String) -> Result<T, E>>(
    decode: F,
    ls: Seq<Seq<u8>>,
    items: Seq<Result<T, DecodeError<E>>>,
    i: int,
)
    requires
        decoded_run(decode, ls, items),
        0 <= i < items.len(),
        items[i] is Err,
    ensures
        items.len() == i + 1,
{
    if i < items.len() - 1 {
        assert(items[i] is Ok);
    }
}

/// Bytes after the last newline form no record: a tail without a newline adds
/// nothing to the lines of what precedes it.
pub proof fn lemma_trailing_bytes_dropped(body: Seq<u8>, tail: Seq<u8>)
    requires
        line_aligned(body),
        no_newline(tail),
    ensures
        lines(body + tail) == lines(body),
{
    lemma_lines_append(body, tail);
    lemma_lines_no_newline(tail);
    assert(lines(body) + lines(tail) =~= lines(body));
}

} // verus!
