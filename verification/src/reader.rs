use vstd::prelude::*;
use crate::error::DecodeError;

verus! {

/// The number of bytes asked of the source at a time.
pub const CHUNK: usize = 128;

/// A source of bytes. `read` writes bytes to the front of `buf` and returns
/// how many it wrote, or `None` where it failed. A count of zero says that
/// the source has no more bytes.
pub trait Read {
    fn read(&mut self, buf: &mut [u8]) -> Option<usize>;
}

/// The unsigned number that the first two bytes hold, low byte first.
pub open spec fn le16(b: Seq<u8>) -> u16 {
    (b[0] as int + 256 * b[1] as int) as u16
}

/// The unsigned number that the first four bytes hold, low byte first.
pub open spec fn le32(b: Seq<u8>) -> u32 {
    (b[0] as int + 256 * b[1] as int + 65536 * b[2] as int + 16777216 * b[3] as int) as u32
}

/// The part of `s` that starts at `at` and is `n` bytes long, or as much of
/// it as `s` holds.
pub open spec fn window(s: Seq<u8>, at: int, n: int) -> Seq<u8>
    recommends
        0 <= at,
        0 <= n,
{
    let from = if at <= s.len() { at } else { s.len() as int };
    let to = if at + n <= s.len() { at + n } else { s.len() as int };
    s.subrange(from, to)
}

/// What a chunk is worth once the source has answered: the bytes it
/// wrote, where it wrote any. A failure of the source and a count of zero
/// are errors, and a count beyond the chunk stands for the whole chunk.
pub open spec fn spec_received(chunk: Seq<u8>, count: Option<usize>) -> Result<Seq<u8>, DecodeError> {
    match count {
        None => Err(DecodeError::SourceFailure),
        Some(n) => if n == 0 || chunk.len() == 0 {
            Err(DecodeError::UnexpectedEndOfData)
        } else if n <= chunk.len() {
            Ok(chunk.take(n as int))
        } else {
            Ok(chunk)
        },
    }
}

/// One request to the source and its answer.
pub struct Answer {
    /// The number of bytes that the source was asked for.
    pub requested: nat,
    /// The chunk as the source left it.
    pub chunk: Seq<u8>,
    /// What the source returned.
    pub count: Option<usize>,
}

impl Answer {
    /// The bytes that the answer brought: those that the source wrote, and
    /// none where it failed or had none.
    pub open spec fn kept(self) -> Seq<u8> {
        match spec_received(self.chunk, self.count) {
            Ok(kept) => kept,
            Err(_) => Seq::empty(),
        }
    }
}

/// The bytes that some answers brought, one answer after the other.
pub open spec fn delivered(answers: Seq<Answer>) -> Seq<u8>
    decreases answers.len(),
{
    if answers.len() == 0 {
        Seq::empty()
    } else {
        delivered(answers.drop_last()) + answers.last().kept()
    }
}

/// What two runs of answers brought is what the first brought, then what
/// the second did.
pub proof fn lemma_delivered_add(x: Seq<Answer>, y: Seq<Answer>)
    ensures
        delivered(x + y) == delivered(x) + delivered(y),
    decreases y.len(),
{
    if y.len() == 0 {
        assert(x + y =~= x);
        assert(delivered(x) + delivered(y) =~= delivered(x));
    } else {
        assert((x + y).drop_last() =~= x + y.drop_last());
        lemma_delivered_add(x, y.drop_last());
        assert(delivered(x + y) =~= delivered(x) + delivered(y));
    }
}

/// A reader at one moment, as contracts see it.
pub struct Mark {
    /// Every byte handed out so far, oldest first.
    pub taken: Seq<u8>,
    /// The bytes received from the source and not handed out yet.
    pub buffered: Seq<u8>,
    /// True where the reader has no source: what it has buffered is all
    /// that it will ever hand out.
    pub closed: bool,
    /// Every request made to the source so far with its answer, oldest
    /// first.
    pub answers: Seq<Answer>,
}

impl Mark {
    /// The bytes handed out since `before`.
    pub open spec fn since(self, before: Mark) -> Seq<u8> {
        self.taken.skip(before.taken.len() as int)
    }

    /// The requests made since `before`, with their answers.
    pub open spec fn asked_since(self, before: Mark) -> Seq<Answer> {
        self.answers.skip(before.answers.len() as int)
    }

    /// True where this is `before` after more bytes were handed out. They
    /// came behind those handed out before. The buffer of `before` came
    /// first, in its order: where fewer bytes were handed out than it
    /// held, they are its beginning and the rest of it is still buffered;
    /// where more were, they begin with all of it. A reader without a
    /// source stays without one and hands out no more than its buffer. The
    /// source is not asked while a byte of the buffer is left, and each
    /// time for one chunk. And no byte is lost, made up or moved: the bytes
    /// handed out and the bytes buffered are, in this order, those of
    /// `before` and then those that the source brought since.
    #[verifier::opaque]
    pub open spec fn follows(self, before: Mark) -> bool {
        &&& before.taken.is_prefix_of(self.taken)
        &&& self.since(before).len() <= before.buffered.len() ==> {
            &&& self.since(before) == before.buffered.take(self.since(before).len() as int)
            &&& self.buffered == before.buffered.skip(self.since(before).len() as int)
        }
        &&& self.since(before).len() > before.buffered.len() ==> before.buffered.is_prefix_of(
            self.since(before),
        )
        &&& self.closed == before.closed
        &&& before.closed ==> self.since(before).len() <= before.buffered.len()
        &&& before.answers.is_prefix_of(self.answers)
        &&& self.since(before).len() < before.buffered.len() || before.closed ==> self.answers
            == before.answers
        &&& forall|i: int|
            before.answers.len() <= i < self.answers.len() ==> (#[trigger] self.answers[i]).requested
                == CHUNK
        &&& self.taken + self.buffered == before.taken + before.buffered + delivered(
            self.asked_since(before),
        )
    }

    /// True where the reading stopped with the error `e` for want of
    /// bytes: the whole buffer of `before` was handed out since, and yet
    /// fewer than `n` bytes, and nothing is buffered now. Where there is a
    /// source, it was asked since, and `e` is what its last answer comes
    /// to: its failure, or the want of data where it had no more bytes.
    /// Where there is none, the data has run out.
    pub open spec fn stopped(self, before: Mark, e: DecodeError, n: int) -> bool {
        &&& e.from_source()
        &&& before.buffered.len() <= self.since(before).len() < n
        &&& self.buffered.len() == 0
        &&& before.closed ==> e == DecodeError::UnexpectedEndOfData
        &&& !before.closed ==> {
            &&& self.answers.len() > before.answers.len()
            &&& spec_received(self.answers.last().chunk, self.answers.last().count) == Err::<
                Seq<u8>,
                DecodeError,
            >(e)
        }
    }
}

/// The bytes of a source come out in its order, none of them lost or
/// twice: what a reader that began with nothing has handed out and what it
/// has buffered are, in this order, what the source brought.
pub proof fn lemma_in_source_order(start: Mark, now: Mark)
    requires
        now.follows(start),
        start.taken.len() == 0,
        start.buffered.len() == 0,
        start.answers.len() == 0,
    ensures
        now.taken + now.buffered == delivered(now.answers),
        forall|i: int| 0 <= i < now.answers.len() ==> (#[trigger] now.answers[i]).requested == CHUNK,
{
    reveal(Mark::follows);
    assert(now.asked_since(start) =~= now.answers);
    assert(start.taken + start.buffered + delivered(now.answers) =~= delivered(now.answers));
}

/// A reader follows itself, with nothing handed out in between.
pub proof fn lemma_no_step(a: Mark)
    ensures
        a.follows(a),
        a.since(a) == Seq::<u8>::empty(),
{
    reveal(Mark::follows);
    assert(a.answers =~= a.answers.subrange(0, a.answers.len() as int));
    assert(a.since(a) =~= Seq::<u8>::empty());
    assert(a.since(a) =~= a.buffered.take(0));
    assert(a.buffered =~= a.buffered.skip(0));
    assert(a.asked_since(a) =~= Seq::<Answer>::empty());
    assert(a.taken + a.buffered =~= a.taken + a.buffered + delivered(a.asked_since(a)));
}

/// Two steps of taking bytes make one: where `a` went on to `b` and `b` to
/// `c`, what was handed out since `a` is what the first step handed out,
/// then what the second did; and a second step that used up its buffer
/// used up that of `a` too.
pub proof fn lemma_steps(a: Mark, b: Mark, c: Mark)
    requires
        b.follows(a),
        c.follows(b),
    ensures
        c.follows(a),
        c.since(a) == b.since(a) + c.since(b),
        c.since(a).len() == b.since(a).len() + c.since(b).len(),
        b.buffered.len() <= c.since(b).len() ==> a.buffered.len() <= c.since(a).len(),
        b.closed == a.closed,
        c.closed == a.closed,
        a.answers.len() <= b.answers.len() <= c.answers.len(),
{
    reveal(Mark::follows);
    assert(a.taken =~= c.taken.subrange(0, a.taken.len() as int));
    assert(a.answers =~= c.answers.subrange(0, a.answers.len() as int));
    assert forall|i: int| a.answers.len() <= i < c.answers.len() implies (
    #[trigger] c.answers[i]).requested == CHUNK by {
        if i < b.answers.len() {
            assert(b.answers[i] == c.answers.subrange(0, b.answers.len() as int)[i]);
        }
    }
    assert(c.asked_since(a) =~= b.asked_since(a) + c.asked_since(b));
    lemma_delivered_add(b.asked_since(a), c.asked_since(b));
    assert(c.taken + c.buffered =~= a.taken + a.buffered + delivered(c.asked_since(a))) by {
        assert(c.taken + c.buffered == b.taken + b.buffered + delivered(c.asked_since(b)));
        assert(b.taken + b.buffered == a.taken + a.buffered + delivered(b.asked_since(a)));
        assert(a.taken + a.buffered + delivered(b.asked_since(a)) + delivered(c.asked_since(b))
            =~= a.taken + a.buffered + (delivered(b.asked_since(a)) + delivered(
            c.asked_since(b),
        )));
    }
    assert(c.since(a) =~= b.since(a) + c.since(b));
    let n1 = b.since(a).len() as int;
    let n2 = c.since(b).len() as int;
    if c.since(a).len() <= a.buffered.len() {
        assert(c.since(a) =~= a.buffered.take(n1 + n2));
        assert(c.buffered =~= a.buffered.skip(n1 + n2));
    } else if n1 > a.buffered.len() {
        assert(a.buffered =~= b.since(a).subrange(0, a.buffered.len() as int));
        assert(a.buffered =~= c.since(a).subrange(0, a.buffered.len() as int));
    } else {
        assert(b.since(a) =~= a.buffered.take(n1));
        assert(b.buffered =~= a.buffered.skip(n1));
        assert(b.buffered =~= c.since(b).subrange(0, b.buffered.len() as int));
        assert forall|i: int| 0 <= i < a.buffered.len() implies a.buffered[i] == c.since(a)[i] by {
            if i < n1 {
                assert(a.buffered[i] == a.buffered.take(n1)[i]);
            } else {
                assert(a.buffered[i] == a.buffered.skip(n1)[i - n1]);
                assert(b.buffered[i - n1] == c.since(b).subrange(0, b.buffered.len() as int)[i - n1]);
            }
        }
        assert(a.buffered =~= c.since(a).subrange(0, a.buffered.len() as int));
    }
}

/// In two steps the second lies behind the first: what was handed out in
/// both, without what the first handed out, is what the second did, and
/// the last byte of the second step is the last of both.
pub proof fn lemma_behind(a: Mark, b: Mark, c: Mark)
    requires
        b.follows(a),
        c.follows(b),
    ensures
        c.since(a).skip(b.since(a).len() as int) == c.since(b),
        c.since(b).len() > 0 ==> c.since(a).drop_last() == b.since(a) + c.since(b).drop_last(),
        c.since(b).len() > 0 ==> c.since(a).drop_last().skip(b.since(a).len() as int) == c.since(
            b,
        ).drop_last(),
{
    lemma_steps(a, b, c);
    let n1 = b.since(a).len() as int;
    assert(c.since(a).skip(n1) =~= c.since(b));
    if c.since(b).len() > 0 {
        assert(c.since(a).drop_last() =~= b.since(a) + c.since(b).drop_last());
        assert(c.since(a).drop_last().skip(n1) =~= c.since(b).drop_last());
    }
}

/// Hands out the bytes of a source one by one, in order, asking the source
/// for a chunk whenever none is left. Its model is two sequences, the bytes
/// handed out since it was made and the bytes it holds that are still to be
/// handed out, whether it has a source at all, and what the source has
/// answered to each request so far.
pub struct Reader<'a, T: Read> {
    value: Option<&'a mut T>,
    buffer: Vec<u8>,
    taken: Ghost<Seq<u8>>,
    answers: Ghost<Seq<Answer>>,
}

impl<'a, T: Read> Reader<'a, T> {
    /// Every byte handed out so far, oldest first.
    pub closed spec fn taken(&self) -> Seq<u8> {
        self.taken@
    }

    /// The bytes received from the source and not handed out yet.
    pub closed spec fn buffered(&self) -> Seq<u8> {
        self.buffer@
    }

    /// True where the reader has no source.
    pub closed spec fn closed(&self) -> bool {
        self.value is None
    }

    /// Every request made to the source so far with its answer, oldest
    /// first.
    pub closed spec fn answers(&self) -> Seq<Answer> {
        self.answers@
    }

    /// The reader as it is now.
    pub open spec fn mark(&self) -> Mark {
        Mark {
            taken: self.taken(),
            buffered: self.buffered(),
            closed: self.closed(),
            answers: self.answers(),
        }
    }

    /// True where this reader is `before` after more bytes were handed out.
    pub open spec fn follows(&self, before: &Self) -> bool {
        self.mark().follows(before.mark())
    }

    /// True where the reading stopped with the error `e` for want of
    /// bytes, before `n` of them were there.
    pub open spec fn stopped(&self, before: &Self, e: DecodeError, n: int) -> bool {
        self.mark().stopped(before.mark(), e, n)
    }

    /// The bytes handed out since `before`.
    pub open spec fn since(&self, before: &Self) -> Seq<u8> {
        self.mark().since(before.mark())
    }

    /// A reader of the given source, with nothing handed out and nothing
    /// buffered yet.
    pub fn new(value: &'a mut T) -> (r: Reader<'a, T>)
        ensures
            r.taken() == Seq::<u8>::empty(),
            r.buffered() == Seq::<u8>::empty(),
            !r.closed(),
            r.answers() == Seq::<Answer>::empty(),
    {
        Reader {
            value: Some(value),
            buffer: Vec::new(),
            taken: Ghost(Seq::empty()),
            answers: Ghost(Seq::empty()),
        }
    }

    /// A reader without a source, which hands out the given bytes and no
    /// more.
    pub fn of_bytes(bytes: Vec<u8>) -> (r: Reader<'a, T>)
        ensures
            r.taken() == Seq::<u8>::empty(),
            r.buffered() == bytes@,
            r.closed(),
            r.answers() == Seq::<Answer>::empty(),
    {
        Reader {
            value: None,
            buffer: bytes,
            taken: Ghost(Seq::empty()),
            answers: Ghost(Seq::empty()),
        }
    }

    /// Judges the answer of the source to one request. A failure of the
    /// source and a count of zero are errors; otherwise the bytes written
    /// are kept, which are at most the whole chunk.
    pub fn received(chunk: Vec<u8>, count: Option<usize>) -> (res: Result<Vec<u8>, DecodeError>)
        ensures
            match res {
                Ok(kept) => spec_received(chunk@, count) == Ok::<Seq<u8>, DecodeError>(
                    kept@,
                ),
                Err(e) => spec_received(chunk@, count) == Err::<Seq<u8>, DecodeError>(e),
            },
    {
        let mut chunk = chunk;
        match count {
            None => Err(DecodeError::SourceFailure),
            Some(n) => {
                chunk.truncate(n);
                if chunk.len() == 0 {
                    Err(DecodeError::UnexpectedEndOfData)
                } else {
                    Ok(chunk)
                }
            },
        }
    }

    /// The chunk that one request hands to the source: `CHUNK` bytes, all
    /// of them zero.
    pub fn chunk() -> (chunk: Vec<u8>)
        ensures
            chunk@.len() == CHUNK,
            forall|i: int| 0 <= i < chunk@.len() ==> chunk@[i] == 0,
    {
        let mut chunk: Vec<u8> = Vec::new();
        while chunk.len() < CHUNK
            invariant
                chunk@.len() <= CHUNK,
                forall|i: int| 0 <= i < chunk@.len() ==> chunk@[i] == 0,
            decreases CHUNK - chunk@.len(),
        {
            chunk.push(0);
        }
        chunk
    }

    /// Takes in what the source answered to one request. The bytes that
    /// it wrote go behind those that are buffered, and the first byte
    /// buffered is handed out. Where the source failed or had no byte,
    /// that is the error, and nothing changes.
    pub fn accept(&mut self, chunk: Vec<u8>, count: Option<usize>) -> (res: Result<u8, DecodeError>)
        ensures
            final(self).closed() == old(self).closed(),
            final(self).answers() == old(self).answers(),
            match spec_received(chunk@, count) {
                Ok(kept) => {
                    let all = old(self).buffered() + kept;
                    &&& res == Ok::<u8, DecodeError>(all[0])
                    &&& final(self).taken() == old(self).taken().push(all[0])
                    &&& final(self).buffered() == all.skip(1)
                },
                Err(e) => {
                    &&& res == Err::<u8, DecodeError>(e)
                    &&& final(self).taken() == old(self).taken()
                    &&& final(self).buffered() == old(self).buffered()
                },
            },
    {
        let mut kept = Self::received(chunk, count)?;
        self.buffer.append(&mut kept);
        let b = self.buffer.remove(0);
        proof {
            self.taken@ = self.taken@.push(b);
            let all = old(self).buffered() + spec_received(chunk@, count)->Ok_0;
            assert(self.buffered() =~= all.skip(1));
        }
        Ok(b)
    }

    /// Makes one request to the source: hands it a fresh chunk and returns
    /// the chunk with the answer, which goes on record. A reader without a
    /// source has nothing to ask, which is the answer of a source that has
    /// no more bytes.
    fn request(&mut self) -> (answer: (Vec<u8>, Option<usize>))
        ensures
            final(self).taken() == old(self).taken(),
            final(self).buffered() == old(self).buffered(),
            final(self).closed() == old(self).closed(),
            old(self).closed() ==> answer.1 == Some(0usize) && final(self).answers() == old(
                self,
            ).answers(),
            !old(self).closed() ==> final(self).answers() == old(self).answers().push(
                Answer { requested: CHUNK as nat, chunk: answer.0@, count: answer.1 },
            ),
    {
        let mut chunk = Self::chunk();
        let ghost requested = chunk@.len();
        let count = match &mut self.value {
            None => Some(0),
            Some(source) => source.read(chunk.as_mut_slice()),
        };
        proof {
            if !old(self).closed() {
                self.answers@ = self.answers@.push(Answer { requested, chunk: chunk@, count });
            }
        }
        (chunk, count)
    }

    /// The next byte. Where one is buffered it is that one, and the source
    /// is not asked. Otherwise the source is asked once, for one chunk, and
    /// its answer is taken in as `accept` says: the first byte that it
    /// wrote is handed out and the others are buffered, and where it
    /// failed or had none, that is the error. A reader without a source
    /// has run out of data then.
    pub fn get(&mut self) -> (res: Result<u8, DecodeError>)
        ensures
            final(self).follows(old(self)),
            old(self).buffered().len() > 0 ==> {
                &&& res == Ok::<u8, DecodeError>(old(self).buffered()[0])
                &&& final(self).buffered() == old(self).buffered().skip(1)
                &&& final(self).answers() == old(self).answers()
            },
            old(self).buffered().len() == 0 && !old(self).closed() ==> {
                &&& final(self).answers().len() == old(self).answers().len() + 1
                &&& final(self).answers().last().requested == CHUNK
                &&& match spec_received(
                    final(self).answers().last().chunk,
                    final(self).answers().last().count,
                ) {
                    Ok(kept) => res == Ok::<u8, DecodeError>(kept[0]) && final(self).buffered()
                        == kept.skip(1),
                    Err(e) => res == Err::<u8, DecodeError>(e) && final(self).buffered().len() == 0,
                }
            },
            old(self).buffered().len() == 0 && old(self).closed() ==> res == Err::<u8, DecodeError>(
                DecodeError::UnexpectedEndOfData,
            ),
            match res {
                Ok(b) => final(self).since(old(self)) == seq![b],
                Err(e) => final(self).stopped(old(self), e, 1),
            },
    {
        proof {
            reveal(Mark::follows);
        }
        if self.buffer.len() > 0 {
            let b = self.buffer.remove(0);
            proof {
                self.taken@ = self.taken@.push(b);
                lemma_no_step(old(self).mark());
                assert(old(self).answers() =~= self.answers().subrange(
                    0,
                    old(self).answers().len() as int,
                ));
                assert(self.mark().since(old(self).mark()) =~= seq![b]);
                assert(seq![b] =~= old(self).buffered().take(1));
                assert(self.mark().asked_since(old(self).mark()) =~= Seq::<Answer>::empty());
                assert(self.taken() + self.buffered() =~= old(self).taken() + old(self).buffered());
            }
            Ok(b)
        } else {
            let (chunk, count) = self.request();
            let res = self.accept(chunk, count);
            proof {
                let since = self.mark().asked_since(old(self).mark());
                assert(old(self).buffered() =~= Seq::<u8>::empty());
                assert(old(self).answers() =~= self.answers().subrange(
                    0,
                    old(self).answers().len() as int,
                ));
                if old(self).closed() {
                    lemma_no_step(old(self).mark());
                    assert(since =~= Seq::<Answer>::empty());
                } else {
                    assert(since =~= seq![self.answers().last()]);
                    assert(since.drop_last() =~= Seq::<Answer>::empty());
                    assert(delivered(since) =~= since.last().kept()) by {
                        reveal_with_fuel(delivered, 2);
                    }
                }
                match res {
                    Ok(b) => {
                        let kept = spec_received(chunk@, count)->Ok_0;
                        assert(self.mark().since(old(self).mark()) =~= seq![b]);
                        assert(self.buffered() =~= kept.skip(1));
                        assert(self.taken() + self.buffered() =~= old(self).taken() + kept);
                    },
                    Err(_) => {
                        assert(self.mark().since(old(self).mark()) =~= Seq::<u8>::empty());
                        assert(self.mark().since(old(self).mark()) =~= old(self).buffered().take(0));
                        assert(self.taken() + self.buffered() =~= old(self).taken());
                    },
                }
                assert(self.taken() + self.buffered() =~= old(self).taken() + old(self).buffered()
                    + delivered(since));
            }
            res
        }
    }

    /// The next `n` bytes, in the order in which they came. Only the source
    /// can make this fail: where `n` bytes are buffered, they are returned.
    pub fn take(&mut self, n: usize) -> (res: Result<Vec<u8>, DecodeError>)
        ensures
            final(self).follows(old(self)),
            old(self).buffered().len() >= n ==> res is Ok,
            match res {
                Ok(bytes) => bytes@ == final(self).since(old(self)) && bytes@.len() == n,
                Err(e) => final(self).stopped(old(self), e, n as int),
            },
    {
        let ghost start = self.mark();
        let mut bytes: Vec<u8> = Vec::new();
        proof {
            lemma_no_step(start);
        }
        while bytes.len() < n
            invariant
                start == old(self).mark(),
                self.mark().follows(start),
                self.mark().since(start) == bytes@,
                bytes@.len() <= n,
            decreases n - bytes@.len(),
        {
            let ghost before = self.mark();
            let next = self.get();
            proof {
                lemma_steps(start, before, self.mark());
            }
            match next {
                Ok(b) => {
                    bytes.push(b);
                },
                Err(e) => {
                    return Err(e);
                },
            }
        }
        Ok(bytes)
    }

    /// One byte.
    pub fn read_u8(&mut self) -> (res: Result<u8, DecodeError>)
        ensures
            final(self).follows(old(self)),
            old(self).buffered().len() >= 1 ==> res is Ok,
            match res {
                Ok(b) => final(self).since(old(self)) == seq![b],
                Err(e) => final(self).stopped(old(self), e, 1),
            },
    {
        self.get()
    }

    /// Two bytes as one number, low byte first.
    pub fn read_u16(&mut self) -> (res: Result<u16, DecodeError>)
        ensures
            final(self).follows(old(self)),
            old(self).buffered().len() >= 2 ==> res is Ok,
            match res {
                Ok(v) => final(self).since(old(self)).len() == 2 && v == le16(
                    final(self).since(old(self)),
                ),
                Err(e) => final(self).stopped(old(self), e, 2),
            },
    {
        let ghost t0 = self.mark();
        let low = self.read_u8()?;
        let ghost t1 = self.mark();
        let high = match self.read_u8() {
            Ok(b) => b,
            Err(e) => {
                proof {
                    lemma_steps(t0, t1, self.mark());
                }
                return Err(e);
            },
        };
        proof {
            lemma_steps(t0, t1, self.mark());
        }
        Ok(low as u16 + 256 * (high as u16))
    }

    /// Four bytes as one number, low byte first.
    pub fn read_u32(&mut self) -> (res: Result<u32, DecodeError>)
        ensures
            final(self).follows(old(self)),
            old(self).buffered().len() >= 4 ==> res is Ok,
            match res {
                Ok(v) => final(self).since(old(self)).len() == 4 && v == le32(
                    final(self).since(old(self)),
                ),
                Err(e) => final(self).stopped(old(self), e, 4),
            },
    {
        let ghost t0 = self.mark();
        let low = self.read_u16()?;
        let ghost t1 = self.mark();
        let high = match self.read_u16() {
            Ok(v) => v,
            Err(e) => {
                proof {
                    lemma_steps(t0, t1, self.mark());
                }
                return Err(e);
            },
        };
        proof {
            lemma_steps(t0, t1, self.mark());
        }
        Ok(low as u32 + 65536 * (high as u32))
    }
}

} // verus!
