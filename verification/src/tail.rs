//! The live tail of a running task: a bounded ring over the newest bytes of its
//! stderr, and the handle that the reader of that stderr shares with whoever
//! looks at it.

use std::collections::VecDeque;
use std::sync::Arc;
use vstd::prelude::*;
use vstd::rwlock::{RwLock, RwLockPredicate};
#[allow(unused_imports)]
use vstd::rwlock::{ReadHandle, WriteHandle};
#[allow(unused_imports)]
use vstd::utf8::{decode_utf8, valid_utf8};
use crate::text::{decode_lossy, last_chars};
#[allow(unused_imports)]
use crate::text::{last_of, utf8_lossy};

verus! {

/// Bytes of live stderr retained per running task: 64 KiB. The buffer is a
/// ring: past this bound the oldest bytes are dropped, because the tail answers
/// "what is it doing right now", not "what has it done"; the EXIT signal carries
/// the task's real output.
pub const TAIL_BUFFER_CAP: usize = 64 * 1024;

/// Characters of tail a REMIND signal carries.
pub const REMIND_TAIL_CHARS: usize = 4096;

/// The newest `cap` bytes of a stream, or all of it where it has fewer.
pub open spec fn newest(stream: Seq<u8>, cap: nat) -> Seq<u8> {
    if stream.len() <= cap {
        stream
    } else {
        stream.skip(stream.len() - cap)
    }
}

/// The latest `n` characters of a ring's bytes after lossy decoding.
pub open spec fn tail_text(ring: Seq<u8>, n: nat) -> Seq<char> {
    last_of(utf8_lossy(ring), n)
}

/// Bounded byte ring over one task's live stderr.
///
/// Stores bytes, not chars: chunks arrive from a pipe with no framing guarantee
/// and may end mid-character. Decoding is deferred to the read edge
/// (`tail_chars`), lossily: a partial UTF-8 sequence left at the ring's front by
/// a byte-granular drop renders as U+FFFD instead of poisoning the whole tail.
#[derive(Debug)]
pub struct TailBuffer {
    bytes: VecDeque<u8>,
    cap: usize,
}

impl View for TailBuffer {
    type V = Seq<u8>;

    /// The retained bytes, oldest first.
    closed spec fn view(&self) -> Seq<u8> {
        self.bytes@
    }
}

impl TailBuffer {
    /// The bound that the ring was made with.
    pub closed spec fn cap(&self) -> nat {
        self.cap as nat
    }

    /// The ring never holds more than its bound.
    pub open spec fn wf(&self) -> bool {
        self@.len() <= self.cap()
    }

    pub fn new(cap: usize) -> (r: Self)
        ensures
            r.wf(),
            r.cap() == cap,
            r@ == Seq::<u8>::empty(),
    {
        TailBuffer { bytes: VecDeque::new(), cap }
    }

    /// Append a chunk, dropping the oldest bytes past the bound.
    pub fn push_chunk(&mut self, chunk: &[u8])
        requires
            old(self).wf(),
        ensures
            final(self).wf(),
            final(self).cap() == old(self).cap(),
            final(self)@ == newest(old(self)@ + chunk@, old(self).cap()),
    {
        let len: usize = chunk.len();
        let mut at: usize = 0;
        if len >= self.cap {
            self.bytes.clear();
            at = len - self.cap;
        } else {
            let free: usize = self.cap - self.bytes.len();
            if len > free {
                self.bytes = self.bytes.split_off(len - free);
            }
        }
        let ghost kept = self.bytes@;
        let ghost start = at as int;
        while at < len
            invariant
                len == chunk@.len(),
                0 <= start <= at <= len,
                self.cap == old(self).cap,
                self.bytes@ == kept + chunk@.subrange(start, at as int),
            decreases len - at,
        {
            self.bytes.push_back(chunk[at]);
            at = at + 1;
            proof {
                assert(chunk@.subrange(start, at as int) =~= chunk@.subrange(
                    start,
                    at - 1,
                ).push(chunk@[at - 1]));
            }
        }
        proof {
            assert(self.bytes@ =~= newest(old(self)@ + chunk@, old(self).cap()));
        }
    }

    pub fn len(&self) -> (r: usize)
        ensures
            r == self@.len(),
    {
        self.bytes.len()
    }

    pub fn is_empty(&self) -> (r: bool)
        ensures
            r == (self@.len() == 0),
    {
        self.bytes.len() == 0
    }

    /// The retained bytes, oldest first.
    pub fn contents(&self) -> (r: Vec<u8>)
        ensures
            r@ == self@,
    {
        let mut all: Vec<u8> = Vec::with_capacity(self.bytes.len());
        let mut i: usize = 0;
        while i < self.bytes.len()
            invariant
                i <= self.bytes@.len(),
                all@ == self.bytes@.take(i as int),
            decreases self.bytes@.len() - i,
        {
            all.push(self.bytes[i]);
            i = i + 1;
            proof {
                assert(self.bytes@.take(i as int) =~= self.bytes@.take(i - 1).push(
                    self.bytes@[i - 1],
                ));
            }
        }
        proof {
            assert(self.bytes@.take(i as int) =~= self.bytes@);
        }
        all
    }

    /// The whole ring, lossily decoded.
    pub fn text(&self) -> (r: String)
        ensures
            r@ == utf8_lossy(self@),
            valid_utf8(self@) ==> r@ == decode_utf8(self@),
    {
        let all: Vec<u8> = self.contents();
        decode_lossy(all.as_slice())
    }

    /// The latest `n` characters, clamped to what the buffer holds. Counted in
    /// characters after lossy decoding, and cut on a char boundary, so a
    /// multi-byte character is never split by the tail edge.
    pub fn tail_chars(&self, n: usize) -> (r: String)
        ensures
            r@ == tail_text(self@, n as nat),
            valid_utf8(self@) ==> r@ == last_of(decode_utf8(self@), n as nat),
    {
        let all: Vec<u8> = self.contents();
        latest_text(all.as_slice(), n)
    }
}

/// Whether a text is the latest `n` characters of a ring that is valid UTF-8;
/// nothing is asked of any other ring.
pub open spec fn shows_exactly(ring: Seq<u8>, n: nat, text: Seq<char>) -> bool {
    valid_utf8(ring) ==> text == last_of(decode_utf8(ring), n)
}

/// The latest `n` characters of a ring's bytes after lossy decoding.
pub fn latest_text(ring: &[u8], n: usize) -> (r: String)
    ensures
        r@ == tail_text(ring@, n as nat),
        shows_exactly(ring@, n as nat, r@),
{
    if n == 0 {
        assert(last_of(decode_utf8(ring@), 0) =~= Seq::<char>::empty());
        return String::new();
    }
    let text: String = decode_lossy(ring);
    last_chars(text.as_str(), n)
}

/// The latest `n` characters of a ring, or nothing of an empty one.
pub open spec fn live_part(ring: Seq<u8>, n: nat) -> Option<Seq<char>> {
    if ring.len() == 0 {
        None
    } else {
        Some(tail_text(ring, n))
    }
}

/// Dropping what falls out of the ring early changes nothing of what a later
/// chunk leaves in it.
proof fn lemma_newest_of_newest(stream: Seq<u8>, chunk: Seq<u8>, cap: nat)
    ensures
        newest(newest(stream, cap) + chunk, cap) == newest(stream + chunk, cap),
{
    assert(newest(newest(stream, cap) + chunk, cap) =~= newest(stream + chunk, cap));
}

/// The ring that a list of chunks leaves when they are pushed one by one.
pub open spec fn pushed(ring: Seq<u8>, chunks: Seq<Seq<u8>>, cap: nat) -> Seq<u8>
    decreases chunks.len(),
{
    if chunks.len() == 0 {
        ring
    } else {
        newest(pushed(ring, chunks.drop_last(), cap) + chunks.last(), cap)
    }
}

/// A list of chunks as one stream.
pub open spec fn joined(chunks: Seq<Seq<u8>>) -> Seq<u8>
    decreases chunks.len(),
{
    if chunks.len() == 0 {
        Seq::empty()
    } else {
        joined(chunks.drop_last()) + chunks.last()
    }
}

/// However a stream is cut into chunks, the ring ends up with its newest `cap`
/// bytes.
pub proof fn ring_keeps_the_newest(chunks: Seq<Seq<u8>>, cap: nat)
    ensures
        pushed(Seq::empty(), chunks, cap) == newest(joined(chunks), cap),
    decreases chunks.len(),
{
    if chunks.len() > 0 {
        ring_keeps_the_newest(chunks.drop_last(), cap);
        lemma_newest_of_newest(joined(chunks.drop_last()), chunks.last(), cap);
    }
}

/// A ring never outgrows its bound, and while a stream fits it loses nothing.
pub proof fn ring_is_bounded(stream: Seq<u8>, cap: nat)
    ensures
        newest(stream, cap).len() <= cap,
        stream.len() <= cap ==> newest(stream, cap) == stream,
        newest(stream, cap).is_suffix_of(stream),
{
    assert(newest(stream, cap) =~= stream.skip(stream.len() - newest(stream, cap).len()));
}

/// A shorter tail is the end of a longer one, and a tail that asks for no fewer
/// characters than the ring decodes to is all of them.
pub proof fn tails_nest(ring: Seq<u8>, n: nat, m: nat)
    requires
        n <= m,
    ensures
        last_of(tail_text(ring, m), n) == tail_text(ring, n),
        tail_text(ring, n).is_suffix_of(tail_text(ring, m)),
        n >= utf8_lossy(ring).len() ==> tail_text(ring, n) == utf8_lossy(ring),
{
    let longer = tail_text(ring, m);
    let shorter = tail_text(ring, n);
    assert(last_of(longer, n) =~= shorter);
    assert(longer.subrange(longer.len() - shorter.len(), longer.len() as int) =~= shorter);
}

/// What holds of a shared ring whenever nobody is writing to it: it has the bound
/// that it was made with, and is within it.
pub struct RingBound {
    pub cap: usize,
}

impl RwLockPredicate<TailBuffer> for RingBound {
    open spec fn inv(self, ring: TailBuffer) -> bool {
        ring.wf() && ring.cap() == self.cap
    }
}

/// Shared handle to one task's live stderr ring: the dmcp stderr reader appends,
/// REMIND and `status {"tail": n}` read. The `Task` drops its handle when the
/// task settles (EXIT/KILL): the EXIT signal already carries the task's real
/// output, so nothing legitimate reads the tail afterwards.
pub struct TaskTail {
    ring: Arc<RwLock<TailBuffer, RingBound>>,
}

impl Clone for TaskTail {
    fn clone(&self) -> (r: Self)
        ensures
            r == *self,
    {
        TaskTail { ring: Arc::clone(&self.ring) }
    }
}

impl TaskTail {
    /// The bound of the ring behind the handle, which no append changes.
    pub closed spec fn cap(&self) -> nat {
        self.ring.pred().cap as nat
    }

    /// Whether the ring can be read as holding these bytes: there is a read handle
    /// of its lock that shows them, which taking the lock establishes.
    pub closed spec fn held(&self, ring: Seq<u8>) -> bool {
        exists|h: ReadHandle<'_, TailBuffer, RingBound>|
            (#[trigger] h.rwlock()) == *self.ring && h.view()@ == ring
    }

    /// Whether the lock behind the handle is one that can come of making it with
    /// these bytes in the ring, which making it establishes.
    pub closed spec fn began_with(&self, ring: Seq<u8>) -> bool {
        exists|first: TailBuffer, bound: Ghost<RingBound>|
            #[trigger] call_ensures(
                RwLock::<TailBuffer, RingBound>::new,
                (first, bound),
                *self.ring,
            ) && first@ == ring
    }

    /// Whether the ring can be taken for writing with the bytes `before` in it and
    /// given back with the bytes `after`: there is a write handle of its lock for
    /// which both calls have such results, which making them establishes.
    pub closed spec fn rewrote(&self, before: Seq<u8>, after: Seq<u8>) -> bool {
        exists|taken: TailBuffer, given: TailBuffer, h: WriteHandle<'_, TailBuffer, RingBound>|
            #[trigger] call_ensures(
                RwLock::<TailBuffer, RingBound>::acquire_write,
                (&*self.ring,),
                (taken, h),
            ) && #[trigger] call_ensures(
                WriteHandle::<'_, TailBuffer, RingBound>::release_write,
                (h, given),
                (),
            ) && taken@ == before && given@ == after
    }

    /// A handle to a fresh, empty ring that keeps the newest `TAIL_BUFFER_CAP`
    /// bytes.
    pub fn new() -> (r: Self)
        ensures
            r.cap() == TAIL_BUFFER_CAP,
            r.began_with(Seq::empty()),
    {
        let first: TailBuffer = TailBuffer::new(TAIL_BUFFER_CAP);
        let bound: Ghost<RingBound> = Ghost(RingBound { cap: TAIL_BUFFER_CAP });
        let lock: RwLock<TailBuffer, RingBound> = RwLock::new(first, bound);
        assert(call_ensures(RwLock::<TailBuffer, RingBound>::new, (first, bound), lock));
        let r = TaskTail { ring: Arc::new(lock) };
        assert(*r.ring == lock);
        assert(first@ == Seq::<u8>::empty());
        assert(r.began_with(first@));
        r
    }

    /// Append a chunk to the shared ring: the ring is taken, and given back with the
    /// newest of its bytes and the chunk's. Other handles may append before and
    /// after.
    pub fn append(&self, chunk: &[u8])
        ensures
            exists|before: Seq<u8>|
                before.len() <= self.cap() && #[trigger] self.rewrote(
                    before,
                    newest(before + chunk@, self.cap()),
                ),
    {
        let (mut ring, handle) = self.ring.acquire_write();
        let ghost taken = ring;
        ring.push_chunk(chunk);
        let ghost given = ring;
        let ghost h = handle;
        assert(call_ensures(
            RwLock::<TailBuffer, RingBound>::acquire_write,
            (&*self.ring,),
            (taken, h),
        ));
        handle.release_write(ring);
        assert(call_ensures(
            WriteHandle::<'_, TailBuffer, RingBound>::release_write,
            (h, given),
            (),
        ));
        assert(given@ == newest(taken@ + chunk@, self.cap()));
        assert(self.rewrote(taken@, newest(taken@ + chunk@, self.cap())));
    }

    /// Whether the ring held nothing at the moment of the call.
    pub fn is_empty(&self) -> (r: bool)
        ensures
            exists|ring: Seq<u8>| #[trigger]
                self.held(ring) && ring.len() <= self.cap() && r == (ring.len() == 0),
    {
        let handle = self.ring.acquire_read();
        let r: bool = handle.borrow().is_empty();
        proof {
            assert(handle.rwlock() == *self.ring);
            assert(self.held(handle.view()@));
        }
        handle.release_read();
        r
    }

    /// The latest `n` characters of what the ring held at the moment of the call.
    pub fn tail_chars(&self, n: usize) -> (r: String)
        ensures
            exists|ring: Seq<u8>|
                #[trigger] self.held(ring) && ring.len() <= self.cap() && r@ == tail_text(
                    ring,
                    n as nat,
                ) && shows_exactly(ring, n as nat, r@),
    {
        let handle = self.ring.acquire_read();
        let r: String = handle.borrow().tail_chars(n);
        proof {
            assert(handle.rwlock() == *self.ring);
            assert(self.held(handle.view()@));
        }
        handle.release_read();
        r
    }

    /// The bytes that the ring held at the moment of the call, oldest first.
    pub fn contents(&self) -> (r: Vec<u8>)
        ensures
            r@.len() <= self.cap(),
            self.held(r@),
    {
        let handle = self.ring.acquire_read();
        let r: Vec<u8> = handle.borrow().contents();
        proof {
            assert(handle.rwlock() == *self.ring);
            assert(self.held(handle.view()@));
        }
        handle.release_read();
        r
    }

    /// The whole retained ring, lossily decoded: the stderr fallback for a failed
    /// call's error detail. Everything for stderr under `TAIL_BUFFER_CAP`; beyond
    /// it only the newest bytes remain, which is the end a failure message lives
    /// at.
    pub fn snapshot(&self) -> (r: String)
        ensures
            exists|ring: Seq<u8>|
                #[trigger] self.held(ring) && ring.len() <= self.cap() && r@ == utf8_lossy(ring)
                    && (valid_utf8(ring) ==> r@ == decode_utf8(ring)),
    {
        let handle = self.ring.acquire_read();
        let r: String = handle.borrow().text();
        proof {
            assert(handle.rwlock() == *self.ring);
            assert(self.held(handle.view()@));
        }
        handle.release_read();
        r
    }
}

/// Whether a text can be the latest `n` characters of a ring that is not empty.
pub open spec fn live_text(text: Seq<char>, n: nat) -> bool {
    exists|ring: Seq<u8>|
        0 < ring.len() <= TAIL_BUFFER_CAP && text == #[trigger] tail_text(ring, n)
}

impl Default for TaskTail {
    fn default() -> (r: Self)
        ensures
            r.cap() == TAIL_BUFFER_CAP,
            r.began_with(Seq::empty()),
    {
        TaskTail::new()
    }
}

/// A ring keeps as many of the stream's bytes as it can, the last ones, each as it
/// came and in order.
pub proof fn a_ring_keeps_all_that_fits(stream: Seq<u8>, cap: nat)
    ensures
        newest(stream, cap).len() == (if stream.len() < cap {
            stream.len()
        } else {
            cap
        }),
        forall|i: int|
            0 <= i < newest(stream, cap).len() ==> #[trigger] newest(stream, cap)[i] == stream[i
                + (stream.len() - newest(stream, cap).len())],
        TAIL_BUFFER_CAP == 65536,
{
}

/// A tail of `n` is exactly the last `n` characters that the ring decodes to, or
/// all of them where there are fewer; of an empty ring there is none, and of any
/// other there is one.
pub proof fn a_tail_is_the_last_characters(ring: Seq<u8>, n: nat)
    ensures
        ({
            let all = utf8_lossy(ring);
            let text = all.subrange(
                if all.len() < n {
                    0
                } else {
                    all.len() - n
                },
                all.len() as int,
            );
            &&& tail_text(ring, n) == text
            &&& ring.len() > 0 ==> live_part(ring, n) == Some(text)
            &&& ring.len() == 0 ==> live_part(ring, n) is None
        }),
        REMIND_TAIL_CHARS == 4096,
{
    let all = utf8_lossy(ring);
    assert(tail_text(ring, n) =~= all.subrange(
        if all.len() < n {
            0
        } else {
            all.len() - n
        },
        all.len() as int,
    ));
}

/// A text that a ring of valid UTF-8 shows exactly is the last `n` of the
/// characters that its bytes encode.
pub proof fn valid_utf8_is_shown_exactly(ring: Seq<u8>, n: nat, text: Seq<char>)
    requires
        shows_exactly(ring, n, text),
        valid_utf8(ring),
    ensures
        text.len() == (if decode_utf8(ring).len() < n {
            decode_utf8(ring).len()
        } else {
            n
        }),
        forall|i: int|
            0 <= i < text.len() ==> #[trigger] text[i] == decode_utf8(ring)[i + (
            decode_utf8(ring).len() - text.len())],
{
}

/// A live text is the end of what a ring that holds something, and no more than
/// its bound, decodes to.
pub proof fn a_live_text_comes_of_a_ring(text: Seq<char>, n: nat)
    requires
        live_text(text, n),
    ensures
        text.len() <= n,
        exists|ring: Seq<u8>|
            0 < ring.len() <= 65536 && text.is_suffix_of(#[trigger] utf8_lossy(ring)) && (
            utf8_lossy(ring).len() <= n ==> text == utf8_lossy(ring)),
{
    let ring = choose|ring: Seq<u8>|
        0 < ring.len() <= TAIL_BUFFER_CAP && text == #[trigger] tail_text(ring, n);
    let all = utf8_lossy(ring);
    assert(all.subrange(all.len() - text.len(), all.len() as int) =~= text);
}

} // verus!
