//! The instruction value type and the iterators that replay the fuzzer's
//! enumeration order between two logged instructions.

use vstd::prelude::*;

verus! {

/// Error value for a rejected construction or a rejected log line: the
/// exception code or the byte count is out of range, or a line does not
/// match the log grammar.
#[derive(Debug, PartialEq, Eq, Structural)]
pub struct InvalidInstruction {}

impl Default for InvalidInstruction {
    fn default() -> (r: Self)
        ensures
            r == (InvalidInstruction {}),
    {
        InvalidInstruction {}
    }
}

/// Outcome of incrementing one instruction byte.
#[derive(Debug, Clone, Copy)]
pub enum ByteWrapped {
    /// Incrementing the byte did not wrap.
    NoWrap,
    /// Incrementing the byte wrapped from 0xff to zero.
    Wrap,
}

/// The mathematical value of an [`Instruction`]: the exception code, the
/// number of significant bytes, and the full fixed-size buffer, padding
/// included.
pub ghost struct InstrModel {
    pub exc: u8,
    pub len: nat,
    pub buf: Seq<u8>,
}

/// One instruction as logged by the fuzzer: an exception code below 16
/// and up to 15 instruction bytes.
///
/// The bytes live in a fixed buffer of 15 entries; every position at or
/// beyond the significant length holds zero.  The enumeration replayed by
/// [`InterpolateOneIterator`] compares and advances this full buffer, so
/// the padding is part of the value, not an accident of representation.
#[derive(Debug)]
pub struct Instruction {
    exc: u8,
    len: u8,
    bytes: Vec<u8>,
}

impl View for Instruction {
    type V = InstrModel;

    closed spec fn view(&self) -> InstrModel {
        InstrModel { exc: self.exc, len: self.len as nat, buf: self.bytes@ }
    }
}

/// Well-formedness of an instruction's mathematical value: exception
/// below 16, at most 15 significant bytes, a buffer of exactly 15
/// entries, and zero padding beyond the significant bytes.
pub open spec fn model_wf(m: InstrModel) -> bool {
    &&& m.exc < 16
    &&& m.len <= 15
    &&& m.buf.len() == 15
    &&& forall|i: int| m.len <= i < 15 ==> m.buf[i] == 0
}

impl Instruction {
    /// Internal invariant: exception below 16, at most 15 significant
    /// bytes, and zero padding beyond them.
    pub open spec fn wf(&self) -> bool {
        model_wf(self@)
    }

    /// The significant bytes: the first `len` entries of the buffer.
    pub open spec fn sig(&self) -> Seq<u8> {
        self@.buf.take(self@.len as int)
    }

    /// Build an instruction from an exception code and its significant
    /// bytes.  Rejects an exception code of 16 or more and a byte count
    /// of 16 or more; otherwise the fields round-trip exactly and the
    /// buffer is the given bytes padded with zeros.
    pub fn new(exception: u8, bytes: &[u8]) -> (r: Result<Instruction, InvalidInstruction>)
        ensures
            r is Ok <==> (exception < 16 && bytes@.len() < 16),
            r is Ok ==> {
                let i = r->Ok_0;
                &&& i.wf()
                &&& i@.exc == exception
                &&& i@.len == bytes@.len()
                &&& i.sig() == bytes@
                &&& i@.buf == bytes@ + Seq::new((15 - bytes@.len()) as nat, |j: int| 0u8)
            },
    {
        let len = bytes.len();
        if len >= 16 || exception >= 16 {
            Err(InvalidInstruction {})
        } else {
            let buf = slice_to_arr(bytes);
            let i = Instruction { exc: exception, len: len as u8, bytes: buf };
            proof {
                assert(i.sig() =~= bytes@);
                assert(i@.buf =~= bytes@ + Seq::new((15 - bytes@.len()) as nat, |j: int| 0u8));
            }
            Ok(i)
        }
    }

    /// The exception that was raised when this instruction was executed.
    pub fn exception(&self) -> (r: u8)
        ensures
            r == self@.exc,
    {
        self.exc
    }

    /// The number of significant instruction bytes.
    pub fn len(&self) -> (r: usize)
        ensures
            r == self@.len,
    {
        self.len as usize
    }

    /// The significant bytes, as a slice of the backing buffer.
    pub fn bytes(&self) -> (r: &[u8])
        requires
            self.wf(),
        ensures
            r@ == self.sig(),
    {
        let r = vstd::slice::slice_subrange(self.bytes.as_slice(), 0, self.len as usize);
        proof {
            assert(r@ =~= self.sig());
        }
        r
    }

    /// The whole backing buffer, trailing zero padding included.
    pub fn all_bytes(&self) -> (r: &[u8])
        ensures
            r@ == self@.buf,
    {
        self.bytes.as_slice()
    }
}

impl Clone for Instruction {
    fn clone(&self) -> (r: Self)
        ensures
            r@ == self@,
    {
        let r = Instruction { exc: self.exc, len: self.len, bytes: self.bytes.clone() };
        proof {
            assert(r.bytes@ =~= self.bytes@);
        }
        r
    }
}

impl PartialEq for Instruction {
    /// Two instructions are equal when the exception, the significant
    /// length, and the full buffer (padding included) all agree.
    fn eq(&self, other: &Self) -> (r: bool) {
        if self.exc != other.exc || self.len != other.len || self.bytes.len() != other.bytes.len()
        {
            proof {
                assert(self@ == other@ ==> self@.buf == other@.buf);
            }
            false
        } else {
            let n = self.bytes.len();
            let mut i: usize = 0;
            while i < n
                invariant
                    i <= n,
                    n == self.bytes@.len() == other.bytes@.len(),
                    forall|j: int| 0 <= j < i ==> self.bytes@[j] == other.bytes@[j],
                decreases n - i,
            {
                if self.bytes[i] != other.bytes[i] {
                    proof {
                        assert(self@.buf[i as int] != other@.buf[i as int]);
                    }
                    return false;
                }
                i = i + 1;
            }
            proof {
                assert(self@.buf =~= other@.buf);
                assert(self@ == other@);
            }
            true
        }
    }
}

impl vstd::std_specs::cmp::PartialEqSpecImpl for Instruction {
    open spec fn obeys_eq_spec() -> bool {
        true
    }

    open spec fn eq_spec(&self, other: &Self) -> bool {
        self@ == other@
    }
}

impl Instruction {
    /// Increment the byte at `pos` in place, adding 1 modulo 256, and
    /// report whether it wrapped from 0xff to zero.  Positions at or
    /// beyond the significant length must not be touched.
    pub fn increment_mut(&mut self, pos: usize) -> (r: ByteWrapped)
        requires
            old(self).wf(),
            pos < old(self)@.len,
        ensures
            final(self).wf(),
            final(self)@.exc == old(self)@.exc,
            final(self)@.len == old(self)@.len,
            old(self)@.buf[pos as int] == 0xff ==> r == ByteWrapped::Wrap && final(self)@.buf
                == old(self)@.buf.update(pos as int, 0u8),
            old(self)@.buf[pos as int] != 0xff ==> r == ByteWrapped::NoWrap && final(self)@.buf
                == old(self)@.buf.update(
                pos as int,
                (old(self)@.buf[pos as int] + 1) as u8,
            ),
    {
        let b = self.bytes[pos];
        if b == 0xff {
            self.bytes.set(pos, 0);
            ByteWrapped::Wrap
        } else {
            self.bytes.set(pos, b + 1);
            ByteWrapped::NoWrap
        }
    }

    /// The non-mutating form of [`Self::increment_mut`]: a copy of this
    /// instruction with the byte at `pos` incremented, together with the
    /// wrapping indicator.
    pub fn increment(&self, pos: usize) -> (r: (Instruction, ByteWrapped))
        requires
            self.wf(),
            pos < self@.len,
        ensures
            r.0.wf(),
            r.0@.exc == self@.exc,
            r.0@.len == self@.len,
            self@.buf[pos as int] == 0xff ==> r.1 == ByteWrapped::Wrap && r.0@.buf
                == self@.buf.update(pos as int, 0u8),
            self@.buf[pos as int] != 0xff ==> r.1 == ByteWrapped::NoWrap && r.0@.buf
                == self@.buf.update(pos as int, (self@.buf[pos as int] + 1) as u8),
    {
        let mut new = self.clone();
        let wrapped = new.increment_mut(pos);
        (new, wrapped)
    }

    /// Whether this instruction's full buffer equals `other`'s full
    /// buffer.  The enumeration's termination test compares buffers only,
    /// not the exception code.
    fn same_buffer(&self, other: &Instruction) -> (r: bool)
        requires
            self@.buf.len() == 15,
            other@.buf.len() == 15,
        ensures
            r == (self@.buf == other@.buf),
    {
        let mut i: usize = 0;
        while i < 15
            invariant
                i <= 15,
                self@.buf.len() == 15,
                other@.buf.len() == 15,
                forall|j: int| 0 <= j < i ==> self.bytes@[j] == other.bytes@[j],
            decreases 15 - i,
        {
            if self.bytes[i] != other.bytes[i] {
                return false;
            }
            i = i + 1;
        }
        proof {
            assert(self@.buf =~= other@.buf);
        }
        true
    }
}

/// All positions strictly right of `pos` in the buffer hold zero.  Every
/// state of an enumeration run has this shape: a wrapped byte is zeroed
/// before the run moves left, and the initial padding is zero already.
pub open spec fn zeros_beyond(b: Seq<u8>, pos: int) -> bool {
    forall|j: int| pos < j < 15 ==> b[j] == 0
}

/// One full increment-with-carry step of the enumeration at active
/// position `pos`: add 1 at `pos`; on a wrap, zero the byte and carry
/// into the position to the left.  Returns the new buffer and the new
/// active position; a position of -1 marks the unrepresentable overflow
/// past the leftmost byte.
pub open spec fn advance(b: Seq<u8>, pos: int) -> (Seq<u8>, int)
    decreases pos,
{
    if pos < 0 || pos >= b.len() {
        (b, -1)
    } else if b[pos] != 0xff {
        (b.update(pos, (b[pos] + 1) as u8), pos)
    } else if pos == 0 {
        (b, -1)
    } else {
        advance(b.update(pos, 0), pos - 1)
    }
}

/// Buffer `t` lies on the current "level" of the run at `(b, pos)`: the
/// bytes left of `pos` agree, the byte at `pos` is not below `b`'s, and
/// everything right of `pos` is zero.  These are exactly the buffers the
/// run emits before it first carries out of position `pos`.
pub open spec fn in_level(b: Seq<u8>, pos: int, t: Seq<u8>) -> bool {
    &&& t.subrange(0, pos) == b.subrange(0, pos)
    &&& t[pos] >= b[pos]
    &&& forall|j: int| pos < j < 15 ==> t[j] == 0
}

/// The enumeration run at `(b, pos)` emits buffer `t` before it would
/// overflow past the leftmost byte.  Either `t` lies on the current
/// level, or the run leaves the level (which skips the intermediate
/// half-carried buffer `b.update(pos, 0)`) and `t` is emitted further
/// down.  For a buffer with `zeros_beyond(b, pos)`, falsity of this
/// predicate for `t != b` means the run never compares equal to `t` and
/// eventually hits the fatal carry out of position 0.
pub open spec fn reaches(b: Seq<u8>, pos: int, t: Seq<u8>) -> bool
    decreases pos,
{
    if !(b.len() == 15 && t.len() == 15 && 0 <= pos < 15) {
        false
    } else if in_level(b, pos, t) {
        true
    } else if pos > 0 && t != b.update(pos, 0) {
        reaches(b.update(pos, 0), pos - 1, t)
    } else {
        false
    }
}

/// The full buffer read as a single big-endian number.  This is the
/// traversal order: every step of the enumeration strictly increases it.
pub open spec fn buf_val(b: Seq<u8>) -> int
    decreases b.len(),
{
    if b.len() == 0 {
        0
    } else {
        buf_val(b.drop_last()) * 256 + b.last()
    }
}

/// A buffer that first differs from another at position `k`, and is
/// larger there, is larger in the traversal order, whatever stands right
/// of `k`.
pub proof fn lemma_buf_val_prefix(a: Seq<u8>, b: Seq<u8>, k: int)
    requires
        a.len() == b.len(),
        0 <= k < a.len(),
        forall|j: int| 0 <= j < k ==> a[j] == b[j],
        a[k] > b[k],
    ensures
        buf_val(a) > buf_val(b),
    decreases a.len(),
{
    if k == a.len() - 1 {
        assert(a.drop_last() =~= b.drop_last());
    } else {
        lemma_buf_val_prefix(a.drop_last(), b.drop_last(), k);
    }
}

/// Law of the traversal order: a reachable target that differs from the
/// current buffer lies strictly ahead of it.  With the strict growth
/// that [`InterpolateOneIterator::next`] guarantees for each step, this
/// is why a run never repeats a value and never passes its target.
pub proof fn lemma_reaches_ahead(b: Seq<u8>, pos: int, t: Seq<u8>)
    requires
        reaches(b, pos, t),
        zeros_beyond(b, pos),
        t != b,
    ensures
        buf_val(t) > buf_val(b),
{
    lemma_reaches_first_difference(b, pos, t);
    let k = choose|k: int|
        0 <= k < 15 && (forall|j: int| 0 <= j < k ==> t[j] == b[j]) && t[k] > b[k];
    lemma_buf_val_prefix(t, b, k);
}

/// Everything right of the active position stays zero along a run, so a
/// reachable target is zero there as well.
proof fn lemma_reaches_tail_zero(b: Seq<u8>, pos: int, t: Seq<u8>)
    requires
        reaches(b, pos, t),
    ensures
        forall|j: int| pos < j < 15 ==> t[j] == 0,
    decreases pos,
{
    if !in_level(b, pos, t) {
        lemma_reaches_tail_zero(b.update(pos, 0), pos - 1, t);
    }
}

/// A reachable target that differs from the current buffer is larger at
/// the first position where the two differ.
proof fn lemma_reaches_first_difference(b: Seq<u8>, pos: int, t: Seq<u8>)
    requires
        reaches(b, pos, t),
        zeros_beyond(b, pos),
        t != b,
    ensures
        exists|k: int|
            0 <= k < 15 && (forall|j: int| 0 <= j < k ==> t[j] == b[j]) && t[k] > b[k],
    decreases pos,
{
    if in_level(b, pos, t) {
        if t[pos] == b[pos] {
            assert forall|j: int| 0 <= j < 15 implies t[j] == b[j] by {
                if j < pos {
                    assert(t.subrange(0, pos)[j] == b.subrange(0, pos)[j]);
                }
            }
            assert(t =~= b);
        }
        assert forall|j: int| 0 <= j < pos implies t[j] == b[j] by {
            assert(t.subrange(0, pos)[j] == b.subrange(0, pos)[j]);
        }
        assert(0 <= pos < 15 && (forall|j: int| 0 <= j < pos ==> t[j] == b[j]) && t[pos]
            > b[pos]);
    } else {
        let b2 = b.update(pos, 0);
        lemma_reaches_first_difference(b2, pos - 1, t);
        let k = choose|k: int|
            0 <= k < 15 && (forall|j: int| 0 <= j < k ==> t[j] == b2[j]) && t[k] > b2[k];
        assert(k < pos) by {
            lemma_reaches_tail_zero(b2, pos - 1, t);
            if k >= pos {
                assert(t[k] == 0 && b2[k] == 0);
            }
        }
        assert(0 <= k < 15 && (forall|j: int| 0 <= j < k ==> t[j] == b[j]) && t[k] > b[k]);
    }
}

/// A buffer on the current level whose byte at the active position also
/// agrees is the current buffer itself.
pub proof fn lemma_in_level_same(b: Seq<u8>, pos: int, t: Seq<u8>)
    requires
        b.len() == 15,
        t.len() == 15,
        0 <= pos < 15,
        in_level(b, pos, t),
        zeros_beyond(b, pos),
        t[pos] == b[pos],
    ensures
        t == b,
{
    assert forall|j: int| 0 <= j < 15 implies t[j] == b[j] by {
        if j < pos {
            assert(t.subrange(0, pos)[j] == b.subrange(0, pos)[j]);
        }
    }
    assert(t =~= b);
}

/// One [`advance`] step of a live run: it stays inside the buffer, the
/// target stays reachable, the zeros to the right of the active position
/// are kept, and the buffer grows by one at the position the carry
/// stopped at.
pub proof fn lemma_advance_step(b: Seq<u8>, pos: int, t: Seq<u8>)
    requires
        b.len() == 15,
        t.len() == 15,
        0 <= pos < 15,
        reaches(b, pos, t),
        zeros_beyond(b, pos),
        t != b,
    ensures
        ({
            let (nb, np) = advance(b, pos);
            &&& 0 <= np <= pos
            &&& nb.len() == 15
            &&& reaches(nb, np, t)
            &&& zeros_beyond(nb, np)
            &&& forall|j: int| 0 <= j < np ==> nb[j] == b[j]
            &&& nb[np] as int == b[np] as int + 1
        }),
    decreases pos,
{
    if b[pos] != 0xff {
        let cb = b.update(pos, (b[pos] + 1) as u8);
        if in_level(b, pos, t) {
            if t[pos] == b[pos] {
                lemma_in_level_same(b, pos, t);
            }
            assert(t[pos] > b[pos]);
            assert(cb.subrange(0, pos) =~= b.subrange(0, pos));
            assert(in_level(cb, pos, t));
            assert(reaches(cb, pos, t));
        } else {
            assert(pos > 0 && t != b.update(pos, 0) && reaches(b.update(pos, 0), pos - 1, t));
            assert(cb.update(pos, 0) =~= b.update(pos, 0));
            assert(reaches(cb, pos, t));
        }
    } else {
        if in_level(b, pos, t) {
            lemma_in_level_same(b, pos, t);
        }
        assert(pos > 0 && t != b.update(pos, 0) && reaches(b.update(pos, 0), pos - 1, t));
        let b2 = b.update(pos, 0);
        assert(zeros_beyond(b2, pos - 1));
        lemma_advance_step(b2, pos - 1, t);
        assert(advance(b, pos) == advance(b2, pos - 1));
    }
}

/// A live run state: a full buffer, an active position with only zeros
/// to its right, and a target still ahead on the run.
pub open spec fn run_state_wf(b: Seq<u8>, pos: int, t: Seq<u8>) -> bool {
    &&& b.len() == 15
    &&& t.len() == 15
    &&& 0 <= pos < 15
    &&& zeros_beyond(b, pos)
    &&& reaches(b, pos, t)
}

/// The buffers that a whole run emits, in order: the current buffer,
/// then everything the run after one [`advance`] step emits, until the
/// buffer equals the target.
pub open spec fn run_emits(b: Seq<u8>, pos: int, t: Seq<u8>) -> Seq<Seq<u8>>
    decreases buf_val(t) - buf_val(b)
        when run_state_wf(b, pos, t)
{
    if b == t {
        Seq::empty()
    } else {
        proof {
            lemma_advance_step(b, pos, t);
            let (nb, np) = advance(b, pos);
            lemma_buf_val_prefix(nb, b, np);
            if nb != t {
                lemma_reaches_ahead(nb, np, t);
            }
        }
        seq![b] + run_emits(advance(b, pos).0, advance(b, pos).1, t)
    }
}

/// Law of the odometer run: over a whole run, the emitted buffers start
/// at the start buffer, are strictly increasing in the traversal order
/// (so no buffer is ever emitted twice), and never include the target.
pub proof fn lemma_run_emits_ordered(b: Seq<u8>, pos: int, t: Seq<u8>)
    requires
        run_state_wf(b, pos, t),
    ensures
        ({
            let e = run_emits(b, pos, t);
            &&& (e.len() == 0 <==> b == t)
            &&& (b != t ==> e[0] == b)
            &&& forall|i: int| 0 <= i < e.len() ==> #[trigger] e[i] != t
            &&& forall|i: int, j: int|
                0 <= i < j < e.len() ==> buf_val(#[trigger] e[i]) < buf_val(#[trigger] e[j])
        }),
    decreases buf_val(t) - buf_val(b),
{
    if b != t {
        lemma_advance_step(b, pos, t);
        let nb = advance(b, pos).0;
        let np = advance(b, pos).1;
        lemma_buf_val_prefix(nb, b, np);
        if nb != t {
            lemma_reaches_ahead(nb, np, t);
        }
        lemma_run_emits_ordered(nb, np, t);
        let e = run_emits(b, pos, t);
        let e2 = run_emits(nb, np, t);
        assert(e == seq![b] + e2);
        assert forall|i: int| 0 <= i < e.len() implies #[trigger] e[i] != t by {
            if i >= 1 {
                assert(e[i] == e2[i - 1]);
            }
        }
        assert forall|i: int, j: int| 0 <= i < j < e.len() implies buf_val(#[trigger] e[i])
            < buf_val(#[trigger] e[j]) by {
            if i == 0 {
                assert(e[j] == e2[j - 1]);
                assert(e2[0] == nb);
                if j > 1 {
                    assert(buf_val(e2[0]) < buf_val(e2[j - 1]));
                }
            } else {
                assert(e[i] == e2[i - 1] && e[j] == e2[j - 1]);
            }
        }
    }
}

/// Law of single-entry runs: with the target one [`advance`] step ahead
/// of the start, as [`InterpolateOneIterator::new_single`] sets it, the
/// run emits exactly the start buffer and nothing else.
pub proof fn lemma_single_run_emits_one(b: Seq<u8>, pos: int)
    requires
        b.len() == 15,
        0 <= pos < 15,
        zeros_beyond(b, pos),
        b[pos] != 0xff,
    ensures
        run_emits(b, pos, advance(b, pos).0) == seq![b],
{
    let t = advance(b, pos).0;
    assert(t == b.update(pos, (b[pos] + 1) as u8));
    assert(t.subrange(0, pos) =~= b.subrange(0, pos));
    assert(in_level(b, pos, t));
    assert(reaches(b, pos, t));
    assert(zeros_beyond(t, pos));
    assert(in_level(t, pos, t));
    assert(reaches(t, pos, t));
    assert(run_state_wf(b, pos, t));
    assert(t != b);
    assert(advance(b, pos).1 == pos);
    assert(run_emits(t, pos, t) == Seq::<Seq<u8>>::empty());
    assert(run_emits(b, pos, t) =~= seq![b]);
}

/// The state of an [`InterpolateOneIterator`]: the instruction to emit
/// next, the exclusive target, and the active byte position.
pub ghost struct OneIterModel {
    pub cur: InstrModel,
    pub tgt: InstrModel,
    pub pos: int,
}

/// An iterator that replays the fuzzer's enumeration order, emitting
/// every instruction from a start (inclusive) to a target (exclusive).
///
/// It reproduces the external search engine's candidate order: the byte
/// at the active position is incremented fastest; a wrap moves the
/// active position one step toward the front, where it stays.  The run
/// ends when the full buffer equals the target's full buffer.
#[derive(Debug)]
pub struct InterpolateOneIterator {
    /// The instruction that the next call of [`Self::next`] returns.
    current: Instruction,
    /// The exclusive bound of the run; never emitted.
    target: Instruction,
    /// The byte position currently being incremented.  It moves from the
    /// end toward the start of the buffer and is never reset upward.
    pos: usize,
}

impl View for InterpolateOneIterator {
    type V = OneIterModel;

    closed spec fn view(&self) -> OneIterModel {
        OneIterModel { cur: self.current@, tgt: self.target@, pos: self.pos as int }
    }
}

impl InterpolateOneIterator {
    /// Invariant of a live run: both endpoints are well formed, the
    /// active position lies inside the significant bytes, everything
    /// right of it is zero, and the target's buffer is still ahead on
    /// the run (or the run is already exhausted).
    pub open spec fn wf(&self) -> bool {
        &&& model_wf(self@.cur)
        &&& model_wf(self@.tgt)
        &&& 0 < self@.cur.len
        &&& 0 <= self@.pos < self@.cur.len
        &&& zeros_beyond(self@.cur.buf, self@.pos)
        &&& reaches(self@.cur.buf, self@.pos, self@.tgt.buf)
    }

    /// Start a run that emits every instruction from `from` (inclusive)
    /// to `to` (exclusive), in enumeration order.
    ///
    /// The two instructions must be waypoints of one enumeration run:
    /// `to`'s buffer must be reachable from `from`'s.  Handing the run
    /// an unreachable target is a logic error, not a recoverable
    /// condition; it is excluded here rather than detected mid-run.
    pub fn new(from: Instruction, to: Instruction) -> (r: InterpolateOneIterator)
        requires
            from.wf(),
            to.wf(),
            from@.len > 0,
            reaches(from@.buf, from@.len - 1, to@.buf),
        ensures
            r.wf(),
            r@.cur == from@,
            r@.tgt == to@,
            r@.pos == from@.len - 1,
    {
        let pos = from.len() - 1;
        InterpolateOneIterator { current: from, target: to, pos }
    }

    /// Start a run that emits exactly `from` and nothing else: the
    /// target is `from` incremented once at its last significant byte.
    /// Together with the contract of [`Self::next`], this pins the run
    /// to the single-element sequence containing `from`;
    /// [`lemma_single_run_emits_one`] states the same at the level of
    /// whole runs.
    pub fn new_single(from: Instruction) -> (r: InterpolateOneIterator)
        requires
            from.wf(),
            from@.len > 0,
            from@.buf[from@.len - 1] != 0xff,
        ensures
            r.wf(),
            r@.cur == from@,
            r@.pos == from@.len - 1,
            r@.tgt.buf == advance(from@.buf, from@.len - 1).0,
            r@.tgt.buf != from@.buf,
    {
        let pos = from.len() - 1;
        let (new_end, _wrapped) = from.increment(pos);
        proof {
            let fb = from@.buf;
            let p = from@.len - 1;
            let tb = new_end@.buf;
            assert(tb.subrange(0, p) =~= fb.subrange(0, p));
            assert(in_level(fb, p, tb));
            assert(reaches(fb, p, tb));
            assert(tb[p] != fb[p]);
        }
        Self::new(from, new_end)
    }

    /// Emit the next instruction of the run, or `None` when the current
    /// buffer has reached the target's buffer.
    ///
    /// Every emitted instruction carries the start's exception code and
    /// length, is strictly larger than its predecessor in the traversal
    /// order (so the run never repeats a value), and never equals the
    /// target.  The successor state is exactly one [`advance`] step:
    /// the very step from which [`run_emits`] builds a whole run's
    /// output, whose order [`lemma_run_emits_ordered`] states.
    pub fn next(&mut self) -> (r: Option<Instruction>)
        requires
            old(self).wf(),
        ensures
            final(self).wf(),
            final(self)@.tgt == old(self)@.tgt,
            r is None <==> old(self)@.cur.buf == old(self)@.tgt.buf,
            r is None ==> final(self)@ == old(self)@,
            r is Some ==> r->0@ == old(self)@.cur && r->0@.buf != old(self)@.tgt.buf,
            r is Some ==> final(self)@.cur.exc == old(self)@.cur.exc && final(self)@.cur.len
                == old(self)@.cur.len,
            r is Some ==> (final(self)@.cur.buf, final(self)@.pos) == advance(
                old(self)@.cur.buf,
                old(self)@.pos,
            ),
            r is Some ==> final(self)@.pos <= old(self)@.pos,
            r is Some ==> buf_val(final(self)@.cur.buf) > buf_val(old(self)@.cur.buf),
    {
        if self.current.same_buffer(&self.target) {
            None
        } else {
            let ret = self.current.clone();
            let ghost b0 = self.current@.buf;
            let ghost p0 = self.pos as int;
            let ghost tm = self.target@;
            let ghost exc0 = self.current@.exc;
            let ghost len0 = self.current@.len;
            loop
                invariant_except_break
                    self.current.wf(),
                    self.target@ == tm,
                    self.current@.exc == exc0,
                    self.current@.len == len0,
                    0 <= self.pos < self.current@.len,
                    self.pos as int <= p0,
                    p0 < len0,
                    b0.len() == 15,
                    zeros_beyond(self.current@.buf, self.pos as int),
                    reaches(self.current@.buf, self.pos as int, tm.buf),
                    tm.buf != self.current@.buf,
                    advance(self.current@.buf, self.pos as int) == advance(b0, p0),
                    forall|j: int| 0 <= j <= self.pos ==> self.current@.buf[j] == b0[j],
                    forall|j: int|
                        self.pos < j <= p0 ==> self.current@.buf[j] == 0 && b0[j] == 0xff,
                    forall|j: int| p0 < j < 15 ==> self.current@.buf[j] == b0[j],
                ensures
                    self.current.wf(),
                    self.target@ == tm,
                    self.current@.exc == exc0,
                    self.current@.len == len0,
                    0 <= self.pos < self.current@.len,
                    self.pos as int <= p0,
                    zeros_beyond(self.current@.buf, self.pos as int),
                    reaches(self.current@.buf, self.pos as int, tm.buf),
                    (self.current@.buf, self.pos as int) == advance(b0, p0),
                    self.current@.buf[self.pos as int] > b0[self.pos as int],
                    forall|j: int| 0 <= j < self.pos ==> self.current@.buf[j] == b0[j],
                decreases self.pos,
            {
                let ghost pre = self.current@.buf;
                let ghost ppos = self.pos as int;
                match self.current.increment_mut(self.pos) {
                    ByteWrapped::Wrap => {
                        proof {
                            if in_level(pre, ppos, tm.buf) {
                                assert forall|j: int| 0 <= j < 15 implies tm.buf[j] == pre[j] by {
                                    if j < ppos {
                                        assert(tm.buf.subrange(0, ppos)[j] == pre.subrange(
                                            0,
                                            ppos,
                                        )[j]);
                                    }
                                }
                                assert(tm.buf =~= pre);
                            }
                            assert(ppos > 0 && tm.buf != pre.update(ppos, 0) && reaches(
                                pre.update(ppos, 0),
                                ppos - 1,
                                tm.buf,
                            ));
                        }
                        self.pos = self.pos - 1;
                    },
                    ByteWrapped::NoWrap => {
                        proof {
                            let cb = self.current@.buf;
                            assert(cb == pre.update(ppos, (pre[ppos] + 1) as u8));
                            assert(cb.subrange(0, ppos) =~= pre.subrange(0, ppos));
                            if in_level(pre, ppos, tm.buf) {
                                if tm.buf[ppos] == pre[ppos] {
                                    assert forall|j: int| 0 <= j < 15 implies tm.buf[j] == pre[j]
                                    by {
                                        if j < ppos {
                                            assert(tm.buf.subrange(0, ppos)[j] == pre.subrange(
                                                0,
                                                ppos,
                                            )[j]);
                                        }
                                    }
                                    assert(tm.buf =~= pre);
                                }
                                assert(tm.buf[ppos] > pre[ppos]);
                                assert(in_level(cb, ppos, tm.buf));
                                assert(reaches(cb, ppos, tm.buf));
                            } else {
                                assert(ppos > 0 && tm.buf != pre.update(ppos, 0) && reaches(
                                    pre.update(ppos, 0),
                                    ppos - 1,
                                    tm.buf,
                                ));
                                assert(cb.update(ppos, 0) =~= pre.update(ppos, 0));
                                assert(reaches(cb, ppos, tm.buf));
                            }
                        }
                        break ;
                    },
                }
            }
            proof {
                lemma_buf_val_prefix(self.current@.buf, b0, self.pos as int);
            }
            Some(ret)
        }
    }
}

/// The instruction value that one [`advance`] step at position `pos`
/// produces from an emitted instruction: same exception and length, the
/// buffer advanced once.
pub open spec fn successor_model(v: InstrModel, pos: int) -> InstrModel {
    InstrModel { exc: v.exc, len: v.len, buf: advance(v.buf, pos).0 }
}

/// The sparse instructions form consistent waypoints of one enumeration
/// run: every entry is well formed with at least one significant byte,
/// each entry reaches the next one's buffer, and the final entry's last
/// significant byte can be incremented without wrapping (so the closing
/// single-element run has a representable bound).  Inconsistent
/// waypoints would drive the run into the fatal carry past position 0.
pub open spec fn valid_waypoints(s: Seq<Instruction>) -> bool {
    &&& forall|i: int| 0 <= i < s.len() ==> (#[trigger] s[i]).wf() && s[i]@.len > 0
    &&& forall|i: int|
        0 <= i < s.len() - 1 ==> reaches(#[trigger] s[i]@.buf, s[i]@.len - 1, s[i + 1]@.buf)
    &&& s.len() > 0 ==> s[s.len() - 1]@.buf[s[s.len() - 1]@.len - 1] != 0xff
}

/// The next instruction a gap-filling run emits when its sparse cursor
/// stands at `i` with no live sub-run: the entry at `i`, except that an
/// entry whose buffer equals its successor's is skipped (its sub-run is
/// empty), and past the end nothing is emitted.
pub open spec fn upcoming(src: Seq<Instruction>, i: int) -> Option<InstrModel>
    decreases src.len() - i,
{
    if i < 0 || i >= src.len() {
        None
    } else if i + 1 < src.len() && src[i]@.buf == src[i + 1]@.buf {
        upcoming(src, i + 1)
    } else {
        Some(src[i]@)
    }
}

/// The index of the sparse entry that [`upcoming`] settles on, or the
/// input's length when the cursor stands past the end.
pub open spec fn upcoming_index(src: Seq<Instruction>, i: int) -> int
    decreases src.len() - i,
{
    if i < 0 || i >= src.len() {
        src.len() as int
    } else if i + 1 < src.len() && src[i]@.buf == src[i + 1]@.buf {
        upcoming_index(src, i + 1)
    } else {
        i
    }
}

/// Within the sparse input, there is always an upcoming emission: the
/// skipping in [`upcoming`] ends at the final entry at the latest.
proof fn lemma_upcoming_some(src: Seq<Instruction>, i: int)
    requires
        0 <= i < src.len(),
    ensures
        upcoming(src, i) is Some,
    decreases src.len() - i,
{
    if i + 1 < src.len() && src[i]@.buf == src[i + 1]@.buf {
        lemma_upcoming_some(src, i + 1);
    }
}

/// An iterator that turns a sparse sequence of logged instructions into
/// the complete dense enumeration: it emits each sparse entry followed
/// by every skipped instruction up to the next sparse entry, and closes
/// with the final sparse entry alone.
pub struct InterpolateAllIterator {
    /// The sparse instructions, in enumeration order.
    src: Vec<Instruction>,
    /// How many sparse entries have been consumed.
    idx: usize,
    /// The sub-run currently being drained, if any.
    interpolate_one_iter: Option<InterpolateOneIterator>,
    /// The previously emitted instruction and the active position it was
    /// emitted at; tracked to state how consecutive outputs relate.
    last: Ghost<Option<(InstrModel, int)>>,
}

impl InterpolateAllIterator {
    /// The sparse input this run was built from.
    pub closed spec fn sparse(&self) -> Seq<Instruction> {
        self.src@
    }

    /// How many sparse entries have been consumed so far.
    pub closed spec fn consumed(&self) -> int {
        self.idx as int
    }

    /// The previously emitted instruction, with the active position it
    /// was emitted at, if anything has been emitted yet.
    pub closed spec fn prev_emitted(&self) -> Option<(InstrModel, int)> {
        self.last@
    }

    /// The exclusive buffer bound of the sub-run currently being
    /// drained: the next sparse entry's buffer, or the single-entry
    /// bound after the last one.  The empty sequence before the first
    /// pull.
    pub closed spec fn run_target(&self) -> Seq<u8> {
        match self.interpolate_one_iter {
            Some(it) => it@.tgt.buf,
            None => seq![],
        }
    }

    /// Whether a sub-run is currently live: one more pull will emit its
    /// current instruction rather than consume the next sparse entry.
    pub closed spec fn sub_live(&self) -> bool {
        match self.interpolate_one_iter {
            Some(it) => it@.cur.buf != it@.tgt.buf,
            None => false,
        }
    }

    /// The active byte position of the sub-run currently being drained;
    /// meaningless before the first pull.
    pub closed spec fn run_position(&self) -> int {
        match self.interpolate_one_iter {
            Some(it) => it@.pos,
            None => -1,
        }
    }

    /// The instruction the next call of [`Self::next`] returns.
    pub closed spec fn next_output(&self) -> Option<InstrModel> {
        match self.interpolate_one_iter {
            Some(it) => if it@.cur.buf != it@.tgt.buf {
                Some(it@.cur)
            } else {
                upcoming(self.src@, self.idx as int)
            },
            None => upcoming(self.src@, self.idx as int),
        }
    }

    /// Invariant of a gap-filling run.
    pub closed spec fn wf(&self) -> bool {
        &&& valid_waypoints(self.src@)
        &&& self.idx <= self.src@.len()
        &&& match self.interpolate_one_iter {
            None => self.idx == 0 && self.last@ is None,
            Some(it) => {
                &&& it.wf()
                &&& 1 <= self.idx
                &&& (self.idx < self.src@.len() ==> it@.tgt.buf == self.src@[
                    self.idx as int
                ]@.buf)
                &&& (self.idx == self.src@.len() ==> it@.tgt.buf == advance(
                    self.src@[self.idx - 1]@.buf,
                    self.src@[self.idx - 1]@.len - 1,
                ).0)
                &&& match self.last@ {
                    None => it@.cur == self.src@[self.idx - 1]@ && it@.pos == it@.cur.len - 1,
                    Some((pv, pp)) => {
                        &&& buf_val(it@.cur.buf) > buf_val(pv.buf)
                        &&& ((it@.cur == successor_model(pv, pp) && it@.pos == advance(
                            pv.buf,
                            pp,
                        ).1) || (it@.cur == self.src@[self.idx - 1]@ && it@.cur.buf == advance(
                            pv.buf,
                            pp,
                        ).0 && it@.pos == it@.cur.len - 1))
                    },
                }
            },
        }
    }

    /// Take the sparse instructions and build the run that interpolates
    /// between all of them.  The entries must be consistent waypoints of
    /// one enumeration run; see [`valid_waypoints`].
    pub fn new(src: Vec<Instruction>) -> (r: InterpolateAllIterator)
        requires
            valid_waypoints(src@),
        ensures
            r.wf(),
            r.sparse() == src@,
            r.next_output() == upcoming(src@, 0),
            r.prev_emitted() is None,
            r.consumed() == 0,
            !r.sub_live(),
    {
        InterpolateAllIterator { src, idx: 0, interpolate_one_iter: None, last: Ghost(None) }
    }

    /// Consume the next sparse entry and start its sub-run: paired with
    /// the following entry when one exists, in single-entry mode for the
    /// final entry.  Returns false when the sparse input is exhausted.
    fn refill(&mut self) -> (r: bool)
        requires
            old(self).wf(),
            match old(self).interpolate_one_iter {
                Some(it) => it@.cur.buf == it@.tgt.buf,
                None => true,
            },
        ensures
            final(self).wf(),
            final(self).src@ == old(self).src@,
            final(self).last@ == old(self).last@,
            r <==> old(self).idx < old(self).src@.len(),
            !r ==> final(self).idx == old(self).idx && final(self).interpolate_one_iter == old(self).interpolate_one_iter,
            r ==> {
                &&& final(self).idx == old(self).idx + 1
                &&& final(self).interpolate_one_iter is Some
                &&& {
                    let it = final(self).interpolate_one_iter->0;
                    &&& it@.cur == old(self).src@[old(self).idx as int]@
                    &&& it@.pos == it@.cur.len - 1
                    &&& (old(self).idx + 1 < old(self).src@.len() ==> it@.tgt.buf == old(self).src@[old(self).idx + 1]@.buf)
                    &&& (it@.cur.buf == it@.tgt.buf ==> (old(self).idx + 1 < old(self).src@.len() && old(self).src@[old(self).idx as int]@.buf == old(self).src@[old(self).idx + 1]@.buf))
                }
            },
    {
        if self.idx < self.src.len() {
            let i = self.idx;
            let cur = self.src[i].clone();
            self.idx = i + 1;
            if self.idx < self.src.len() {
                let peeked = self.src[self.idx].clone();
                self.interpolate_one_iter = Some(InterpolateOneIterator::new(cur, peeked));
            } else {
                self.interpolate_one_iter = Some(InterpolateOneIterator::new_single(cur));
            }
            true
        } else {
            false
        }
    }

    /// Start the next sub-run and pull its first element; `None` when
    /// the sparse input is exhausted.
    fn refill_and_next(&mut self) -> (r: Option<Instruction>)
        requires
            old(self).wf(),
            match old(self).interpolate_one_iter {
                Some(it) => it@.cur.buf == it@.tgt.buf,
                None => true,
            },
        ensures
            final(self).wf(),
            final(self).sparse() == old(self).sparse(),
            old(self).consumed() <= final(self).consumed(),
            r is Some <==> upcoming(old(self).src@, old(self).idx as int) is Some,
            r is Some ==> r->0@ == upcoming(old(self).src@, old(self).idx as int)->0,
            r is None ==> final(self).next_output() is None && final(self).consumed() == old(self).consumed() && final(self).prev_emitted() == old(self).prev_emitted(),
            r is Some ==> final(self).prev_emitted() is Some && (final(self).prev_emitted()->0).0 == r->0@,
            r is Some ==> 1 <= final(self).consumed() <= old(self).sparse().len(),
            r is Some ==> match old(self).prev_emitted() {
                None => r->0@ == old(self).sparse()[final(self).consumed() - 1]@ && (final(self).prev_emitted()->0).1 == r->0@.len - 1,
                Some((pv, pp)) => r->0@.buf == advance(pv.buf, pp).0 && buf_val(r->0@.buf)
                    > buf_val(pv.buf) && ((r->0@ == successor_model(pv, pp) && (final(self).prev_emitted()->0).1 == advance(pv.buf, pp).1) || (r->0@ == old(self).sparse()[final(self).consumed() - 1]@ && (final(self).prev_emitted()->0).1
                    == r->0@.len - 1)),
            },
            r is Some ==> (final(self).consumed() < old(self).sparse().len() ==> final(self).run_target() == old(self).sparse()[final(self).consumed()]@.buf),
            r is Some ==> (final(self).consumed() == old(self).sparse().len() ==> final(self).run_target() == advance(
                old(self).sparse()[final(self).consumed() - 1]@.buf,
                old(self).sparse()[final(self).consumed() - 1]@.len - 1,
            ).0),
            r is Some ==> {
                let pp = (final(self).prev_emitted()->0).1;
                let nb = advance(r->0@.buf, pp).0;
                &&& (nb != final(self).run_target() ==> final(self).next_output() == Some(
                    successor_model(r->0@, pp),
                ))
                &&& (nb == final(self).run_target() ==> final(self).next_output() == upcoming(
                    final(self).sparse(),
                    final(self).consumed(),
                ))
            },
            r is Some ==> final(self).consumed() == upcoming_index(
                old(self).src@,
                old(self).idx as int,
            ) + 1 && (final(self).prev_emitted()->0).1 == r->0@.len - 1,
            r is Some ==> final(self).run_position() == advance(
                r->0@.buf,
                (final(self).prev_emitted()->0).1,
            ).1,
            r is Some ==> (final(self).sub_live() <==> advance(
                r->0@.buf,
                (final(self).prev_emitted()->0).1,
            ).0 != final(self).run_target()),
        decreases old(self).src@.len() - old(self).idx, 0int,
    {
        if self.refill() {
            proof {
                lemma_upcoming_some(old(self).src@, old(self).idx as int);
            }
            self.next()
        } else {
            None
        }
    }

    /// Emit the next instruction of the dense enumeration, or `None`
    /// when the whole sparse input has been covered.
    ///
    /// Consecutive outputs relate as the law for gap filling demands:
    /// every output after the first either is the immediate traversal
    /// successor of its predecessor or is the sparse entry just
    /// consumed, and in either case its buffer is exactly one
    /// [`advance`] step from its predecessor's, strictly larger in the
    /// traversal order.  The contract also pins the post-state, so the
    /// whole dense sequence is determined: the consumed count and the
    /// recorded emission position follow from whether the previous
    /// sub-run was still live, the next output is the emitted
    /// instruction's successor until the sub-run's bound is hit, then
    /// the next sparse entry, and after the final sparse entry every
    /// call returns `None`.
    pub fn next(&mut self) -> (r: Option<Instruction>)
        requires
            old(self).wf(),
        ensures
            final(self).wf(),
            final(self).sparse() == old(self).sparse(),
            old(self).consumed() <= final(self).consumed(),
            r is Some <==> old(self).next_output() is Some,
            r is Some ==> r->0@ == old(self).next_output()->0,
            r is None ==> final(self).next_output() is None && final(self).consumed() == old(self).consumed() && final(self).prev_emitted() == old(self).prev_emitted(),
            r is Some ==> final(self).prev_emitted() is Some && (final(self).prev_emitted()->0).0 == r->0@,
            r is Some ==> 1 <= final(self).consumed() <= old(self).sparse().len(),
            r is Some ==> match old(self).prev_emitted() {
                None => r->0@ == old(self).sparse()[final(self).consumed() - 1]@ && (final(self).prev_emitted()->0).1 == r->0@.len - 1,
                Some((pv, pp)) => r->0@.buf == advance(pv.buf, pp).0 && buf_val(r->0@.buf)
                    > buf_val(pv.buf) && ((r->0@ == successor_model(pv, pp) && (final(self).prev_emitted()->0).1 == advance(pv.buf, pp).1) || (r->0@ == old(self).sparse()[final(self).consumed() - 1]@ && (final(self).prev_emitted()->0).1
                    == r->0@.len - 1)),
            },
            r is Some ==> (final(self).consumed() < old(self).sparse().len() ==> final(self).run_target() == old(self).sparse()[final(self).consumed()]@.buf),
            r is Some ==> (final(self).consumed() == old(self).sparse().len() ==> final(self).run_target() == advance(
                old(self).sparse()[final(self).consumed() - 1]@.buf,
                old(self).sparse()[final(self).consumed() - 1]@.len - 1,
            ).0),
            r is Some ==> {
                let pp = (final(self).prev_emitted()->0).1;
                let nb = advance(r->0@.buf, pp).0;
                &&& (nb != final(self).run_target() ==> final(self).next_output() == Some(
                    successor_model(r->0@, pp),
                ))
                &&& (nb == final(self).run_target() ==> final(self).next_output() == upcoming(
                    final(self).sparse(),
                    final(self).consumed(),
                ))
            },
            r is Some && old(self).sub_live() ==> final(self).consumed() == old(self).consumed()
                && (final(self).prev_emitted()->0).1 == old(self).run_position(),
            r is Some && !old(self).sub_live() ==> final(self).consumed() == upcoming_index(
                old(self).sparse(),
                old(self).consumed(),
            ) + 1 && (final(self).prev_emitted()->0).1 == r->0@.len - 1,
            r is Some ==> final(self).run_position() == advance(
                r->0@.buf,
                (final(self).prev_emitted()->0).1,
            ).1,
            r is Some ==> (final(self).sub_live() <==> advance(
                r->0@.buf,
                (final(self).prev_emitted()->0).1,
            ).0 != final(self).run_target()),
        decreases old(self).sparse().len() - old(self).consumed(), 1int,
    {
        match &mut self.interpolate_one_iter {
            Some(it) => {
                let ghost pit = it@;
                match it.next() {
                    Some(instr) => {
                        self.last = Ghost(Some((instr@, pit.pos)));
                        Some(instr)
                    },
                    None => self.refill_and_next(),
                }
            },
            None => self.refill_and_next(),
        }
    }
}

/// Run-time check of [`Instruction::wf`].
fn wf_check(i: &Instruction) -> (r: bool)
    ensures
        r == i.wf(),
{
    if i.exc >= 16 || i.len > 15 || i.bytes.len() != 15 {
        return false;
    }
    let mut j = i.len as usize;
    while j < 15
        invariant
            i@.len <= j <= 15,
            i.bytes@.len() == 15,
            forall|k: int| i@.len <= k < j ==> i.bytes@[k] == 0,
        decreases 15 - j,
    {
        if i.bytes[j] != 0 {
            return false;
        }
        j = j + 1;
    }
    true
}

/// Run-time check of [`in_level`] for two full buffers.
fn in_level_check(b: &Vec<u8>, pos: usize, t: &Vec<u8>) -> (r: bool)
    requires
        b@.len() == 15,
        t@.len() == 15,
        pos < 15,
    ensures
        r == in_level(b@, pos as int, t@),
{
    let mut j: usize = 0;
    while j < pos
        invariant
            j <= pos < 15,
            b@.len() == 15,
            t@.len() == 15,
            forall|k: int| 0 <= k < j ==> b@[k] == t@[k],
        decreases pos - j,
    {
        if b[j] != t[j] {
            proof {
                if in_level(b@, pos as int, t@) {
                    assert(t@.subrange(0, pos as int)[j as int] == b@.subrange(0, pos as int)[
                        j as int
                    ]);
                }
            }
            return false;
        }
        j = j + 1;
    }
    if t[pos] < b[pos] {
        return false;
    }
    let mut j: usize = pos + 1;
    while j < 15
        invariant
            pos < j <= 15,
            t@.len() == 15,
            forall|k: int| pos < k < j ==> t@[k] == 0,
        decreases 15 - j,
    {
        if t[j] != 0 {
            return false;
        }
        j = j + 1;
    }
    proof {
        assert(t@.subrange(0, pos as int) =~= b@.subrange(0, pos as int));
    }
    true
}

/// Run-time check of [`reaches`] for two full buffers.
fn reaches_check(b: &Vec<u8>, pos: usize, t: &Vec<u8>) -> (r: bool)
    requires
        b@.len() == 15,
        t@.len() == 15,
        pos < 15,
    ensures
        r == reaches(b@, pos as int, t@),
    decreases pos,
{
    if in_level_check(b, pos, t) {
        true
    } else if pos > 0 {
        let mut b2 = b.clone();
        proof {
            assert(b2@ =~= b@);
        }
        b2.set(pos, 0);
        let mut same = true;
        let mut j: usize = 0;
        while j < 15
            invariant
                j <= 15,
                b2@.len() == 15,
                t@.len() == 15,
                same <==> forall|k: int| 0 <= k < j ==> b2@[k] == t@[k],
            decreases 15 - j,
        {
            if b2[j] != t[j] {
                same = false;
                proof {
                    assert(b2@[j as int] != t@[j as int]);
                }
            }
            j = j + 1;
        }
        if same {
            proof {
                assert(t@ =~= b@.update(pos as int, 0u8));
            }
            false
        } else {
            proof {
                assert(t@ != b@.update(pos as int, 0u8));
            }
            reaches_check(&b2, pos - 1, t)
        }
    } else {
        false
    }
}

/// Decide at run time whether the enumeration run that starts at `from`
/// visits `to`'s buffer.  This is how an unverified caller establishes
/// the precondition of [`InterpolateOneIterator::new`] before starting a
/// run on data it has not produced itself.
pub fn reachable(from: &Instruction, to: &Instruction) -> (r: bool)
    requires
        from.wf(),
        to.wf(),
        from@.len > 0,
    ensures
        r == reaches(from@.buf, from@.len - 1, to@.buf),
{
    let pos = from.len() - 1;
    reaches_check(&from.bytes, pos, &to.bytes)
}

/// Decide at run time whether a sparse sequence forms consistent
/// waypoints of one enumeration run (see [`valid_waypoints`]).  This is
/// how an unverified caller establishes the precondition of
/// [`InterpolateAllIterator::new`]; handing that iterator inconsistent
/// waypoints is a logic error, not a recoverable condition.
pub fn waypoints_valid(src: &Vec<Instruction>) -> (r: bool)
    ensures
        r == valid_waypoints(src@),
{
    let n = src.len();
    let mut i: usize = 0;
    while i < n
        invariant
            i <= n,
            n == src@.len(),
            forall|k: int| 0 <= k < i ==> (#[trigger] src@[k]).wf() && src@[k]@.len > 0,
            forall|k: int|
                1 <= k < i ==> reaches(
                    #[trigger] src@[k - 1]@.buf,
                    src@[k - 1]@.len - 1,
                    src@[k]@.buf,
                ),
        decreases n - i,
    {
        if !wf_check(&src[i]) || src[i].len() == 0 {
            return false;
        }
        if i > 0 {
            let pos = src[i - 1].len() - 1;
            if !reaches_check(&src[i - 1].bytes, pos, &src[i].bytes) {
                return false;
            }
        }
        i = i + 1;
    }
    if n > 0 {
        let li = src[n - 1].len() - 1;
        if src[n - 1].bytes[li] == 0xff {
            return false;
        }
    }
    proof {
        assert forall|k: int| 0 <= k < src@.len() - 1 implies reaches(
            #[trigger] src@[k]@.buf,
            src@[k]@.len - 1,
            src@[k + 1]@.buf,
        ) by {
            assert(reaches(src@[(k + 1) - 1]@.buf, src@[(k + 1) - 1]@.len - 1, src@[k + 1]@.buf));
        }
    }
    true
}

/// Copy a slice into a fresh fixed-size buffer of 15 bytes, zero-filling
/// the tail.
fn slice_to_arr(s: &[u8]) -> (out: Vec<u8>)
    requires
        s@.len() <= 15,
    ensures
        out@.len() == 15,
        out@.take(s@.len() as int) == s@,
        forall|i: int| s@.len() <= i < 15 ==> out@[i] == 0,
{
    let n = s.len();
    let mut out: Vec<u8> = Vec::new();
    let mut i: usize = 0;
    while i < n
        invariant
            i <= n,
            n == s@.len() <= 15,
            out@ =~= s@.take(i as int),
        decreases n - i,
    {
        out.push(s[i]);
        i = i + 1;
    }
    while i < 15
        invariant
            n <= i <= 15,
            n == s@.len(),
            out@.len() == i,
            out@.take(n as int) =~= s@,
            forall|j: int| n <= j < i ==> out@[j] == 0,
        decreases 15 - i,
    {
        out.push(0);
        i = i + 1;
    }
    assert(out@.take(s@.len() as int) == s@);
    out
}

} // verus!
