//! Predicate, delimiter and length driven reads on a buffered source, each in
//! a consuming flavour and a peek-only `fill_` flavour.
use vstd::prelude::*;

use crate::source::{exact_read_error, handed_on, BufSource, IoError, Source};

verus! {

/// Every byte of `s` is one on which `predicate` may answer `true`.
pub open spec fn all_match<P: Fn(u8) -> bool>(predicate: P, s: Seq<u8>) -> bool {
    forall|i: int| 0 <= i < s.len() ==> #[trigger] predicate.ensures((s[i],), true)
}

/// The first `k` bytes of `s` are the run that `predicate` accepts: each of
/// them matched, and the byte after them, if there is one, did not.
pub open spec fn matched_run<P: Fn(u8) -> bool>(predicate: P, s: Seq<u8>, k: int) -> bool {
    &&& 0 <= k <= s.len()
    &&& all_match(predicate, s.take(k))
    &&& (k < s.len() ==> predicate.ensures((s[k],), false))
}

/// A call consumed the first `k` of the bytes `before` that a source had
/// remaining, leaving `after`, and appended those `k` bytes to a buffer.
pub open spec fn took_prefix(
    before: Seq<u8>,
    after: Seq<u8>,
    buf_before: Seq<u8>,
    buf_after: Seq<u8>,
    k: int,
) -> bool {
    &&& 0 <= k <= before.len()
    &&& buf_after == buf_before + before.take(k)
    &&& after == before.skip(k)
}

/// `after` is what is left of `before` once some prefix of it was consumed.
pub open spec fn skipped_prefix(before: Seq<u8>, after: Seq<u8>) -> bool {
    &&& after.len() <= before.len()
    &&& after == before.skip(before.len() - after.len())
}

/// How many bytes a delimited read takes from `s`: everything up to and
/// including the first `delim`, or all of `s` when it holds none.
pub open spec fn segment_len(s: Seq<u8>, delim: u8) -> nat
    decreases s.len(),
{
    if s.len() == 0 {
        0
    } else if s[0] == delim {
        1
    } else {
        1 + segment_len(s.skip(1), delim)
    }
}

/// A `delim` at index `j`, with none before it, ends the segment there.
pub proof fn lemma_segment_found(s: Seq<u8>, delim: u8, j: int)
    requires
        0 <= j < s.len(),
        s[j] == delim,
        forall|i: int| 0 <= i < j ==> s[i] != delim,
    ensures
        segment_len(s, delim) == j + 1,
    decreases j,
{
    if j > 0 {
        assert(s[0] != delim);
        lemma_segment_found(s.skip(1), delim, j - 1);
    }
}

/// Without any `delim`, the segment is all of `s`.
pub proof fn lemma_segment_absent(s: Seq<u8>, delim: u8)
    requires
        forall|i: int| 0 <= i < s.len() ==> s[i] != delim,
    ensures
        segment_len(s, delim) == s.len(),
    decreases s.len(),
{
    if s.len() > 0 {
        assert(s[0] != delim);
        lemma_segment_absent(s.skip(1), delim);
    }
}

/// With no `delim` among its first `k` bytes, and more bytes after them,
/// the segment is longer than `k`.
proof fn lemma_segment_bound(s: Seq<u8>, delim: u8, k: int)
    requires
        0 <= k < s.len(),
        forall|i: int| 0 <= i < k ==> s[i] != delim,
    ensures
        k < segment_len(s, delim),
    decreases k,
{
    if k > 0 {
        assert(s[0] != delim);
        lemma_segment_bound(s.skip(1), delim, k - 1);
    }
}

/// A delimited read of a non-empty input takes at least one byte, and never
/// more than the input holds.
pub proof fn lemma_segment_len_bounds(s: Seq<u8>, delim: u8)
    ensures
        segment_len(s, delim) <= s.len(),
        s.len() > 0 ==> 1 <= segment_len(s, delim),
    decreases s.len(),
{
    if s.len() > 0 && s[0] != delim {
        lemma_segment_len_bounds(s.skip(1), delim);
    }
}

/// The segments that delimited reads, made one after another until one
/// returns nothing, carve out of `s`.
pub open spec fn segments(s: Seq<u8>, delim: u8) -> Seq<Seq<u8>>
    decreases s.len(),
{
    if s.len() == 0 {
        Seq::empty()
    } else {
        proof {
            lemma_segment_len_bounds(s, delim);
        }
        seq![s.take(segment_len(s, delim) as int)] + segments(
            s.skip(segment_len(s, delim) as int),
            delim,
        )
    }
}

/// Delimited reads repeated on an input exhaust it: there are no more of
/// them than bytes, none before the end is empty, and the segments joined in
/// order give back the input, so that their lengths add up to its length.
pub proof fn lemma_segments_exhaust(s: Seq<u8>, delim: u8)
    ensures
        segments(s, delim).len() <= s.len(),
        forall|i: int| 0 <= i < segments(s, delim).len() ==> #[trigger] segments(s, delim)[i].len() > 0,
        segments(s, delim).flatten() == s,
        segments(s, delim).flatten().len() == s.len(),
    decreases s.len(),
{
    if s.len() > 0 {
        let k = segment_len(s, delim) as int;
        lemma_segment_len_bounds(s, delim);
        lemma_segments_exhaust(s.skip(k), delim);
        let rest = segments(s.skip(k), delim);
        let all = segments(s, delim);
        assert(all == seq![s.take(k)] + rest);
        assert(all.first() == s.take(k));
        assert(all.drop_first() =~= rest);
        assert forall|i: int| 0 <= i < all.len() implies #[trigger] all[i].len() > 0 by {
            if i > 0 {
                assert(all[i] == rest[i - 1]);
            }
        }
        assert(s.take(k) + s.skip(k) =~= s);
    } else {
        assert(segments(s, delim).flatten() =~= s);
    }
}

/// A consuming read that appended a prefix of the input loses and repeats
/// nothing: what it appended, followed by what the source still holds, is
/// what the source held before.
pub proof fn lemma_read_reconstructs(
    before: Seq<u8>,
    after: Seq<u8>,
    buf_before: Seq<u8>,
    buf_after: Seq<u8>,
    k: int,
)
    requires
        took_prefix(before, after, buf_before, buf_after, k),
    ensures
        buf_after.skip(buf_before.len() as int) + after == before,
{
    assert(buf_after.skip(buf_before.len() as int) =~= before.take(k));
    assert(before.take(k) + before.skip(k) =~= before);
}

/// For a predicate that gives one answer per byte, the run that it accepts
/// at the front of an input is unique: two predicate-driven peeks of an
/// unchanged source find the same bytes.
pub proof fn lemma_matched_run_unique<P: Fn(u8) -> bool>(predicate: P, s: Seq<u8>, k1: int, k2: int)
    requires
        forall|b: u8, x: bool, y: bool|
            predicate.ensures((b,), x) && predicate.ensures((b,), y) ==> x == y,
        matched_run(predicate, s, k1),
        matched_run(predicate, s, k2),
    ensures
        k1 == k2,
        s.take(k1) == s.take(k2),
{
    if k1 < k2 {
        assert(s.take(k2)[k1] == s[k1]);
        assert(predicate.ensures((s[k1],), true));
    } else if k2 < k1 {
        assert(s.take(k1)[k2] == s[k2]);
        assert(predicate.ensures((s[k2],), true));
    }
}

/// The index of the first `byte` in `haystack` at or after `from`.
pub fn find_byte(haystack: &[u8], from: usize, byte: u8) -> (r: Option<usize>)
    ensures
        match r {
            Some(j) => {
                &&& from <= j < haystack@.len()
                &&& haystack@[j as int] == byte
                &&& forall|i: int| from <= i < j ==> haystack@[i] != byte
            },
            None => forall|i: int| from <= i < haystack@.len() ==> haystack@[i] != byte,
        },
{
    let len = haystack.len();
    let mut i = from;
    while i < len
        invariant
            len == haystack@.len(),
            from <= i,
            forall|k: int| from <= k < i ==> haystack@[k] != byte,
        decreases len - i,
    {
        if haystack[i] == byte {
            return Some(i);
        }
        i = i + 1;
    }
    None
}

/// Appends the bytes of `src` from index `from` up to `to` to `buf`.
fn append_range(buf: &mut Vec<u8>, src: &[u8], from: usize, to: usize)
    requires
        from <= to <= src@.len(),
    ensures
        final(buf)@ == old(buf)@ + src@.subrange(from as int, to as int),
{
    let mut i: usize = from;
    assert(src@.subrange(from as int, from as int) =~= Seq::<u8>::empty());
    assert(buf@ =~= old(buf)@ + src@.subrange(from as int, from as int));
    while i < to
        invariant
            to <= src@.len(),
            from <= i <= to,
            buf@ == old(buf)@ + src@.subrange(from as int, i as int),
        decreases to - i,
    {
        buf.push(src[i]);
        assert(src@.subrange(from as int, i + 1) =~= src@.subrange(from as int, i as int).push(
            src@[i as int],
        ));
        i = i + 1;
    }
}

/// Extends every buffered source with streaming-parser operations.
pub trait BufReadExt: BufSource {
    /// Appends to `buf`, and consumes, the run of leading bytes that
    /// `predicate` accepts; the first byte that it rejects stays unread.
    /// Returns how many bytes were appended.
    ///
    /// Interruptions are retried. On any other error of the source the bytes
    /// matched so far have been appended and consumed, and no others.
    fn read_while<P: Fn(u8) -> bool>(&mut self, buf: &mut Vec<u8>, predicate: P) -> (r: Result<
        usize,
        IoError,
    >)
        requires
            forall|b: u8| predicate.requires((b,)),
        ensures
            old(buf)@.len() <= final(buf)@.len(),
            took_prefix(
                old(self).remaining(),
                final(self).remaining(),
                old(buf)@,
                final(buf)@,
                final(buf)@.len() - old(buf)@.len(),
            ),
            all_match(predicate, final(buf)@.skip(old(buf)@.len() as int)),
            final(self).infallible() == old(self).infallible(),
            final(self).shows_all() == old(self).shows_all(),
            old(self).infallible() ==> r is Ok,
            match r {
                Ok(n) => {
                    &&& n == final(buf)@.len() - old(buf)@.len()
                    &&& matched_run(predicate, old(self).remaining(), n as int)
                },
                Err(e) => handed_on(e, final(self).reported()),
            },
    ;

    /// Appends to `buf`, and consumes, every byte up to and including the
    /// first `byte`, or up to the end of the input when there is none.
    /// Returns how many bytes were appended: zero only at the end of the
    /// input.
    ///
    /// Interruptions are retried. On any other error of the source the bytes
    /// appended so far have been consumed, and no others.
    fn try_read_until(&mut self, byte: u8, buf: &mut Vec<u8>) -> (r: Result<usize, IoError>)
        ensures
            old(buf)@.len() <= final(buf)@.len(),
            took_prefix(
                old(self).remaining(),
                final(self).remaining(),
                old(buf)@,
                final(buf)@,
                final(buf)@.len() - old(buf)@.len(),
            ),
            final(buf)@.len() - old(buf)@.len() <= segment_len(old(self).remaining(), byte),
            r is Err ==> forall|i: int|
                0 <= i < final(buf)@.len() - old(buf)@.len() ==> old(self).remaining()[i] != byte,
            final(self).infallible() == old(self).infallible(),
            final(self).shows_all() == old(self).shows_all(),
            old(self).infallible() ==> r is Ok,
            match r {
                Ok(n) => {
                    &&& n == final(buf)@.len() - old(buf)@.len()
                    &&& n == segment_len(old(self).remaining(), byte)
                },
                Err(e) => handed_on(e, final(self).reported()),
            },
    ;

    /// Appends to `buf` the run of leading bytes that `predicate` accepts,
    /// as `read_while` does, but consumes nothing. Returns how many bytes
    /// were appended.
    ///
    /// Interruptions are retried. On any other error of the source the bytes
    /// matched so far have been appended.
    fn fill_while<P: Fn(u8) -> bool>(&mut self, buf: &mut Vec<u8>, predicate: P) -> (r: Result<
        usize,
        IoError,
    >)
        requires
            forall|b: u8| predicate.requires((b,)),
        ensures
            final(self).remaining() == old(self).remaining(),
            old(buf)@.len() <= final(buf)@.len(),
            final(buf)@.len() - old(buf)@.len() <= old(self).remaining().len(),
            final(buf)@ == old(buf)@ + old(self).remaining().take(
                final(buf)@.len() - old(buf)@.len(),
            ),
            all_match(predicate, final(buf)@.skip(old(buf)@.len() as int)),
            final(self).infallible() == old(self).infallible(),
            final(self).shows_all() == old(self).shows_all(),
            old(self).infallible() ==> r is Ok,
            match r {
                Ok(n) => {
                    &&& n == final(buf)@.len() - old(buf)@.len()
                    &&& matched_run(predicate, old(self).remaining(), n as int)
                },
                Err(e) => handed_on(e, final(self).reported()),
            },
    ;

    /// Appends to `buf` every byte up to and including the first `byte`, or
    /// up to the end of the input when there is none, as `try_read_until`
    /// does, but consumes nothing. Returns how many bytes were appended.
    ///
    /// Interruptions are retried. On any other error of the source the bytes
    /// scanned so far have been appended.
    fn fill_until(&mut self, byte: u8, buf: &mut Vec<u8>) -> (r: Result<usize, IoError>)
        ensures
            final(self).remaining() == old(self).remaining(),
            old(buf)@.len() <= final(buf)@.len(),
            final(buf)@.len() - old(buf)@.len() <= segment_len(old(self).remaining(), byte),
            r is Err ==> forall|i: int|
                0 <= i < final(buf)@.len() - old(buf)@.len() ==> old(self).remaining()[i] != byte,
            final(buf)@ == old(buf)@ + old(self).remaining().take(
                final(buf)@.len() - old(buf)@.len(),
            ),
            final(self).infallible() == old(self).infallible(),
            final(self).shows_all() == old(self).shows_all(),
            old(self).infallible() ==> r is Ok,
            match r {
                Ok(n) => {
                    &&& n == final(buf)@.len() - old(buf)@.len()
                    &&& n == segment_len(old(self).remaining(), byte)
                },
                Err(e) => handed_on(e, final(self).reported()),
            },
    ;

    /// Waits until at least `buf.len()` bytes can be looked at, then copies
    /// the first `buf.len()` of them into `buf` without consuming any. Fails
    /// with `UnexpectedEof` when the input ends before that.
    ///
    /// Interruptions are retried; any other error of the source is returned.
    fn fill_exact(&mut self, buf: &mut [u8]) -> (r: Result<(), IoError>)
        ensures
            final(self).remaining() == old(self).remaining(),
            final(buf)@.len() == old(buf)@.len(),
            old(buf)@.len() == 0 ==> r is Ok,
            final(self).infallible() == old(self).infallible(),
            final(self).shows_all() == old(self).shows_all(),
            old(self).infallible() ==> (r is Ok <==> old(buf)@.len() <= old(
                self,
            ).remaining().len()),
            match r {
                Ok(()) => {
                    &&& old(buf)@.len() <= old(self).remaining().len()
                    &&& final(buf)@ == old(self).remaining().take(old(buf)@.len() as int)
                },
                Err(e) => exact_read_error(
                    e,
                    old(self).remaining().len(),
                    old(buf)@.len(),
                    old(self).infallible(),
                    final(self).reported(),
                ),
            },
    ;

    /// Consumes the first `n` bytes, or all that remain when there are
    /// fewer.
    ///
    /// Interruptions are retried; any other error of the source is returned.
    fn skip(&mut self, n: usize) -> (r: Result<(), IoError>)
        ensures
            skipped_prefix(old(self).remaining(), final(self).remaining()),
            old(self).remaining().len() - final(self).remaining().len() <= n,
            n == 0 ==> r is Ok,
            final(self).infallible() == old(self).infallible(),
            final(self).shows_all() == old(self).shows_all(),
            old(self).infallible() ==> r is Ok,
            match r {
                Ok(()) => final(self).remaining() == old(self).remaining().skip(
                    if n <= old(self).remaining().len() {
                        n as int
                    } else {
                        old(self).remaining().len() as int
                    },
                ),
                Err(e) => handed_on(e, final(self).reported()),
            },
    ;

    /// Consumes the run of leading bytes that `predicate` accepts and
    /// returns how many; the first byte that it rejects stays unread.
    ///
    /// Interruptions are retried; any other error of the source is returned.
    fn skip_while<P: Fn(u8) -> bool>(&mut self, predicate: P) -> (r: Result<usize, IoError>)
        requires
            forall|b: u8| predicate.requires((b,)),
            old(self).remaining().len() <= usize::MAX || !all_match(
                predicate,
                old(self).remaining().take(usize::MAX + 1),
            ),
        ensures
            skipped_prefix(old(self).remaining(), final(self).remaining()),
            all_match(
                predicate,
                old(self).remaining().take(
                    old(self).remaining().len() - final(self).remaining().len(),
                ),
            ),
            final(self).infallible() == old(self).infallible(),
            final(self).shows_all() == old(self).shows_all(),
            old(self).infallible() ==> r is Ok,
            match r {
                Ok(n) => {
                    &&& matched_run(predicate, old(self).remaining(), n as int)
                    &&& final(self).remaining() == old(self).remaining().skip(n as int)
                },
                Err(e) => handed_on(e, final(self).reported()),
            },
    ;

    /// Consumes every byte up to and including the first `byte`, or up to
    /// the end of the input when there is none, and returns how many.
    ///
    /// Interruptions are retried; any other error of the source is returned.
    fn skip_until(&mut self, byte: u8) -> (r: Result<usize, IoError>)
        requires
            segment_len(old(self).remaining(), byte) <= usize::MAX,
        ensures
            skipped_prefix(old(self).remaining(), final(self).remaining()),
            old(self).remaining().len() - final(self).remaining().len() <= segment_len(
                old(self).remaining(),
                byte,
            ),
            r is Err ==> forall|i: int|
                0 <= i < old(self).remaining().len() - final(self).remaining().len() ==> old(
                    self,
                ).remaining()[i] != byte,
            final(self).infallible() == old(self).infallible(),
            final(self).shows_all() == old(self).shows_all(),
            old(self).infallible() ==> r is Ok,
            match r {
                Ok(n) => {
                    &&& n == segment_len(old(self).remaining(), byte)
                    &&& final(self).remaining() == old(self).remaining().skip(n as int)
                },
                Err(e) => handed_on(e, final(self).reported()),
            },
    ;
}

/// Taking `a` bytes and then `b` more is taking `a + b`.
proof fn lemma_take_more(s: Seq<u8>, a: int, b: int)
    requires
        0 <= a,
        0 <= b,
        a + b <= s.len(),
    ensures
        s.take(a) + s.skip(a).take(b) == s.take(a + b),
        s.skip(a).skip(b) == s.skip(a + b),
{
    assert(s.take(a) + s.skip(a).take(b) =~= s.take(a + b));
    assert(s.skip(a).skip(b) =~= s.skip(a + b));
}

/// Every prefix of a run that a predicate accepts is accepted too.
proof fn lemma_all_match_prefix<P: Fn(u8) -> bool>(predicate: P, s: Seq<u8>, a: int, b: int)
    requires
        0 <= a <= b <= s.len(),
        all_match(predicate, s.take(b)),
    ensures
        all_match(predicate, s.take(a)),
{
    assert forall|i: int| 0 <= i < a implies #[trigger] predicate.ensures((s.take(a)[i],), true) by {
        assert(s.take(a)[i] == s.take(b)[i]);
    }
}

impl<S: BufSource> BufReadExt for S {
    fn read_while<P: Fn(u8) -> bool>(&mut self, buf: &mut Vec<u8>, predicate: P) -> (r: Result<
        usize,
        IoError,
    >) {
        let ghost rem = self.remaining();
        let start = buf.len();
        assert(buf@ =~= old(buf)@ + rem.take(0));
        assert(rem.skip(0) =~= rem);
        loop
            invariant
                forall|b: u8| predicate.requires((b,)),
                start == old(buf)@.len(),
                start <= buf@.len(),
                took_prefix(rem, self.remaining(), old(buf)@, buf@, buf@.len() - start),
                all_match(predicate, buf@.skip(start as int)),
                self.infallible() == old(self).infallible(),
                self.shows_all() == old(self).shows_all(),
                rem == old(self).remaining(),
            decreases self.remaining().len(), self.interruptions(),
        {
            let ghost done = (buf@.len() - start) as int;
            assert(buf@.skip(start as int) =~= rem.take(done));
            let chunk = match self.fill_buf() {
                Ok(chunk) => chunk,
                Err(IoError::Interrupted) => continue,
                Err(e) => return Err(e),
            };
            let len = chunk.len();
            if len == 0 {
                return Ok(buf.len() - start);
            }
            let mut i: usize = 0;
            let mut stopped = false;
            while i < len
                invariant_except_break
                    !stopped,
                invariant
                    forall|b: u8| predicate.requires((b,)),
                    len == chunk@.len(),
                    i <= len,
                    chunk@ == rem.skip(done).take(len as int),
                    len <= rem.skip(done).len(),
                    0 <= done <= rem.len(),
                    start <= buf@.len(),
                    start == old(buf)@.len(),
                    buf@ == old(buf)@ + rem.take(done) + chunk@.take(i as int),
                    all_match(predicate, buf@.skip(start as int)),
                    stopped ==> i < len && predicate.ensures((chunk@[i as int],), false),
                ensures
                    i <= len,
                    !stopped ==> i == len,
                    stopped ==> i < len && predicate.ensures((chunk@[i as int],), false),
                decreases len - i,
            {
                let b = chunk[i];
                if predicate(b) {
                    let ghost before = buf@;
                    buf.push(b);
                    assert(buf@.skip(start as int) =~= before.skip(start as int).push(b));
                    assert(chunk@.take(i + 1) =~= chunk@.take(i as int).push(b));
                    i = i + 1;
                } else {
                    stopped = true;
                    break;
                }
            }
            proof {
                lemma_take_more(rem, done, i as int);
                assert(chunk@.take(i as int) =~= rem.skip(done).take(i as int));
                assert(buf@ =~= old(buf)@ + rem.take(done + i));
            }
            self.consume(i);
            if stopped {
                assert(rem[done + i] == chunk@[i as int]);
                assert(buf@.skip(start as int) =~= rem.take(done + i));
                return Ok(buf.len() - start);
            }
        }
    }

    fn try_read_until(&mut self, byte: u8, buf: &mut Vec<u8>) -> (r: Result<usize, IoError>) {
        let ghost rem = self.remaining();
        let start = buf.len();
        assert(buf@ =~= old(buf)@ + rem.take(0));
        assert(rem.skip(0) =~= rem);
        loop
            invariant
                start == old(buf)@.len(),
                start <= buf@.len(),
                took_prefix(rem, self.remaining(), old(buf)@, buf@, buf@.len() - start),
                forall|i: int| 0 <= i < buf@.len() - start ==> rem[i] != byte,
                self.infallible() == old(self).infallible(),
                self.shows_all() == old(self).shows_all(),
                rem == old(self).remaining(),
            decreases self.remaining().len(), self.interruptions(),
        {
            let ghost done = (buf@.len() - start) as int;
            let chunk = match self.fill_buf() {
                Ok(chunk) => chunk,
                Err(IoError::Interrupted) => continue,
                Err(e) => {
                    proof {
                        if done < rem.len() {
                            lemma_segment_bound(rem, byte, done);
                        } else {
                            lemma_segment_absent(rem, byte);
                        }
                    }
                    return Err(e);
                },
            };
            let len = chunk.len();
            if len == 0 {
                proof {
                    lemma_segment_absent(rem, byte);
                }
                return Ok(buf.len() - start);
            }
            match find_byte(chunk, 0, byte) {
                Some(j) => {
                    append_range(buf, chunk, 0, j + 1);
                    proof {
                        lemma_take_more(rem, done, j + 1);
                        assert(chunk@.subrange(0, j + 1) =~= rem.skip(done).take(j + 1));
                        assert(buf@ =~= old(buf)@ + rem.take(done + j + 1));
                        assert forall|i: int| 0 <= i < done + j implies rem[i] != byte by {
                            if i >= done {
                                assert(rem[i] == chunk@[i - done]);
                            }
                        }
                        lemma_segment_found(rem, byte, done + j);
                    }
                    self.consume(j + 1);
                    return Ok(buf.len() - start);
                },
                None => {
                    append_range(buf, chunk, 0, len);
                    proof {
                        lemma_take_more(rem, done, len as int);
                        assert(chunk@.subrange(0, len as int) =~= rem.skip(done).take(len as int));
                        assert(buf@ =~= old(buf)@ + rem.take(done + len));
                        assert forall|i: int| 0 <= i < done + len implies rem[i] != byte by {
                            if i >= done {
                                assert(rem[i] == chunk@[i - done]);
                            }
                        }
                    }
                    self.consume(len);
                },
            }
        }
    }

    fn fill_while<P: Fn(u8) -> bool>(&mut self, buf: &mut Vec<u8>, predicate: P) -> (r: Result<
        usize,
        IoError,
    >) {
        let ghost rem = self.remaining();
        let mut scanned: usize = 0;
        assert(buf@ =~= old(buf)@ + rem.take(0));
        loop
            invariant
                forall|b: u8| predicate.requires((b,)),
                self.remaining() == rem,
                scanned <= rem.len(),
                scanned == 0 || self.available() == scanned,
                buf@ == old(buf)@ + rem.take(scanned as int),
                all_match(predicate, rem.take(scanned as int)),
                self.infallible() == old(self).infallible(),
                self.shows_all() == old(self).shows_all(),
                rem == old(self).remaining(),
            decreases rem.len() - scanned, self.interruptions(),
        {
            assert(buf@.skip(old(buf)@.len() as int) =~= rem.take(scanned as int));
            let chunk = match self.fill_buf() {
                Ok(chunk) => chunk,
                Err(IoError::Interrupted) => continue,
                Err(e) => return Err(e),
            };
            let len = chunk.len();
            if len == scanned {
                return Ok(scanned);
            }
            let mut i: usize = scanned;
            let mut stopped = false;
            while i < len
                invariant_except_break
                    !stopped,
                invariant
                    forall|b: u8| predicate.requires((b,)),
                    len == chunk@.len(),
                    scanned <= i <= len,
                    chunk@ == rem.take(len as int),
                    len <= rem.len(),
                    buf@ == old(buf)@ + rem.take(i as int),
                    all_match(predicate, rem.take(i as int)),
                ensures
                    i <= len,
                    !stopped ==> i == len,
                    stopped ==> i < len && predicate.ensures((chunk@[i as int],), false),
                decreases len - i,
            {
                let b = chunk[i];
                if predicate(b) {
                    buf.push(b);
                    assert(rem.take(i + 1) =~= rem.take(i as int).push(b));
                    i = i + 1;
                } else {
                    stopped = true;
                    break;
                }
            }
            if stopped {
                assert(buf@.skip(old(buf)@.len() as int) =~= rem.take(i as int));
                return Ok(i);
            }
            scanned = len;
        }
    }

    fn fill_until(&mut self, byte: u8, buf: &mut Vec<u8>) -> (r: Result<usize, IoError>) {
        let ghost rem = self.remaining();
        let mut scanned: usize = 0;
        assert(buf@ =~= old(buf)@ + rem.take(0));
        loop
            invariant
                self.remaining() == rem,
                scanned <= rem.len(),
                scanned == 0 || self.available() == scanned,
                buf@ == old(buf)@ + rem.take(scanned as int),
                forall|i: int| 0 <= i < scanned ==> rem[i] != byte,
                self.infallible() == old(self).infallible(),
                self.shows_all() == old(self).shows_all(),
                rem == old(self).remaining(),
            decreases rem.len() - scanned, self.interruptions(),
        {
            let chunk = match self.fill_buf() {
                Ok(chunk) => chunk,
                Err(IoError::Interrupted) => continue,
                Err(e) => {
                    proof {
                        if scanned < rem.len() {
                            lemma_segment_bound(rem, byte, scanned as int);
                        } else {
                            lemma_segment_absent(rem, byte);
                        }
                    }
                    return Err(e);
                },
            };
            let len = chunk.len();
            if len == scanned {
                proof {
                    lemma_segment_absent(rem, byte);
                }
                return Ok(scanned);
            }
            match find_byte(chunk, scanned, byte) {
                Some(j) => {
                    append_range(buf, chunk, scanned, j + 1);
                    proof {
                        assert(rem.take(scanned as int) + chunk@.subrange(scanned as int, j + 1)
                            =~= rem.take(j + 1));
                        assert forall|i: int| 0 <= i < j implies rem[i] != byte by {
                            if i >= scanned {
                                assert(rem[i] == chunk@[i]);
                            }
                        }
                        assert(rem[j as int] == chunk@[j as int]);
                        lemma_segment_found(rem, byte, j as int);
                    }
                    return Ok(j + 1);
                },
                None => {
                    append_range(buf, chunk, scanned, len);
                    assert(rem.take(scanned as int) + chunk@.subrange(scanned as int, len as int)
                        =~= rem.take(len as int));
                    assert forall|i: int| 0 <= i < len implies rem[i] != byte by {
                        if i >= scanned {
                            assert(rem[i] == chunk@[i]);
                        }
                    }
                    scanned = len;
                },
            }
        }
    }

    fn fill_exact(&mut self, buf: &mut [u8]) -> (r: Result<(), IoError>) {
        let ghost rem = self.remaining();
        let n = buf.len();
        if n == 0 {
            assert(buf@ =~= rem.take(0));
            return Ok(());
        }
        let mut seen: usize = 0;
        loop
            invariant
                self.remaining() == rem,
                seen <= rem.len(),
                seen < n,
                seen == 0 || self.available() == seen,
                n == buf@.len(),
                n == old(buf)@.len(),
                self.infallible() == old(self).infallible(),
                self.shows_all() == old(self).shows_all(),
                rem == old(self).remaining(),
            decreases rem.len() - seen, self.interruptions(),
        {
            let chunk = match self.fill_buf() {
                Ok(chunk) => chunk,
                Err(IoError::Interrupted) => continue,
                Err(e) => return Err(e),
            };
            let len = chunk.len();
            if len >= n {
                let mut i: usize = 0;
                while i < n
                    invariant
                        n <= len,
                        len == chunk@.len(),
                        chunk@ == rem.take(len as int),
                        len <= rem.len(),
                        n == buf@.len(),
                        n == old(buf)@.len(),
                        i <= n,
                        forall|k: int| 0 <= k < i ==> buf@[k] == rem[k],
                    decreases n - i,
                {
                    buf[i] = chunk[i];
                    i = i + 1;
                }
                assert(buf@ =~= rem.take(n as int));
                return Ok(());
            }
            if len == seen {
                return Err(IoError::UnexpectedEof);
            }
            seen = len;
        }
    }

    fn skip(&mut self, n: usize) -> (r: Result<(), IoError>) {
        let ghost rem = self.remaining();
        let mut done: usize = 0;
        assert(rem.skip(0) =~= rem);
        while done < n
            invariant
                done <= n,
                done <= rem.len(),
                self.remaining() == rem.skip(done as int),
                self.infallible() == old(self).infallible(),
                self.shows_all() == old(self).shows_all(),
                rem == old(self).remaining(),
            decreases n - done, self.interruptions(),
        {
            let len = match self.fill_buf() {
                Ok(chunk) => chunk.len(),
                Err(IoError::Interrupted) => continue,
                Err(e) => return Err(e),
            };
            if len == 0 {
                return Ok(());
            }
            let k = if len <= n - done {
                len
            } else {
                n - done
            };
            proof {
                lemma_take_more(rem, done as int, k as int);
            }
            self.consume(k);
            done = done + k;
        }
        Ok(())
    }

    fn skip_while<P: Fn(u8) -> bool>(&mut self, predicate: P) -> (r: Result<usize, IoError>) {
        let ghost rem = self.remaining();
        let mut done: usize = 0;
        assert(rem.skip(0) =~= rem);
        assert(rem.take(0) =~= Seq::<u8>::empty());
        loop
            invariant
                forall|b: u8| predicate.requires((b,)),
                done <= rem.len(),
                rem.len() <= usize::MAX || !all_match(predicate, rem.take(usize::MAX + 1)),
                self.remaining() == rem.skip(done as int),
                all_match(predicate, rem.take(done as int)),
                self.infallible() == old(self).infallible(),
                self.shows_all() == old(self).shows_all(),
                rem == old(self).remaining(),
            decreases self.remaining().len(), self.interruptions(),
        {
            let chunk = match self.fill_buf() {
                Ok(chunk) => chunk,
                Err(IoError::Interrupted) => continue,
                Err(e) => return Err(e),
            };
            let len = chunk.len();
            if len == 0 {
                return Ok(done);
            }
            let mut i: usize = 0;
            let mut stopped = false;
            while i < len
                invariant_except_break
                    !stopped,
                invariant
                    forall|b: u8| predicate.requires((b,)),
                    len == chunk@.len(),
                    i <= len,
                    chunk@ == rem.skip(done as int).take(len as int),
                    len <= rem.skip(done as int).len(),
                    done <= rem.len(),
                    all_match(predicate, rem.take(done + i)),
                ensures
                    i <= len,
                    !stopped ==> i == len,
                    stopped ==> i < len && predicate.ensures((chunk@[i as int],), false),
                decreases len - i,
            {
                let b = chunk[i];
                if predicate(b) {
                    assert(rem.take(done + i + 1) =~= rem.take(done + i).push(b));
                    i = i + 1;
                } else {
                    stopped = true;
                    break;
                }
            }
            proof {
                lemma_take_more(rem, done as int, i as int);
                if done + i > usize::MAX {
                    lemma_all_match_prefix(predicate, rem, usize::MAX + 1, done + i);
                }
            }
            self.consume(i);
            done = done + i;
            if stopped {
                assert(rem[done as int] == chunk@[i as int]);
                return Ok(done);
            }
        }
    }

    fn skip_until(&mut self, byte: u8) -> (r: Result<usize, IoError>) {
        let ghost rem = self.remaining();
        let mut done: usize = 0;
        assert(rem.skip(0) =~= rem);
        loop
            invariant
                done <= rem.len(),
                segment_len(rem, byte) <= usize::MAX,
                self.remaining() == rem.skip(done as int),
                forall|i: int| 0 <= i < done ==> rem[i] != byte,
                self.infallible() == old(self).infallible(),
                self.shows_all() == old(self).shows_all(),
                rem == old(self).remaining(),
            decreases self.remaining().len(), self.interruptions(),
        {
            let chunk = match self.fill_buf() {
                Ok(chunk) => chunk,
                Err(IoError::Interrupted) => continue,
                Err(e) => {
                    proof {
                        if done < rem.len() {
                            lemma_segment_bound(rem, byte, done as int);
                        } else {
                            lemma_segment_absent(rem, byte);
                        }
                    }
                    return Err(e);
                },
            };
            let len = chunk.len();
            if len == 0 {
                proof {
                    lemma_segment_absent(rem, byte);
                }
                return Ok(done);
            }
            match find_byte(chunk, 0, byte) {
                Some(j) => {
                    proof {
                        lemma_take_more(rem, done as int, j + 1);
                        assert forall|i: int| 0 <= i < done + j implies rem[i] != byte by {
                            if i >= done {
                                assert(rem[i] == chunk@[i - done]);
                            }
                        }
                        lemma_segment_found(rem, byte, done + j);
                    }
                    self.consume(j + 1);
                    return Ok(done + j + 1);
                },
                None => {
                    proof {
                        lemma_take_more(rem, done as int, len as int);
                        assert forall|i: int| 0 <= i < done + len implies rem[i] != byte by {
                            if i >= done {
                                assert(rem[i] == chunk@[i - done]);
                            }
                        }
                    }
                    proof {
                        if done + len < rem.len() {
                            lemma_segment_bound(rem, byte, done + len);
                        } else {
                            lemma_segment_absent(rem, byte);
                        }
                    }
                    self.consume(len);
                    done = done + len;
                },
            }
        }
    }
}

} // verus!
