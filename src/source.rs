//! The byte sources and sinks that the extension traits operate on.
use vstd::prelude::*;

verus! {

/// What a source or sink can report instead of data.
#[derive(Clone, Copy, Debug, PartialEq, Eq, Structural)]
pub enum IoError {
    /// The call made no progress and may simply be repeated.
    Interrupted,
    /// The input ended before the requested number of bytes was available.
    UnexpectedEof,
    /// Any other failure of the underlying transport.
    Other,
}

/// `e` is an error that a call needing `n` of the `len` bytes that a source
/// had remaining may end with: never an interruption; the end of the input
/// only when too few bytes remained; otherwise the failure that the source
/// reported; and only the end of the input from a source that fails only by
/// being interrupted.
pub open spec fn exact_read_error(
    e: IoError,
    len: nat,
    n: nat,
    infallible: bool,
    reported: Option<IoError>,
) -> bool {
    &&& e != IoError::Interrupted
    &&& (e == IoError::UnexpectedEof ==> len < n)
    &&& (e != IoError::UnexpectedEof ==> reported == Some(e))
    &&& (infallible ==> e == IoError::UnexpectedEof)
}

/// `e` is the failure that a source or sink reported, handed on as it came:
/// never an interruption, which is retried instead.
pub open spec fn handed_on(e: IoError, reported: Option<IoError>) -> bool {
    &&& e != IoError::Interrupted
    &&& reported == Some(e)
}

/// What is left of the bytes `ahead` of a write position once `n` bytes
/// were written over them.
pub open spec fn overwritten(ahead: Seq<u8>, n: nat) -> Seq<u8> {
    if n <= ahead.len() {
        ahead.skip(n as int)
    } else {
        Seq::empty()
    }
}

/// A byte source that hands out its bytes by consuming them.
pub trait Source {
    /// Every byte that the source has still to deliver, in order.
    spec fn remaining(&self) -> Seq<u8>;

    /// Holds of a source that fails only by being interrupted, which its
    /// callers retry.
    spec fn infallible(&self) -> bool;

    /// The failure, other than the end of its input, that the source
    /// reported last.
    spec fn reported(&self) -> Option<IoError>;

    /// Fills `buf` completely with the next bytes of the source, consuming
    /// them, or fails with `UnexpectedEof` when too few bytes remain.
    /// Interruptions are retried.
    fn read_exact(&mut self, buf: &mut [u8]) -> (r: Result<(), IoError>)
        ensures
            final(buf)@.len() == old(buf)@.len(),
            final(self).infallible() == old(self).infallible(),
            old(self).infallible() ==> (r is Ok <==> old(buf)@.len() <= old(
                self,
            ).remaining().len()),
            match r {
                Ok(()) => {
                    &&& old(buf)@.len() <= old(self).remaining().len()
                    &&& final(buf)@ == old(self).remaining().take(old(buf)@.len() as int)
                    &&& final(self).remaining() == old(self).remaining().skip(
                        old(buf)@.len() as int,
                    )
                },
                Err(e) => exact_read_error(
                    e,
                    old(self).remaining().len(),
                    old(buf)@.len(),
                    old(self).infallible(),
                    final(self).reported(),
                ),
            },
    ;
}

/// A buffered byte source: its unread bytes can be looked at without
/// consuming them, and consumed separately.
pub trait BufSource: Source {
    /// How many of the remaining bytes are buffered and can be looked at now.
    spec fn available(&self) -> nat;

    /// A bound on how many interruptions the source may still report in a
    /// row, so that retrying them comes to an end.
    spec fn interruptions(&self) -> nat;

    /// Holds of a source whose every fill shows all of its remaining bytes.
    spec fn shows_all(&self) -> bool;

    /// Makes bytes available and returns them without consuming any.
    ///
    /// The result is a prefix of the remaining bytes; it is empty only at the
    /// end of the input. A call made while not everything is buffered shows
    /// more bytes than were available before it.
    fn fill_buf(&mut self) -> (r: Result<&[u8], IoError>)
        ensures
            final(self).remaining() == old(self).remaining(),
            final(self).infallible() == old(self).infallible(),
            final(self).shows_all() == old(self).shows_all(),
            old(self).infallible() ==> (r matches Err(e) ==> e == IoError::Interrupted),
            match r {
                Ok(b) => {
                    &&& b@ == final(self).remaining().take(b@.len() as int)
                    &&& b@.len() == final(self).available()
                    &&& b@.len() <= final(self).remaining().len()
                    &&& (b@.len() == 0 <==> final(self).remaining().len() == 0)
                    &&& old(self).available() <= b@.len()
                    &&& (old(self).available() < old(self).remaining().len() ==> old(
                        self,
                    ).available() < b@.len())
                    &&& (old(self).shows_all() ==> b@ == final(self).remaining())
                },
                Err(e) => {
                    &&& e != IoError::UnexpectedEof
                    &&& final(self).available() == old(self).available()
                    &&& (e == IoError::Interrupted ==> final(self).interruptions() < old(
                        self,
                    ).interruptions())
                    &&& (e != IoError::Interrupted ==> final(self).reported() == Some(e))
                },
            },
    ;

    /// Marks the first `n` buffered bytes as read.
    fn consume(&mut self, n: usize)
        requires
            n <= old(self).available(),
        ensures
            final(self).remaining() == old(self).remaining().skip(n as int),
            final(self).available() == old(self).available() - n,
            final(self).infallible() == old(self).infallible(),
            final(self).shows_all() == old(self).shows_all(),
    ;
}

/// A byte sink that accepts bytes in order.
pub trait Sink {
    /// Every byte that has been written so far, in order.
    spec fn written(&self) -> Seq<u8>;

    /// The bytes after the write position, which later writes overwrite;
    /// empty for a sink that only appends.
    spec fn ahead(&self) -> Seq<u8>;

    /// Holds of a sink that never reports an error.
    spec fn accepts_all(&self) -> bool;

    /// The failure that the sink reported last.
    spec fn refused(&self) -> Option<IoError>;

    /// Writes all of `buf`, or fails.
    fn write_all(&mut self, buf: &[u8]) -> (r: Result<(), IoError>)
        ensures
            final(self).accepts_all() == old(self).accepts_all(),
            old(self).accepts_all() ==> r is Ok,
            match r {
                Ok(()) => {
                    &&& final(self).written() == old(self).written() + buf@
                    &&& final(self).ahead() == overwritten(old(self).ahead(), buf@.len())
                },
                Err(e) => handed_on(e, final(self).refused()),
            },
    ;
}

/// An in-memory byte buffer with a position, which can be read from and
/// written to.
///
/// Reads start at the position and move it forward. Writes overwrite the
/// bytes at the position, grow the buffer past its end, and move the
/// position forward too.
///
/// As a buffered source it shows all of its unread bytes at once, or, when
/// made with a step, that many more on each fill, as a reader with a small
/// buffer does.
pub struct Cursor {
    data: Vec<u8>,
    pos: usize,
    shown: usize,
    step: usize,
}

impl Cursor {
    /// All bytes held, read or not.
    pub closed spec fn contents(&self) -> Seq<u8> {
        self.data@
    }

    /// The index of the next byte to read or to overwrite.
    pub closed spec fn position(&self) -> nat {
        if self.pos <= self.data@.len() {
            self.pos as nat
        } else {
            self.data@.len()
        }
    }

    /// How many unread bytes are buffered and can be looked at.
    pub closed spec fn shown(&self) -> nat {
        if self.shown <= self.data@.len() - self.position() {
            self.shown as nat
        } else {
            (self.data@.len() - self.position()) as nat
        }
    }

    /// How many more bytes each fill shows; zero stands for all of them.
    pub closed spec fn step(&self) -> nat {
        self.step as nat
    }

    /// How many unread bytes are buffered and can be looked at.
    fn shown_now(&self) -> (n: usize)
        ensures
            n == self.shown(),
    {
        let left = self.data.len() - self.start();
        if self.shown <= left {
            self.shown
        } else {
            left
        }
    }

    /// The position never lies past the bytes held.
    pub broadcast proof fn lemma_position_in_bounds(c: &Cursor)
        ensures
            #[trigger] c.position() <= c.contents().len(),
    {
    }

    /// The bytes held are those written before the position followed by
    /// those ahead of it.
    pub proof fn lemma_contents_split(&self)
        ensures
            self.contents() == self.written() + self.ahead(),
            self.ahead() == self.remaining(),
    {
        assert(self.contents() =~= self.written() + self.ahead());
    }

    /// The position, read as the end where it lies past it.
    fn start(&self) -> (p: usize)
        ensures
            p == self.position(),
    {
        if self.pos <= self.data.len() {
            self.pos
        } else {
            self.data.len()
        }
    }

    /// A cursor at the start of `data`, which shows all of it on a fill.
    pub fn new(data: Vec<u8>) -> (c: Cursor)
        ensures
            c.contents() == data@,
            c.position() == 0,
            c.shown() == 0,
            c.step() == 0,
    {
        Cursor { data, pos: 0, shown: 0, step: 0 }
    }

    /// A cursor at the start of `data` that shows `step` more bytes on each
    /// fill; a `step` of zero shows all of them.
    pub fn with_step(data: Vec<u8>, step: usize) -> (c: Cursor)
        ensures
            c.contents() == data@,
            c.position() == 0,
            c.shown() == 0,
            c.step() == step,
    {
        Cursor { data, pos: 0, shown: 0, step }
    }

    /// The index of the next byte to read or to overwrite.
    pub fn get_position(&self) -> (p: usize)
        ensures
            p == self.position(),
    {
        self.start()
    }

    /// Moves to `pos`; a position past the end is taken as the end.
    pub fn set_position(&mut self, pos: usize)
        ensures
            final(self).contents() == old(self).contents(),
            final(self).position() == if pos <= old(self).contents().len() {
                pos as nat
            } else {
                old(self).contents().len()
            },
            final(self).shown() == 0,
            final(self).step() == old(self).step(),
    {
        self.shown = 0;
        if pos <= self.data.len() {
            self.pos = pos;
        } else {
            self.pos = self.data.len();
        }
    }

    /// All bytes held, read or not.
    pub fn get_ref(&self) -> (r: &Vec<u8>)
        ensures
            r@ == self.contents(),
    {
        &self.data
    }

    /// Gives up the cursor and returns its bytes.
    pub fn into_inner(self) -> (r: Vec<u8>)
        ensures
            r@ == self.contents(),
    {
        self.data
    }
}

impl Source for Cursor {
    open spec fn remaining(&self) -> Seq<u8> {
        self.contents().skip(self.position() as int)
    }

    open spec fn infallible(&self) -> bool {
        true
    }

    open spec fn reported(&self) -> Option<IoError> {
        None
    }

    fn read_exact(&mut self, buf: &mut [u8]) -> (r: Result<(), IoError>) {
        let start = self.start();
        let n = buf.len();
        let len = self.data.len();
        if n > len - start {
            return Err(IoError::UnexpectedEof);
        }
        let shown = self.shown_now();
        self.shown = if shown >= n {
            shown - n
        } else {
            0
        };
        let mut i: usize = 0;
        while i < n
            invariant
                self.data@ == old(self).data@,
                start + n <= len,
                len == self.data@.len(),
                n == buf@.len(),
                i <= n,
                forall|j: int| 0 <= j < i ==> buf@[j] == self.data@[start + j],
            decreases n - i,
        {
            buf[i] = self.data[start + i];
            i = i + 1;
        }
        self.pos = start + n;
        assert(buf@ =~= old(self).remaining().take(n as int));
        assert(self.remaining() =~= old(self).remaining().skip(n as int));
        Ok(())
    }
}

impl BufSource for Cursor {
    open spec fn available(&self) -> nat {
        self.shown()
    }

    open spec fn interruptions(&self) -> nat {
        0
    }

    open spec fn shows_all(&self) -> bool {
        self.step() == 0
    }

    fn fill_buf(&mut self) -> (r: Result<&[u8], IoError>) {
        let start = self.start();
        let left = self.data.len() - start;
        let shown = self.shown_now();
        let grown = if self.step == 0 || self.step >= left - shown {
            left
        } else {
            shown + self.step
        };
        self.shown = grown;
        let b = vstd::slice::slice_subrange(self.data.as_slice(), start, start + grown);
        assert(b@ =~= self.remaining().take(b@.len() as int));
        Ok(b)
    }

    fn consume(&mut self, n: usize) {
        let len = self.data.len();
        let shown = self.shown_now();
        self.pos = self.start() + n;
        self.shown = shown - n;
        assert(self.remaining() =~= old(self).remaining().skip(n as int));
    }
}

impl Sink for Cursor {
    /// The bytes before the position: those that writes have put there
    /// when the cursor started at zero.
    open spec fn written(&self) -> Seq<u8> {
        self.contents().take(self.position() as int)
    }

    /// The bytes from the position on.
    open spec fn ahead(&self) -> Seq<u8> {
        self.contents().skip(self.position() as int)
    }

    open spec fn accepts_all(&self) -> bool {
        true
    }

    open spec fn refused(&self) -> Option<IoError> {
        None
    }

    fn write_all(&mut self, buf: &[u8]) -> (r: Result<(), IoError>) {
        self.pos = self.start();
        self.shown = 0;
        let n = buf.len();
        let mut i: usize = 0;
        while i < n
            invariant
                self.pos <= self.data@.len(),
                n == buf@.len(),
                i <= n,
                self.pos == old(self).position() + i,
                self.data@.take(self.pos as int) =~= old(self).written() + buf@.take(i as int),
                self.data@.skip(self.pos as int) =~= overwritten(old(self).ahead(), i as nat),
                self.step == old(self).step,
            decreases n - i,
        {
            let ghost before = self.data@.take(self.pos as int);
            let ghost rest = self.data@.skip(self.pos as int);
            if self.pos < self.data.len() {
                self.data.set(self.pos, buf[i]);
            } else {
                self.data.push(buf[i]);
            }
            assert(self.pos < self.data.len());
            assert(self.data@.take(self.pos + 1) =~= before.push(buf@[i as int]));
            proof {
                let ah = old(self).ahead();
                if i + 1 <= ah.len() {
                    assert(ah.skip(i + 1) =~= ah.skip(i as int).skip(1));
                    assert(self.data@.skip(self.pos + 1) =~= rest.skip(1));
                } else {
                    assert(self.data@.skip(self.pos + 1) =~= Seq::<u8>::empty());
                }
            }
            assert(buf@.take(i + 1) =~= buf@.take(i as int).push(buf@[i as int]));
            self.pos = self.pos + 1;
            i = i + 1;
        }
        assert(buf@.take(n as int) =~= buf@);
        Ok(())
    }
}

/// A vector as a sink: writes append to it.
impl Sink for Vec<u8> {
    open spec fn written(&self) -> Seq<u8> {
        self@
    }

    open spec fn ahead(&self) -> Seq<u8> {
        Seq::empty()
    }

    open spec fn accepts_all(&self) -> bool {
        true
    }

    open spec fn refused(&self) -> Option<IoError> {
        None
    }

    fn write_all(&mut self, buf: &[u8]) -> (r: Result<(), IoError>) {
        let n = buf.len();
        let mut i: usize = 0;
        while i < n
            invariant
                n == buf@.len(),
                i <= n,
                self@ =~= old(self)@ + buf@.take(i as int),
            decreases n - i,
        {
            self.push(buf[i]);
            assert(buf@.take(i + 1) =~= buf@.take(i as int).push(buf@[i as int]));
            i = i + 1;
        }
        assert(buf@.take(n as int) =~= buf@);
        Ok(())
    }
}

} // verus!
