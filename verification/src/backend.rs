//! The I/O backend abstraction: one cursor contract, two interchangeable
//! strategies.
//!
//! A [`Backend`] exposes sequential consume, skip, and absolute seek over
//! an immutable byte content. [`MappedBackend`] addresses the whole
//! content directly, so its operations are pure offset arithmetic.
//! [`BufferedBackend`] serves reads from an internal read-ahead window and
//! refills it when a read does not fit. Both refine the same contract, so
//! parsing and extraction are written once and behave identically over
//! either.
use vstd::prelude::*;

use vstd::slice::slice_subrange;
use vstd::slice::slice_to_vec;

verus! {

/// The cursor contract every I/O backend refines: an immutable byte
/// content `data()`, a position `pos()` within it, and the three moves
/// the parser and the extraction engine need.
pub trait Backend: Sized {
    /// The whole underlying byte content. It never changes.
    spec fn data(&self) -> Seq<u8>;

    /// The current read position.
    spec fn pos(&self) -> int;

    /// The backend's internal well-formedness.
    spec fn inv(&self) -> bool;

    /// The position stays within the content, whose length fits a `usize`.
    proof fn lemma_inv_bounds(&self)
        requires
            self.inv(),
        ensures
            0 <= self.pos() <= self.data().len(),
            self.data().len() <= usize::MAX,
    ;

    /// Consumes the next `n` bytes: returns exactly the content bytes at
    /// `[pos, pos + n)` and advances past them, or returns `None` without
    /// moving when fewer than `n` bytes remain.
    fn read(&mut self, n: u64) -> (r: Option<Vec<u8>>)
        requires
            old(self).inv(),
        ensures
            final(self).inv(),
            final(self).data() == old(self).data(),
            match r {
                Some(v) => {
                    &&& old(self).pos() + n <= old(self).data().len()
                    &&& v@ == old(self).data().subrange(old(self).pos(), old(self).pos() + n)
                    &&& final(self).pos() == old(self).pos() + n
                },
                None => {
                    &&& old(self).pos() + n > old(self).data().len()
                    &&& final(self).pos() == old(self).pos()
                },
            },
    ;

    /// Advances past `n` bytes without reading them, or returns `false`
    /// without moving when fewer than `n` bytes remain.
    fn skip(&mut self, n: u64) -> (ok: bool)
        requires
            old(self).inv(),
        ensures
            final(self).inv(),
            final(self).data() == old(self).data(),
            ok ==> old(self).pos() + n <= old(self).data().len() && final(self).pos() == old(
                self,
            ).pos() + n,
            !ok ==> old(self).pos() + n > old(self).data().len() && final(self).pos() == old(
                self,
            ).pos(),
    ;

    /// Jumps to the absolute byte position `to`, or returns `false`
    /// without moving when `to` lies past the end of the content.
    fn seek(&mut self, to: u64) -> (ok: bool)
        requires
            old(self).inv(),
        ensures
            final(self).inv(),
            final(self).data() == old(self).data(),
            ok ==> to <= old(self).data().len() && final(self).pos() == to,
            !ok ==> to > old(self).data().len() && final(self).pos() == old(self).pos(),
    ;
}

/// The memory-mapped strategy: the whole content is one contiguous
/// addressable region, so consume, skip and seek are offset arithmetic
/// and never trigger a refill.
#[derive(Debug)]
pub struct MappedBackend {
    bytes: Vec<u8>,
    offset: usize,
}

impl MappedBackend {
    /// A cursor at position zero over the given content.
    pub fn new(bytes: Vec<u8>) -> (c: Self)
        ensures
            c.inv(),
            c.data() == bytes@,
            c.pos() == 0,
    {
        MappedBackend { bytes, offset: 0 }
    }
}

impl Backend for MappedBackend {
    closed spec fn data(&self) -> Seq<u8> {
        self.bytes@
    }

    closed spec fn pos(&self) -> int {
        self.offset as int
    }

    closed spec fn inv(&self) -> bool {
        self.offset <= self.bytes.len()
    }

    proof fn lemma_inv_bounds(&self) {
    }

    fn read(&mut self, n: u64) -> (r: Option<Vec<u8>>) {
        let remain: usize = self.bytes.len() - self.offset;
        if n > remain as u64 {
            None
        } else {
            let take: usize = n as usize;
            let part = slice_subrange(self.bytes.as_slice(), self.offset, self.offset + take);
            let out = slice_to_vec(part);
            self.offset = self.offset + take;
            Some(out)
        }
    }

    fn skip(&mut self, n: u64) -> (ok: bool) {
        let remain: usize = self.bytes.len() - self.offset;
        if n > remain as u64 {
            false
        } else {
            self.offset = self.offset + n as usize;
            true
        }
    }

    fn seek(&mut self, to: u64) -> (ok: bool) {
        if to > self.bytes.len() as u64 {
            false
        } else {
            self.offset = to as usize;
            true
        }
    }
}

/// How many bytes a [`BufferedBackend`] refill reads ahead at least.
pub const READ_AHEAD: usize = 8192;

/// The buffered-stream strategy: reads are served from an internal
/// read-ahead window into the content, and a read that does not fit the
/// window forces a refill starting at the current position. Seeking
/// inside the window is free; seeking elsewhere discards it.
#[derive(Debug)]
pub struct BufferedBackend {
    src: Vec<u8>,
    window: Vec<u8>,
    window_start: usize,
    window_pos: usize,
}

impl BufferedBackend {
    /// A cursor at position zero over the given content, with an empty
    /// window.
    pub fn new(src: Vec<u8>) -> (c: Self)
        ensures
            c.inv(),
            c.data() == src@,
            c.pos() == 0,
    {
        let c = BufferedBackend { src, window: Vec::new(), window_start: 0, window_pos: 0 };
        proof {
            assert(c.window@ =~= c.src@.subrange(0, 0));
        }
        c
    }

    /// Refills the window to cover `[at, at + need)` (and up to
    /// [`READ_AHEAD`] bytes beyond it) and leaves the position at `at`.
    fn refill(&mut self, at: usize, need: usize)
        requires
            old(self).inv(),
            at + need <= old(self).data().len(),
        ensures
            final(self).inv(),
            final(self).data() == old(self).data(),
            final(self).pos() == at,
            final(self).window_pos == 0,
            final(self).window_start == at,
            need <= final(self).window.len(),
    {
        let remain: usize = self.src.len() - at;
        let mut take: usize = if need > READ_AHEAD {
            need
        } else {
            READ_AHEAD
        };
        if take > remain {
            take = remain;
        }
        let part = slice_subrange(self.src.as_slice(), at, at + take);
        self.window = slice_to_vec(part);
        self.window_start = at;
        self.window_pos = 0;
    }
}

impl Backend for BufferedBackend {
    closed spec fn data(&self) -> Seq<u8> {
        self.src@
    }

    closed spec fn pos(&self) -> int {
        self.window_start + self.window_pos
    }

    closed spec fn inv(&self) -> bool {
        &&& self.window_start + self.window.len() <= self.src.len()
        &&& self.window_pos <= self.window.len()
        &&& self.window@ == self.src@.subrange(
            self.window_start as int,
            self.window_start + self.window.len(),
        )
    }

    proof fn lemma_inv_bounds(&self) {
    }

    fn read(&mut self, n: u64) -> (r: Option<Vec<u8>>) {
        let ghost data = self.src@;
        let ghost p = self.pos();
        let avail: usize = self.window.len() - self.window_pos;
        if n <= avail as u64 {
            let take: usize = n as usize;
            let part = slice_subrange(
                self.window.as_slice(),
                self.window_pos,
                self.window_pos + take,
            );
            let out = slice_to_vec(part);
            self.window_pos = self.window_pos + take;
            proof {
                assert(out@ =~= data.subrange(p, p + n));
            }
            Some(out)
        } else {
            let at: usize = self.window_start + self.window_pos;
            let remain: usize = self.src.len() - at;
            if n > remain as u64 {
                return None;
            }
            let take: usize = n as usize;
            self.refill(at, take);
            let part = slice_subrange(self.window.as_slice(), 0, take);
            let out = slice_to_vec(part);
            self.window_pos = take;
            proof {
                assert(out@ =~= data.subrange(p, p + n));
            }
            Some(out)
        }
    }

    fn skip(&mut self, n: u64) -> (ok: bool) {
        let avail: usize = self.window.len() - self.window_pos;
        if n <= avail as u64 {
            self.window_pos = self.window_pos + n as usize;
            true
        } else {
            let at: usize = self.window_start + self.window_pos;
            let remain: usize = self.src.len() - at;
            if n > remain as u64 {
                return false;
            }
            self.window = Vec::new();
            self.window_start = at + n as usize;
            self.window_pos = 0;
            proof {
                assert(self.window@ =~= self.src@.subrange(
                    self.window_start as int,
                    self.window_start as int,
                ));
            }
            true
        }
    }

    fn seek(&mut self, to: u64) -> (ok: bool) {
        if to > self.src.len() as u64 {
            return false;
        }
        let to_us: usize = to as usize;
        if self.window_start <= to_us && to_us - self.window_start <= self.window.len() {
            self.window_pos = to_us - self.window_start;
        } else {
            self.window = Vec::new();
            self.window_start = to_us;
            self.window_pos = 0;
            proof {
                assert(self.window@ =~= self.src@.subrange(to as int, to as int));
            }
        }
        true
    }
}

} // verus!
