//! The two buffers of a file handle: bytes read ahead from the operating
//! system but not yet handed to the script, and bytes the script wrote that
//! have not yet been handed to the operating system.  Whoever owns the
//! handle does the reading, writing and seeking; these functions say what to
//! hand over, and keep the buffers exclusive: writing gives back the
//! read-ahead (the owner rewinds by that much) and reading first hands over
//! the pending writes, so at most one buffer holds bytes at any time.

use vstd::prelude::*;
use crate::fileio::{FileMode, check_open, check_read, check_write, into_string, lossy_text, without_cr};

verus! {

/// How many bytes one buffer holds at most.
pub const BUFFER_CAPACITY: usize = 65536;

/// The buffers of one handle, with what its mode allows and whether it was
/// closed.
pub struct FileBuffers {
    mode: FileMode,
    closed: bool,
    read_buf: Vec<u8>,
    read_pos: usize,
    write_buf: Vec<u8>,
}

/// A handle's buffers as plain values.
pub struct BuffersView {
    pub readable: bool,
    pub writable: bool,
    pub closed: bool,
    /// Read ahead, not yet handed to the script.
    pub unread: Seq<u8>,
    /// Written by the script, not yet handed to the operating system.
    pub pending: Seq<u8>,
}

impl View for FileBuffers {
    type V = BuffersView;

    closed spec fn view(&self) -> BuffersView {
        BuffersView {
            readable: self.mode.readable,
            writable: self.mode.writable,
            closed: self.closed,
            unread: self.read_buf@.skip(self.read_pos as int),
            pending: self.write_buf@,
        }
    }
}

/// At most one buffer holds bytes, and neither holds more than the capacity.
pub open spec fn buffers_ok(v: BuffersView) -> bool {
    &&& !(v.unread.len() > 0 && v.pending.len() > 0)
    &&& v.unread.len() <= BUFFER_CAPACITY
    &&& v.pending.len() <= BUFFER_CAPACITY
}

/// The position the script sees when the operating system's cursor is at
/// `os`: pending writes count as written, bytes read ahead as not yet read.
pub open spec fn logical_pos(os: int, v: BuffersView) -> int {
    os + v.pending.len() - v.unread.len()
}

/// Where written bytes go: those handed to the operating system now, and
/// those kept pending.  A write as large as the buffer goes out at once
/// behind what was pending; one that would overfill the buffer sends the
/// pending bytes out first and is kept; otherwise it joins the pending
/// bytes.
pub open spec fn write_split(pending: Seq<u8>, bytes: Seq<u8>) -> (Seq<u8>, Seq<u8>) {
    if bytes.len() >= BUFFER_CAPACITY {
        (pending + bytes, Seq::empty())
    } else if pending.len() + bytes.len() > BUFFER_CAPACITY {
        (pending, bytes)
    } else {
        (Seq::empty(), pending + bytes)
    }
}

/// What a write asks of the owner, in order: move the cursor back by
/// `rewind` bytes (the read-ahead given back), then write `to_os`.
pub struct WritePlan {
    pub rewind: usize,
    pub to_os: Vec<u8>,
}

impl FileBuffers {
    pub closed spec fn wf(&self) -> bool {
        &&& self.read_pos <= self.read_buf@.len()
        &&& self.read_buf@.len() <= BUFFER_CAPACITY
        &&& buffers_ok(self@)
    }

    /// Empty buffers for a handle opened with `mode`.
    pub fn new(mode: FileMode) -> (b: FileBuffers)
        ensures
            b.wf(),
            b@ == (BuffersView {
                readable: mode.readable,
                writable: mode.writable,
                closed: false,
                unread: Seq::empty(),
                pending: Seq::empty(),
            }),
    {
        let b = FileBuffers { mode, closed: false, read_buf: Vec::new(), read_pos: 0, write_buf: Vec::new() };
        assert(b@.unread =~= Seq::<u8>::empty());
        b
    }

    pub fn is_closed(&self) -> (r: bool)
        ensures
            r == self@.closed,
    {
        self.closed
    }

    /// How many bytes were read ahead and not yet handed out.
    pub fn unread_len(&self) -> (r: usize)
        requires
            self.wf(),
        ensures
            r == self@.unread.len(),
    {
        self.read_buf.len() - self.read_pos
    }

    /// How many written bytes wait for the operating system.
    pub fn pending_len(&self) -> (r: usize)
        ensures
            r == self@.pending.len(),
    {
        self.write_buf.len()
    }

    /// Refuses any operation once the handle is closed.
    pub fn check_open(&self) -> (r: Result<(), String>)
        ensures
            r is Ok <==> !self@.closed,
            r matches Err(e) ==> e@ == "I/O operation on closed file"@,
    {
        check_open(self.closed)
    }

    /// Refuses a read when closed or not opened for reading (`mode_text` is
    /// the mode as the script wrote it).
    pub fn check_readable(&self, mode_text: &str) -> (r: Result<(), String>)
        ensures
            r is Ok <==> !self@.closed && self@.readable,
            r matches Err(e) ==> e@ == if self@.closed { "I/O operation on closed file"@ } else {
                "file is not open for reading (mode '"@ + mode_text@ + "')"@
            },
    {
        check_read(self.closed, mode_text, self.mode)
    }

    /// Refuses a write when closed or not opened for writing.
    pub fn check_writable(&self, mode_text: &str) -> (r: Result<(), String>)
        ensures
            r is Ok <==> !self@.closed && self@.writable,
            r matches Err(e) ==> e@ == if self@.closed { "I/O operation on closed file"@ } else {
                "file is not open for writing (mode '"@ + mode_text@ + "')"@
            },
    {
        check_write(self.closed, mode_text, self.mode)
    }

    /// Hands over the pending writes, which the owner writes out; the
    /// position the script sees does not move.
    pub fn take_pending(&mut self) -> (r: Vec<u8>)
        requires
            old(self).wf(),
        ensures
            final(self).wf(),
            r@ == old(self)@.pending,
            final(self)@ == (BuffersView { pending: Seq::empty(), ..old(self)@ }),
            forall|os: int| logical_pos(os + r@.len(), final(self)@) == logical_pos(os, old(self)@),
    {
        let mut out: Vec<u8> = Vec::new();
        std::mem::swap(&mut out, &mut self.write_buf);
        assert(self@.pending =~= Seq::<u8>::empty());
        out
    }

    /// Gives back the read-ahead: the owner moves the cursor back by the
    /// returned count; the position the script sees does not move.
    pub fn release_read_ahead(&mut self) -> (r: usize)
        requires
            old(self).wf(),
        ensures
            final(self).wf(),
            r == old(self)@.unread.len(),
            final(self)@ == (BuffersView { unread: Seq::empty(), ..old(self)@ }),
            forall|os: int| logical_pos(os - r, final(self)@) == logical_pos(os, old(self)@),
    {
        let r = self.read_buf.len() - self.read_pos;
        self.read_buf = Vec::new();
        self.read_pos = 0;
        assert(self@.unread =~= Seq::<u8>::empty());
        r
    }

    /// A write of `bytes`: the read-ahead is given back and the bytes are
    /// split as [`write_split`] says.  Nothing is lost or reordered: what
    /// goes out now followed by what stays pending is what was pending
    /// followed by `bytes`, and the position the script sees moves on by
    /// the length of `bytes`.
    pub fn plan_write(&mut self, bytes: &[u8]) -> (r: WritePlan)
        requires
            old(self).wf(),
        ensures
            final(self).wf(),
            r.rewind == old(self)@.unread.len(),
            r.to_os@ == write_split(old(self)@.pending, bytes@).0,
            final(self)@ == (BuffersView {
                unread: Seq::empty(),
                pending: write_split(old(self)@.pending, bytes@).1,
                ..old(self)@
            }),
            r.to_os@ + final(self)@.pending == old(self)@.pending + bytes@,
            forall|os: int| logical_pos(os - r.rewind + r.to_os@.len(), final(self)@) == logical_pos(os, old(self)@) + bytes@.len(),
    {
        let ghost old_pending = self@.pending;
        let rewind = self.release_read_ahead();
        let n = bytes.len();
        let mut to_os: Vec<u8> = Vec::new();
        if n >= BUFFER_CAPACITY {
            std::mem::swap(&mut to_os, &mut self.write_buf);
            append_bytes(&mut to_os, bytes);
        } else if self.write_buf.len() + n > BUFFER_CAPACITY {
            std::mem::swap(&mut to_os, &mut self.write_buf);
            append_bytes(&mut self.write_buf, bytes);
        } else {
            append_bytes(&mut self.write_buf, bytes);
        }
        assert(self@.unread =~= Seq::<u8>::empty());
        proof {
            let (a, b) = write_split(old_pending, bytes@);
            assert(a + b =~= old_pending + bytes@);
        }
        WritePlan { rewind, to_os }
    }

    /// Whether the read-ahead is used up, so that a read must first fill it.
    pub fn needs_fill(&self) -> (r: bool)
        requires
            self.wf(),
        ensures
            r == (self@.unread.len() == 0),
    {
        self.read_pos >= self.read_buf.len()
    }

    /// The bytes the operating system gave (at most a buffer's worth) become
    /// the read-ahead.  The pending writes were handed over first; the
    /// position the script sees does not move.
    pub fn refill(&mut self, data: Vec<u8>)
        requires
            old(self).wf(),
            old(self)@.unread.len() == 0,
            old(self)@.pending.len() == 0,
            data@.len() <= BUFFER_CAPACITY,
        ensures
            final(self).wf(),
            final(self)@ == (BuffersView { unread: data@, ..old(self)@ }),
            forall|os: int| logical_pos(os + data@.len(), final(self)@) == logical_pos(os, old(self)@),
    {
        self.read_buf = data;
        self.read_pos = 0;
        assert(self@.unread =~= data@);
    }

    /// Hands out up to `count` read-ahead bytes, in order; the position the
    /// script sees moves on by as many.
    pub fn take(&mut self, count: usize) -> (r: Vec<u8>)
        requires
            old(self).wf(),
        ensures
            final(self).wf(),
            r@.len() == (if count < old(self)@.unread.len() { count as int } else { old(self)@.unread.len() as int }),
            r@ + final(self)@.unread == old(self)@.unread,
            final(self)@ == (BuffersView { unread: old(self)@.unread.skip(r@.len() as int), ..old(self)@ }),
            forall|os: int| logical_pos(os, final(self)@) == logical_pos(os, old(self)@) + r@.len(),
    {
        let avail = self.read_buf.len() - self.read_pos;
        let k = if count < avail { count } else { avail };
        let mut out: Vec<u8> = Vec::new();
        let mut i: usize = 0;
        let ghost u = self@.unread;
        while i < k
            invariant
                i <= k,
                k <= avail,
                avail == self.read_buf@.len() - self.read_pos,
                self.read_pos <= self.read_buf@.len(),
                self.read_buf@.len() <= BUFFER_CAPACITY,
                u == self.read_buf@.skip(self.read_pos as int),
                out@ == u.take(i as int),
            decreases k - i,
        {
            out.push(self.read_buf[self.read_pos + i]);
            i = i + 1;
            assert(out@ =~= u.take(i as int));
        }
        self.read_pos = self.read_pos + k;
        assert(self@.unread =~= u.skip(k as int));
        assert(out@ + self@.unread =~= u);
        out
    }

    /// Hands out the read-ahead up to the first line break, which is used
    /// up but not handed out, and tells whether one was found; without one,
    /// all of the read-ahead is handed out.
    pub fn take_line_part(&mut self) -> (r: (Vec<u8>, bool))
        requires
            old(self).wf(),
        ensures
            final(self).wf(),
            match crate::fileio::first_newline(old(self)@.unread) {
                Some(i) => r.1 && r.0@ == old(self)@.unread.take(i)
                    && final(self)@ == (BuffersView { unread: old(self)@.unread.skip(i + 1), ..old(self)@ }),
                None => !r.1 && r.0@ == old(self)@.unread
                    && final(self)@ == (BuffersView { unread: Seq::empty(), ..old(self)@ }),
            },
    {
        let ghost u = self@.unread;
        let mut out: Vec<u8> = Vec::new();
        let mut i: usize = self.read_pos;
        while i < self.read_buf.len() && self.read_buf[i] != 10u8
            invariant
                self.read_pos <= i <= self.read_buf@.len(),
                u == self.read_buf@.skip(self.read_pos as int),
                out@ == u.take(i - self.read_pos),
                crate::fileio::first_newline(u.take(i - self.read_pos)) is None,
            decreases self.read_buf@.len() - i,
        {
            out.push(self.read_buf[i]);
            i = i + 1;
            assert(out@ =~= u.take(i - self.read_pos));
            assert(u.take(i - self.read_pos).drop_last() =~= u.take(i - 1 - self.read_pos));
        }
        let ghost j: int = i - self.read_pos;
        if i < self.read_buf.len() {
            proof {
                assert(u[j] == self.read_buf@[i as int]);
                assert(u.take(j + 1).drop_last() =~= u.take(j));
                crate::fileio::lemma_first_newline_prefix(u, j + 1);
            }
            self.read_pos = i + 1;
            assert(self@.unread =~= u.skip(j + 1));
            (out, true)
        } else {
            proof {
                assert(u.take(j) =~= u);
            }
            self.read_buf = Vec::new();
            self.read_pos = 0;
            assert(self@.unread =~= Seq::<u8>::empty());
            (out, false)
        }
    }

    /// Closing: the pending writes are handed over, which the owner writes
    /// out, and the handle is marked closed; `None` when it already was.
    pub fn close(&mut self) -> (r: Option<Vec<u8>>)
        requires
            old(self).wf(),
        ensures
            final(self).wf(),
            old(self)@.closed ==> r is None && final(self)@ == old(self)@,
            !old(self)@.closed ==> (r matches Some(w) && w@ == old(self)@.pending
                && final(self)@ == (BuffersView { closed: true, pending: Seq::empty(), ..old(self)@ })),
    {
        if self.closed {
            return None;
        }
        let w = self.take_pending();
        self.closed = true;
        Some(w)
    }
}

/// A line gathered by `readline` as text: one carriage return before its
/// break dropped.
pub fn finish_line(bytes: Vec<u8>) -> (s: String)
    ensures
        s@ == lossy_text(without_cr(bytes@)),
{
    let mut b = bytes;
    if b.len() > 0 && b[b.len() - 1] == 13u8 {
        b.pop();
    }
    into_string(b)
}

fn append_bytes(out: &mut Vec<u8>, bytes: &[u8])
    ensures
        final(out)@ == old(out)@ + bytes@,
{
    let mut i: usize = 0;
    let ghost start = out@;
    while i < bytes.len()
        invariant
            i <= bytes@.len(),
            out@ == start + bytes@.take(i as int),
        decreases bytes@.len() - i,
    {
        out.push(bytes[i]);
        i = i + 1;
        assert(out@ =~= start + bytes@.take(i as int));
    }
    assert(bytes@.take(bytes@.len() as int) =~= bytes@);
}

} // verus!
