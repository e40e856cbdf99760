//! The decisions behind file handles: what an `open` mode string allows,
//! how read bytes become text, and which part of a mapped file a chunk
//! covers.  Opening, reading and mapping files is left to the caller.

use vstd::prelude::*;
use crate::text::{append_str, append_chars, chars_is, chars_of, string_from_chars};

verus! {

/// What a mode string asks of the file: whether the script may read and
/// write it, and how it is opened (the `OpenOptions` flags set besides
/// `read`).
#[derive(Clone, Copy, Debug, PartialEq, Eq, Structural)]
pub struct FileMode {
    pub readable: bool,
    pub writable: bool,
    pub write: bool,
    pub append: bool,
    pub create: bool,
    pub truncate: bool,
    pub create_new: bool,
}

/// The mode with its binary/text letters (`b`, `t`) dropped: text is read
/// either way.
pub open spec fn without_flags(m: Seq<char>) -> Seq<char>
    decreases m.len(),
{
    if m.len() == 0 {
        m
    } else {
        let rest = without_flags(m.drop_last());
        if m.last() == 'b' || m.last() == 't' { rest } else { rest.push(m.last()) }
    }
}

pub open spec fn file_mode(readable: bool, writable: bool, write: bool, append: bool, create: bool, truncate: bool, create_new: bool) -> FileMode {
    FileMode { readable, writable, write, append, create, truncate, create_new }
}

/// What `open(path, mode)` makes of `mode`: `r` reads, `w` truncates or
/// creates, `a` appends, `x` creates a new file, `+` adds the other
/// direction; anything else is refused, quoting the mode without its flags.
pub open spec fn mode_spec(m: Seq<char>) -> Result<FileMode, Seq<char>> {
    let n = without_flags(m);
    if n == ""@ || n == "r"@ {
        Ok(file_mode(true, false, false, false, false, false, false))
    } else if n == "r+"@ || n == "+r"@ {
        Ok(file_mode(true, true, true, false, false, false, false))
    } else if n == "w"@ {
        Ok(file_mode(false, true, true, false, true, true, false))
    } else if n == "w+"@ || n == "+w"@ {
        Ok(file_mode(true, true, true, false, true, true, false))
    } else if n == "a"@ {
        Ok(file_mode(false, true, false, true, true, false, false))
    } else if n == "a+"@ || n == "+a"@ {
        Ok(file_mode(true, true, false, true, true, false, false))
    } else if n == "x"@ {
        Ok(file_mode(false, true, true, false, false, false, true))
    } else if n == "x+"@ || n == "+x"@ {
        Ok(file_mode(true, true, true, false, false, false, true))
    } else {
        Err("invalid file mode '"@ + n + "'"@)
    }
}

/// What a mode's letters ask for, whatever their order: `w` truncates and
/// creates, `a` appends and creates, `x` creates a new file; any of `w`,
/// `a`, `x` or `+` allows writing, and `r`, `+` or no letter at all allows
/// reading; writes go through the write flag unless they append.
pub proof fn lemma_mode_letters(m: Seq<char>)
    ensures
        mode_spec(m) matches Ok(f) ==> {
            let n = without_flags(m);
            &&& f.truncate == n.contains('w')
            &&& f.create == (n.contains('w') || n.contains('a'))
            &&& f.append == n.contains('a')
            &&& f.create_new == n.contains('x')
            &&& f.writable == (n.contains('w') || n.contains('a') || n.contains('x') || n.contains('+'))
            &&& f.readable == (n.len() == 0 || n.contains('r') || n.contains('+'))
            &&& f.write == (f.writable && !f.append)
        },
{
    let n = without_flags(m);
    reveal_strlit("");
    reveal_strlit("r");
    reveal_strlit("r+");
    reveal_strlit("+r");
    reveal_strlit("w");
    reveal_strlit("w+");
    reveal_strlit("+w");
    reveal_strlit("a");
    reveal_strlit("a+");
    reveal_strlit("+a");
    reveal_strlit("x");
    reveal_strlit("x+");
    reveal_strlit("+x");
    if mode_spec(m) is Ok {
        if n.len() == 1 {
            assert(n.contains(n[0]));
        } else if n.len() == 2 {
            assert(n.contains(n[0]));
            assert(n.contains(n[1]));
        }
    }
}

/// Reads an `open` mode string, or gives the error for one it refuses.
pub fn options_for_mode(mode: &str) -> (r: Result<FileMode, String>)
    ensures
        match r {
            Ok(f) => mode_spec(mode@) == Ok::<FileMode, Seq<char>>(f),
            Err(e) => mode_spec(mode@) == Err::<FileMode, Seq<char>>(e@),
        },
{
    let chars = chars_of(mode);
    let mut n: Vec<char> = Vec::new();
    let mut i: usize = 0;
    while i < chars.len()
        invariant
            chars@ == mode@,
            i <= chars@.len(),
            n@ == without_flags(chars@.take(i as int)),
        decreases chars@.len() - i,
    {
        let c = chars[i];
        if c != 'b' && c != 't' {
            n.push(c);
        }
        i = i + 1;
        assert(chars@.take(i as int).drop_last() =~= chars@.take(i - 1));
    }
    assert(chars@.take(chars@.len() as int) =~= chars@);
    let s = n.as_slice();
    if chars_is(s, "") || chars_is(s, "r") {
        Ok(FileMode { readable: true, writable: false, write: false, append: false, create: false, truncate: false, create_new: false })
    } else if chars_is(s, "r+") || chars_is(s, "+r") {
        Ok(FileMode { readable: true, writable: true, write: true, append: false, create: false, truncate: false, create_new: false })
    } else if chars_is(s, "w") {
        Ok(FileMode { readable: false, writable: true, write: true, append: false, create: true, truncate: true, create_new: false })
    } else if chars_is(s, "w+") || chars_is(s, "+w") {
        Ok(FileMode { readable: true, writable: true, write: true, append: false, create: true, truncate: true, create_new: false })
    } else if chars_is(s, "a") {
        Ok(FileMode { readable: false, writable: true, write: false, append: true, create: true, truncate: false, create_new: false })
    } else if chars_is(s, "a+") || chars_is(s, "+a") {
        Ok(FileMode { readable: true, writable: true, write: false, append: true, create: true, truncate: false, create_new: false })
    } else if chars_is(s, "x") {
        Ok(FileMode { readable: false, writable: true, write: true, append: false, create: false, truncate: false, create_new: true })
    } else if chars_is(s, "x+") || chars_is(s, "+x") {
        Ok(FileMode { readable: true, writable: true, write: true, append: false, create: false, truncate: false, create_new: true })
    } else {
        let mut msg = chars_of("invalid file mode '");
        append_chars(&mut msg, &n);
        append_str(&mut msg, "'");
        Err(string_from_chars(msg))
    }
}

// ---------------------------------------------------------------------------
// Bytes to text

/// What `String::from_utf8_lossy` makes of `bytes`: their text, each
/// invalid sequence replaced by U+FFFD.
pub uninterp spec fn lossy_text(bytes: Seq<u8>) -> Seq<char>;

/// `String::from_utf8`: for valid UTF-8 (as vstd's `valid_utf8` defines
/// it) the characters the bytes encode, which the documentation of
/// `from_utf8_lossy` gives as the same text the lossy reading gives; `None`
/// for any other bytes.
#[verifier::external_body]
fn string_from_utf8(bytes: Vec<u8>) -> (r: Option<String>)
    ensures
        match r {
            Some(s) => vstd::utf8::valid_utf8(bytes@) && s@ == vstd::utf8::decode_utf8(bytes@)
                && s@ == lossy_text(bytes@),
            None => !vstd::utf8::valid_utf8(bytes@),
        },
{
    match String::from_utf8(bytes) {
        Ok(s) => Some(s),
        Err(_) => None,
    }
}

/// `String::from_utf8_lossy`, owned: the contract claims only that the text
/// is `lossy_text(bytes)`, a name for what the standard library decodes.
#[verifier::external_body]
fn utf8_lossy(bytes: &[u8]) -> (s: String)
    ensures
        s@ == lossy_text(bytes@),
{
    String::from_utf8_lossy(bytes).into_owned()
}

/// Bytes read from a file as text: exact when they are valid UTF-8, with
/// replacement characters otherwise.
pub fn into_string(bytes: Vec<u8>) -> (s: String)
    ensures
        s@ == lossy_text(bytes@),
        vstd::utf8::valid_utf8(bytes@) ==> s@ == vstd::utf8::decode_utf8(bytes@),
{
    let copy = bytes.clone();
    proof {
        assert(copy@ =~= bytes@);
    }
    match string_from_utf8(bytes) {
        Some(s) => s,
        None => utf8_lossy(copy.as_slice()),
    }
}

/// The bytes `[offset, offset + size)` of a mapping of `len` bytes, cut at
/// its end; empty from an offset at or past the end.
pub open spec fn chunk_range(len: nat, offset: nat, size: nat) -> (int, int) {
    if offset >= len {
        (0, 0)
    } else {
        (offset as int, if offset + size < len { (offset + size) as int } else { len as int })
    }
}

/// `read_chunk(offset, size)` on the bytes of a mapped file: the text of the
/// bytes in `chunk_range`.
pub fn chunk(bytes: &[u8], offset: usize, size: usize) -> (s: String)
    ensures
        offset >= bytes@.len() ==> s@ == Seq::<char>::empty(),
        offset < bytes@.len() ==> s@ == lossy_text(bytes@.subrange(
            chunk_range(bytes@.len(), offset as nat, size as nat).0,
            chunk_range(bytes@.len(), offset as nat, size as nat).1,
        )),
{
    if offset >= bytes.len() {
        return String::new();
    }
    let end: usize = if size < bytes.len() - offset { offset + size } else { bytes.len() };
    let mut part: Vec<u8> = Vec::new();
    let mut i: usize = offset;
    while i < end
        invariant
            offset <= i <= end <= bytes@.len(),
            part@ == bytes@.subrange(offset as int, i as int),
        decreases end - i,
    {
        part.push(bytes[i]);
        i = i + 1;
        assert(part@ =~= bytes@.subrange(offset as int, i as int));
    }
    utf8_lossy(part.as_slice())
}

// ---------------------------------------------------------------------------
// Buffered handles

/// Refuses an operation on a closed handle.
pub fn check_open(closed: bool) -> (r: Result<(), String>)
    ensures
        r is Ok <==> !closed,
        r matches Err(e) ==> e@ == "I/O operation on closed file"@,
{
    if closed {
        return Err(crate::text::to_string("I/O operation on closed file"));
    }
    Ok(())
}

/// What a read on a handle opened with `mode` (written `mode_text`) is
/// answered: refused when closed or not opened for reading.
pub fn check_read(closed: bool, mode_text: &str, m: FileMode) -> (r: Result<(), String>)
    ensures
        r is Ok <==> !closed && m.readable,
        r matches Err(e) ==> e@ == if closed { "I/O operation on closed file"@ } else {
            "file is not open for reading (mode '"@ + mode_text@ + "')"@
        },
{
    check_open(closed)?;
    if !m.readable {
        let mut msg = chars_of("file is not open for reading (mode '");
        append_str(&mut msg, mode_text);
        append_str(&mut msg, "')");
        return Err(string_from_chars(msg));
    }
    Ok(())
}

/// What a write on a handle opened with `mode` (written `mode_text`) is
/// answered: refused when closed or not opened for writing.
pub fn check_write(closed: bool, mode_text: &str, m: FileMode) -> (r: Result<(), String>)
    ensures
        r is Ok <==> !closed && m.writable,
        r matches Err(e) ==> e@ == if closed { "I/O operation on closed file"@ } else {
            "file is not open for writing (mode '"@ + mode_text@ + "')"@
        },
{
    check_open(closed)?;
    if !m.writable {
        let mut msg = chars_of("file is not open for writing (mode '");
        append_str(&mut msg, mode_text);
        append_str(&mut msg, "')");
        return Err(string_from_chars(msg));
    }
    Ok(())
}

/// The first line break in `b`, if any.
pub open spec fn first_newline(b: Seq<u8>) -> Option<int>
    decreases b.len(),
{
    if b.len() == 0 {
        None
    } else {
        match first_newline(b.drop_last()) {
            Some(i) => Some(i),
            None => if b.last() == 10u8 { Some(b.len() - 1) } else { None },
        }
    }
}

/// `b` without one trailing carriage return.
pub open spec fn without_cr(b: Seq<u8>) -> Seq<u8> {
    if b.len() > 0 && b.last() == 13u8 { b.drop_last() } else { b }
}

/// The next step of `readline` over the bytes not yet handed out.
#[derive(Debug, PartialEq)]
pub enum LineStep {
    /// A line (its break and a `\r` before it removed) using `used` bytes.
    Line { text: String, used: usize },
    /// No line break yet and more bytes may come: read more first.
    NeedMore,
    /// Nothing is left: the file is exhausted.
    End,
}

/// Decides what `readline` gives from the unread bytes `buf`, `at_eof`
/// telling whether no more bytes will come: the text up to the first line
/// break (which is used up too), else more reading, else the remaining
/// bytes as a last line, else the end.
pub fn next_line(buf: &[u8], at_eof: bool) -> (r: LineStep)
    ensures
        match first_newline(buf@) {
            Some(i) => r matches LineStep::Line { text, used } && used == i + 1
                && text@ == lossy_text(without_cr(buf@.take(i))),
            None => if !at_eof {
                r is NeedMore
            } else if buf@.len() == 0 {
                r is End
            } else {
                r matches LineStep::Line { text, used } && used == buf@.len()
                    && text@ == lossy_text(without_cr(buf@))
            },
        },
{
    let mut i: usize = 0;
    while i < buf.len() && buf[i] != 10u8
        invariant
            i <= buf@.len(),
            first_newline(buf@.take(i as int)) is None,
        decreases buf@.len() - i,
    {
        assert(buf@.take(i + 1).drop_last() =~= buf@.take(i as int));
        i = i + 1;
    }
    proof {
        if i < buf.len() {
            assert(buf@.take(i + 1).drop_last() =~= buf@.take(i as int));
            lemma_first_newline_prefix(buf@, i + 1);
        } else {
            assert(buf@.take(i as int) =~= buf@);
        }
    }
    if i < buf.len() {
        let mut line: Vec<u8> = Vec::new();
        let mut k: usize = 0;
        while k < i
            invariant
                k <= i < buf@.len(),
                line@ == buf@.take(k as int),
            decreases i - k,
        {
            line.push(buf[k]);
            k = k + 1;
            assert(line@ =~= buf@.take(k as int));
        }
        if line.len() > 0 && line[line.len() - 1] == 13u8 {
            line.pop();
        }
        return LineStep::Line { text: into_string(line), used: i + 1 };
    }
    if !at_eof {
        return LineStep::NeedMore;
    }
    if buf.len() == 0 {
        return LineStep::End;
    }
    let mut line: Vec<u8> = Vec::new();
    let mut k: usize = 0;
    while k < buf.len()
        invariant
            k <= buf@.len(),
            line@ == buf@.take(k as int),
        decreases buf@.len() - k,
    {
        line.push(buf[k]);
        k = k + 1;
        assert(line@ =~= buf@.take(k as int));
    }
    assert(buf@.take(buf@.len() as int) =~= buf@);
    if line.len() > 0 && line[line.len() - 1] == 13u8 {
        line.pop();
    }
    LineStep::Line { text: into_string(line), used: buf.len() }
}

/// A line break at `n - 1` with none before it is the first one.
pub(crate) proof fn lemma_first_newline_prefix(b: Seq<u8>, n: int)
    requires
        1 <= n <= b.len(),
        b[n - 1] == 10u8,
        first_newline(b.take(n - 1)) is None,
    ensures
        first_newline(b) == Some(n - 1),
    decreases b.len(),
{
    if b.len() > n {
        assert(b.drop_last().take(n - 1) =~= b.take(n - 1));
        lemma_first_newline_prefix(b.drop_last(), n);
    } else {
        assert(b.drop_last() =~= b.take(n - 1));
    }
}

/// The offset `tell` reports: the operating system's position, plus the
/// bytes waiting to be written, minus the bytes read ahead but not yet
/// handed out.
pub fn logical_position(os_pos: u64, pending_writes: usize, unread: usize) -> (r: u64)
    requires
        unread as int <= (if os_pos + pending_writes > u64::MAX { u64::MAX as int } else { os_pos + pending_writes }),
    ensures
        r == (if os_pos + pending_writes > u64::MAX { u64::MAX as int } else { os_pos + pending_writes }) - unread,
{
    let total = os_pos.saturating_add(pending_writes as u64);
    total - unread as u64
}

/// Where `seek(offset, whence)` moves: from the current position, from the
/// end, or (any other `whence`) from the start, a negative offset counting
/// as zero there.
#[derive(Debug, PartialEq)]
pub enum SeekTarget {
    Start(u64),
    Current(i64),
    End(i64),
}

pub fn seek_target(offset: i64, whence: i64) -> (r: SeekTarget)
    ensures
        whence == 1 ==> r == SeekTarget::Current(offset),
        whence == 2 ==> r == SeekTarget::End(offset),
        whence != 1 && whence != 2 ==> r == SeekTarget::Start(if offset < 0 { 0 } else { offset as u64 }),
{
    if whence == 1 {
        SeekTarget::Current(offset)
    } else if whence == 2 {
        SeekTarget::End(offset)
    } else {
        SeekTarget::Start(if offset < 0 { 0 } else { offset as u64 })
    }
}

} // verus!
