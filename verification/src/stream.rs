//! A seekable stream of bytes over one entry of the store.
//!
//! A stream names its entry by the entry's key. An entry that the store
//! does not hold reads as an empty one, and the first write creates it.
use vstd::prelude::*;
use vstd::bytes::{
    spec_u32_from_le_bytes, spec_u64_from_le_bytes, u32_from_le_bytes, u64_from_le_bytes,
};
use crate::codec::{ParseError, ParseResult};
use crate::store::{ContractStateLL, MAX_ENTRY_SIZE};

verus! {

/// From where a seek counts its offset.
#[derive(Debug, Clone, Copy, PartialEq, Eq, Structural)]
pub enum SeekFrom {
    /// From the start of the entry.
    Start(u64),
    /// From the end of the entry: a negative offset leads back into the
    /// entry, a positive one behind its end.
    End(i64),
    /// From the cursor.
    Current(i64),
}

/// A cursor into the bytes of one entry.
pub struct StateEntry {
    pub key: Vec<u8>,
    pub current_position: u32,
}

/// The bytes that `m` keeps under `key`: none where it does not hold the key.
pub open spec fn content(m: Map<Seq<u8>, Seq<u8>>, key: Seq<u8>) -> Seq<u8> {
    if m.contains_key(key) {
        m[key]
    } else {
        Seq::empty()
    }
}

/// How many bytes a read of `want` bytes at `pos` gets from `data`.
pub open spec fn available(data: Seq<u8>, pos: int, want: int) -> int {
    if pos >= data.len() {
        0
    } else if data.len() - pos < want {
        data.len() - pos
    } else {
        want
    }
}

/// The bytes that a read of `want` bytes at `pos` gets from `data`.
pub open spec fn bytes_read(data: Seq<u8>, pos: int, want: int) -> Seq<u8> {
    if pos >= data.len() {
        Seq::empty()
    } else {
        data.subrange(pos, pos + available(data, pos, want))
    }
}

/// `data` with `buf` written at `pos`: the bytes under `buf` are replaced,
/// the entry grows as far as `buf` reaches, and a gap between the old end
/// and `pos` holds zeros. Writing nothing changes nothing.
pub open spec fn overwritten(data: Seq<u8>, pos: int, buf: Seq<u8>) -> Seq<u8> {
    if buf.len() == 0 {
        data
    } else {
        Seq::new(
            if data.len() >= pos + buf.len() {
                data.len()
            } else {
                (pos + buf.len()) as nat
            },
            |i: int|
                if pos <= i < pos + buf.len() {
                    buf[i - pos]
                } else if i < data.len() {
                    data[i]
                } else {
                    0u8
                },
        )
    }
}

/// The store after the encoding `bytes` of a value was written over the
/// start of what it keeps under `key`.
pub open spec fn stored(m: Map<Seq<u8>, Seq<u8>>, key: Seq<u8>, bytes: Seq<u8>) -> Map<
    Seq<u8>,
    Seq<u8>,
> {
    m.insert(key, overwritten(content(m, key), 0, bytes))
}

/// `data` cut or grown to `n` bytes, new bytes being zero.
pub open spec fn resized(data: Seq<u8>, n: int) -> Seq<u8> {
    Seq::new(
        n as nat,
        |i: int|
            if i < data.len() {
                data[i]
            } else {
                0u8
            },
    )
}

/// The place that a seek names from cursor `cur` in an entry of `end`
/// bytes: the offset counted from the start, from the end or from the
/// cursor.
pub open spec fn seek_place(cur: int, end: int, pos: SeekFrom) -> int {
    match pos {
        SeekFrom::Start(offset) => offset as int,
        SeekFrom::End(delta) => end + delta,
        SeekFrom::Current(delta) => cur + delta,
    }
}

/// Where a seek leads from cursor `cur` in an entry of `end` bytes: the
/// place that it names, which may lie behind the end of the entry, or
/// nothing where that place is before the start or cannot be addressed.
pub open spec fn seek_target(cur: int, end: int, pos: SeekFrom) -> Option<int> {
    if 0 <= seek_place(cur, end, pos) <= u32::MAX {
        Some(seek_place(cur, end, pos))
    } else {
        None
    }
}

/// `data` with `buf` written at `pos`.
fn overwrite(data: &[u8], pos: usize, buf: &[u8]) -> (out: Vec<u8>)
    requires
        pos + buf@.len() <= usize::MAX,
    ensures
        out@ == overwritten(data@, pos as int, buf@),
{
    if buf.len() == 0 {
        let out = vstd::slice::slice_to_vec(data);
        return out;
    }
    let end = pos + buf.len();
    let len = if data.len() >= end { data.len() } else { end };
    let mut out: Vec<u8> = Vec::new();
    let mut i: usize = 0;
    while i < len
        invariant
            i <= len,
            buf@.len() > 0,
            end == pos + buf@.len(),
            len == if data@.len() >= end { data@.len() } else { end as nat },
            out@.len() == i,
            forall|j: int| 0 <= j < i ==> out@[j] == overwritten(data@, pos as int, buf@)[j],
        decreases len - i,
    {
        let b = if pos <= i && i < end {
            buf[i - pos]
        } else if i < data.len() {
            data[i]
        } else {
            0u8
        };
        out.push(b);
        i += 1;
    }
    assert(out@ =~= overwritten(data@, pos as int, buf@));
    out
}

/// `data` cut or grown to `n` bytes.
fn resize(data: &[u8], n: usize) -> (out: Vec<u8>)
    ensures
        out@ == resized(data@, n as int),
{
    let mut out: Vec<u8> = Vec::new();
    let mut i: usize = 0;
    while i < n
        invariant
            i <= n,
            out@.len() == i,
            forall|j: int| 0 <= j < i ==> out@[j] == resized(data@, n as int)[j],
        decreases n - i,
    {
        let b = if i < data.len() { data[i] } else { 0u8 };
        out.push(b);
        i += 1;
    }
    assert(out@ =~= resized(data@, n as int));
    out
}

impl StateEntry {
    /// A stream at the start of the entry under `key`.
    pub fn open(key: Vec<u8>) -> (e: StateEntry)
        ensures
            e.key == key,
            e.current_position == 0,
    {
        StateEntry { key, current_position: 0 }
    }

    /// The size of the entry in bytes.
    pub fn size(&self, store: &ContractStateLL) -> (n: u32)
        requires
            store.wf(),
        ensures
            n == content(store@, self.key@).len(),
    {
        match store.data(self.key.as_slice()) {
            Some(d) => {
                let n = d.len();
                n as u32
            },
            None => 0,
        }
    }

    /// Cuts the entry to `new_size` bytes if it is longer, and moves the
    /// cursor back to the new end if it stood behind it.
    pub fn truncate(&mut self, store: &mut ContractStateLL, new_size: u32)
        requires
            old(store).wf(),
        ensures
            final(store).wf(),
            final(self).key == old(self).key,
            final(self).current_position == if new_size < old(self).current_position {
                new_size
            } else {
                old(self).current_position
            },
            final(store)@ == if content(old(store)@, old(self).key@).len() > new_size {
                old(store)@.insert(
                    old(self).key@,
                    content(old(store)@, old(self).key@).subrange(0, new_size as int),
                )
            } else {
                old(store)@
            },
    {
        let cur_size = self.size(store);
        if cur_size > new_size {
            let cut = match store.data(self.key.as_slice()) {
                Some(d) => resize(d.as_slice(), new_size as usize),
                None => Vec::new(),
            };
            assert(cut@ =~= content(store@, self.key@).subrange(0, new_size as int));
            store.put(self.key.as_slice(), cut);
        }
        if new_size < self.current_position {
            self.current_position = new_size;
        }
    }

    /// Grows the entry to `len` bytes if it is shorter, the new bytes being
    /// zero, and leaves the cursor where it is. Says whether the entry now
    /// has at least `len` bytes, which it always has.
    pub fn reserve(&mut self, store: &mut ContractStateLL, len: u32) -> (ok: bool)
        requires
            old(store).wf(),
        ensures
            ok,
            final(store).wf(),
            *final(self) == *old(self),
            final(store)@ == if content(old(store)@, old(self).key@).len() < len {
                old(store)@.insert(
                    old(self).key@,
                    resized(content(old(store)@, old(self).key@), len as int),
                )
            } else {
                old(store)@
            },
    {
        let cur_size = self.size(store);
        if cur_size < len {
            let grown = match store.data(self.key.as_slice()) {
                Some(d) => resize(d.as_slice(), len as usize),
                None => resize(Vec::new().as_slice(), len as usize),
            };
            assert(grown@ =~= resized(content(store@, self.key@), len as int));
            store.put(self.key.as_slice(), grown);
        }
        true
    }

    /// The key of the entry.
    pub fn get_key(&self) -> (key: Vec<u8>)
        ensures
            key@ == self.key@,
    {
        vstd::slice::slice_to_vec(self.key.as_slice())
    }

    /// Moves the cursor and returns its new place. The place may lie behind
    /// the end of the entry. A place before the start, or one that cannot be
    /// addressed, is an error and leaves the cursor where it was.
    pub fn seek(&mut self, store: &ContractStateLL, pos: SeekFrom) -> (r: Result<u64, ()>)
        requires
            store.wf(),
        ensures
            final(self).key == old(self).key,
            match seek_target(
                old(self).current_position as int,
                content(store@, old(self).key@).len() as int,
                pos,
            ) {
                Some(target) => r == Ok::<u64, ()>(target as u64) && final(self).current_position
                    == target,
                None => r is Err && final(self).current_position == old(self).current_position,
            },
    {
        let cur: u32 = self.current_position;
        match pos {
            SeekFrom::Start(offset) => {
                if offset <= 0xffff_ffff {
                    self.current_position = offset as u32;
                    Ok(offset)
                } else {
                    Err(())
                }
            },
            SeekFrom::End(delta) => {
                let end = self.size(store);
                if delta >= 0 {
                    if delta <= 0xffff_ffff && delta as u64 + end as u64 <= 0xffff_ffff {
                        let target: u64 = delta as u64 + end as u64;
                        self.current_position = target as u32;
                        Ok(target)
                    } else {
                        Err(())
                    }
                } else if delta >= -0xffff_ffff && (-delta) as u64 <= end as u64 {
                    let target: u64 = end as u64 - (-delta) as u64;
                    self.current_position = target as u32;
                    Ok(target)
                } else {
                    Err(())
                }
            },
            SeekFrom::Current(delta) => {
                if delta >= 0 {
                    if delta <= 0xffff_ffff && delta as u64 + cur as u64 <= 0xffff_ffff {
                        let target: u64 = delta as u64 + cur as u64;
                        self.current_position = target as u32;
                        Ok(target)
                    } else {
                        Err(())
                    }
                } else if delta >= -0xffff_ffff && (-delta) as u64 <= cur as u64 {
                    let target: u64 = cur as u64 - (-delta) as u64;
                    self.current_position = target as u32;
                    Ok(target)
                } else {
                    Err(())
                }
            },
        }
    }
}

impl StateEntry {
    /// Copies bytes from the cursor on into the front of `buf`, as many as
    /// `buf` is long or as the entry still has, and moves the cursor past
    /// them. Returns their number. A buffer too long for its length to be
    /// addressed is an error.
    pub fn read(&mut self, store: &ContractStateLL, buf: &mut Vec<u8>) -> (r: ParseResult<usize>)
        requires
            store.wf(),
        ensures
            final(self).key == old(self).key,
            old(buf)@.len() > MAX_ENTRY_SIZE ==> r is Err && *final(self) == *old(self)
                && *final(buf) == *old(buf),
            old(buf)@.len() <= MAX_ENTRY_SIZE ==> ({
                let data = content(store@, old(self).key@);
                let pos = old(self).current_position as int;
                let n = available(data, pos, old(buf)@.len() as int);
                &&& r == Ok::<usize, ParseError>(n as usize)
                &&& final(self).current_position == pos + n
                &&& final(buf)@ == bytes_read(data, pos, old(buf)@.len() as int) + old(buf)@.skip(n)
            }),
    {
        if buf.len() > MAX_ENTRY_SIZE {
            return Err(ParseError {  });
        }
        let pos = self.current_position as usize;
        let ghost data = content(store@, self.key@);
        let mut n: usize = 0;
        match store.data(self.key.as_slice()) {
            Some(d) => {
                while n < buf.len() && pos + n < d.len()
                    invariant
                        d@ == data,
                        d@.len() <= MAX_ENTRY_SIZE,
                        pos <= MAX_ENTRY_SIZE,
                        buf@.len() == old(buf)@.len(),
                        n <= buf@.len(),
                        n == 0 || pos + n <= d@.len(),
                        forall|j: int| 0 <= j < n ==> buf@[j] == d@[pos + j],
                        forall|j: int| n <= j < buf@.len() ==> buf@[j] == old(buf)@[j],
                    decreases buf@.len() - n,
                {
                    buf.set(n, d[pos + n]);
                    n += 1;
                }
            },
            None => {},
        }
        assert(n == available(data, pos as int, old(buf)@.len() as int));
        assert(buf@ =~= bytes_read(data, pos as int, old(buf)@.len() as int) + old(buf)@.skip(
            n as int,
        ));
        self.current_position = (pos + n) as u32;
        Ok(n)
    }

    /// Reads one byte at the cursor and moves the cursor past it. At the
    /// end of the entry it is an error and the cursor stays.
    pub fn read_u8(&mut self, store: &ContractStateLL) -> (r: ParseResult<u8>)
        requires
            store.wf(),
        ensures
            final(self).key == old(self).key,
            ({
                let data = content(store@, old(self).key@);
                let pos = old(self).current_position as int;
                let n = available(data, pos, 1);
                &&& final(self).current_position == pos + n
                &&& n == 1 ==> r == Ok::<u8, ParseError>(data[pos])
                &&& n < 1 ==> r is Err
            }),
    {
        let pos = self.current_position as usize;
        match store.data(self.key.as_slice()) {
            Some(d) => {
                if pos < d.len() {
                    self.current_position = (pos + 1) as u32;
                    Ok(d[pos])
                } else {
                    Err(ParseError {  })
                }
            },
            None => Err(ParseError {  }),
        }
    }

    /// Reads four bytes at the cursor as a number in little-endian order.
    /// Where the entry has fewer left it is an error; the cursor moves past
    /// the bytes that were there in either case.
    pub fn read_u32(&mut self, store: &ContractStateLL) -> (r: ParseResult<u32>)
        requires
            store.wf(),
        ensures
            final(self).key == old(self).key,
            ({
                let data = content(store@, old(self).key@);
                let pos = old(self).current_position as int;
                let n = available(data, pos, 4);
                &&& final(self).current_position == pos + n
                &&& n == 4 ==> r == Ok::<u32, ParseError>(
                    spec_u32_from_le_bytes(data.subrange(pos, pos + 4)),
                )
                &&& n < 4 ==> r is Err
            }),
    {
        let pos = self.current_position as usize;
        match store.data(self.key.as_slice()) {
            Some(d) => {
                if pos as u64 + 4 <= d.len() as u64 {
                    let bytes = vstd::slice::slice_subrange(d.as_slice(), pos, pos + 4);
                    self.current_position = (pos + 4) as u32;
                    Ok(u32_from_le_bytes(bytes))
                } else {
                    if pos < d.len() {
                        self.current_position = d.len() as u32;
                    }
                    Err(ParseError {  })
                }
            },
            None => Err(ParseError {  }),
        }
    }

    /// Reads eight bytes at the cursor as a number in little-endian order.
    /// Where the entry has fewer left it is an error; the cursor moves past
    /// the bytes that were there in either case.
    pub fn read_u64(&mut self, store: &ContractStateLL) -> (r: ParseResult<u64>)
        requires
            store.wf(),
        ensures
            final(self).key == old(self).key,
            ({
                let data = content(store@, old(self).key@);
                let pos = old(self).current_position as int;
                let n = available(data, pos, 8);
                &&& final(self).current_position == pos + n
                &&& n == 8 ==> r == Ok::<u64, ParseError>(
                    spec_u64_from_le_bytes(data.subrange(pos, pos + 8)),
                )
                &&& n < 8 ==> r is Err
            }),
    {
        let pos = self.current_position as usize;
        match store.data(self.key.as_slice()) {
            Some(d) => {
                if pos as u64 + 8 <= d.len() as u64 {
                    let bytes = vstd::slice::slice_subrange(d.as_slice(), pos, pos + 8);
                    self.current_position = (pos + 8) as u32;
                    Ok(u64_from_le_bytes(bytes))
                } else {
                    if pos < d.len() {
                        self.current_position = d.len() as u32;
                    }
                    Err(ParseError {  })
                }
            },
            None => Err(ParseError {  }),
        }
    }

    /// The bytes of the entry from the cursor to its end. The cursor stays.
    pub fn rest(&self, store: &ContractStateLL) -> (out: Vec<u8>)
        requires
            store.wf(),
        ensures
            out@ == content(store@, self.key@).skip(
                available(
                    content(store@, self.key@),
                    0,
                    self.current_position as int,
                ),
            ),
    {
        let pos = self.current_position as usize;
        match store.data(self.key.as_slice()) {
            Some(d) => {
                let from = if pos < d.len() { pos } else { d.len() };
                let out = vstd::slice::slice_to_vec(
                    vstd::slice::slice_subrange(d.as_slice(), from, d.len()),
                );
                assert(out@ =~= d@.skip(from as int));
                out
            },
            None => {
                let out: Vec<u8> = Vec::new();
                assert(out@ =~= Seq::<u8>::empty().skip(0));
                out
            },
        }
    }

    /// Writes `buf` at the cursor, growing the entry as far as needed, and
    /// moves the cursor past it. Returns the number of bytes written, which
    /// is all of them. A write that would reach behind the last place that
    /// can be addressed is an error and writes nothing.
    pub fn write(&mut self, store: &mut ContractStateLL, buf: &[u8]) -> (r: Result<usize, ()>)
        requires
            old(store).wf(),
        ensures
            final(store).wf(),
            final(self).key == old(self).key,
            old(self).current_position + buf@.len() > MAX_ENTRY_SIZE ==> r is Err && *final(self)
                == *old(self) && *final(store) == *old(store),
            old(self).current_position + buf@.len() <= MAX_ENTRY_SIZE ==> r == Ok::<usize, ()>(
                buf@.len() as usize,
            ) && final(self).current_position == old(self).current_position + buf@.len()
                && final(store)@ == old(store)@.insert(
                old(self).key@,
                overwritten(
                    content(old(store)@, old(self).key@),
                    old(self).current_position as int,
                    buf@,
                ),
            ),
    {
        let pos = self.current_position as usize;
        let len = buf.len();
        if len > MAX_ENTRY_SIZE || pos as u64 + len as u64 > 0xffff_ffff {
            return Err(());
        }
        let data = match store.data(self.key.as_slice()) {
            Some(d) => overwrite(d.as_slice(), pos, buf),
            None => overwrite(Vec::new().as_slice(), pos, buf),
        };
        store.put(self.key.as_slice(), data);
        self.current_position = (pos + len) as u32;
        Ok(len)
    }

    /// Writes all of `buf` at the cursor, as `write` does.
    pub fn write_all(&mut self, store: &mut ContractStateLL, buf: &[u8]) -> (r: Result<(), ()>)
        requires
            old(store).wf(),
        ensures
            final(store).wf(),
            final(self).key == old(self).key,
            old(self).current_position + buf@.len() > MAX_ENTRY_SIZE ==> r is Err && *final(self)
                == *old(self) && *final(store) == *old(store),
            old(self).current_position + buf@.len() <= MAX_ENTRY_SIZE ==> r is Ok
                && final(self).current_position == old(self).current_position + buf@.len()
                && final(store)@ == old(store)@.insert(
                old(self).key@,
                overwritten(
                    content(old(store)@, old(self).key@),
                    old(self).current_position as int,
                    buf@,
                ),
            ),
    {
        match self.write(store, buf) {
            Ok(_) => Ok(()),
            Err(_) => Err(()),
        }
    }
}

} // verus!
