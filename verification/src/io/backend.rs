//! An in-memory byte store with the page and offset operations of a file
//! backend.

use vstd::prelude::*;

use crate::codec::{copy_range, zeros};
use crate::error::{OvnError, OvnResult};

verus! {

/// The bytes after writing `d` at offset `o` of `s`: `s` is first extended
/// with zeros to reach the end of the write.
pub open spec fn write_bytes(s: Seq<u8>, o: nat, d: Seq<u8>) -> Seq<u8> {
    let ext = if o + d.len() > s.len() {
        s + zeros((o + d.len() - s.len()) as nat)
    } else {
        s
    };
    ext.take(o as int) + d + ext.skip((o + d.len()) as int)
}

/// A backend keeping the whole file in memory.
pub struct MemoryBackend {
    data: Vec<u8>,
}

impl MemoryBackend {
    /// The stored bytes.
    pub closed spec fn spec_data(&self) -> Seq<u8> {
        self.data@
    }

    /// An empty store.
    pub fn new() -> (b: Self)
        ensures
            b.spec_data().len() == 0,
    {
        MemoryBackend { data: Vec::new() }
    }

    /// Read `length` bytes at `offset`; past the end is `UnexpectedEof`.
    pub fn read_at(&self, offset: u64, length: usize) -> (r: OvnResult<Vec<u8>>)
        requires
            offset <= usize::MAX,
            offset + length <= usize::MAX,
        ensures
            offset + length > self.spec_data().len() ==> (r matches Err(OvnError::UnexpectedEof(_))),
            offset + length <= self.spec_data().len() ==> (r matches Ok(v) && v@ == self.spec_data().subrange(
                offset as int,
                offset + length,
            )),
    {
        let start = offset as usize;
        if start + length > self.data.len() {
            return Err(OvnError::UnexpectedEof("Read beyond end of memory backend".to_string()));
        }
        Ok(copy_range(self.data.as_slice(), start, start + length))
    }

    /// Write `new_data` at `offset`, extending the store with zeros first
    /// when the write reaches past its end.
    pub fn write_at(&mut self, offset: u64, new_data: &[u8]) -> (r: OvnResult<()>)
        requires
            offset <= usize::MAX,
            offset + new_data@.len() <= usize::MAX,
        ensures
            r is Ok,
            final(self).spec_data() == write_bytes(old(self).spec_data(), offset as nat, new_data@),
    {
        let start = offset as usize;
        let end = start + new_data.len();
        let ghost s = self.data@;
        if end > self.data.len() {
            self.data.resize(end, 0u8);
            proof {
                assert(self.data@ =~= s + zeros((end - s.len()) as nat));
            }
        }
        let ghost ext = self.data@;
        let mut i: usize = 0;
        while i < new_data.len()
            invariant
                end == start + new_data@.len(),
                end <= self.data@.len(),
                self.data@.len() == ext.len(),
                i <= new_data@.len(),
                forall|j: int| 0 <= j < start ==> self.data@[j] == ext[j],
                forall|j: int| start + i <= j < ext.len() ==> self.data@[j] == ext[j],
                forall|j: int| start <= j < start + i ==> self.data@[j] == new_data@[j - start],
            decreases new_data@.len() - i,
        {
            self.data[start + i] = new_data[i];
            i = i + 1;
        }
        assert(self.data@ =~= ext.take(start as int) + new_data@ + ext.skip(end as int));
        Ok(())
    }

    /// Read page `page_number` of `page_size` bytes.
    pub fn read_page(&self, page_number: u64, page_size: u32) -> (r: OvnResult<Vec<u8>>)
        requires
            page_number * page_size + page_size <= usize::MAX,
        ensures
            ({
                let o = page_number * page_size;
                &&& o + page_size > self.spec_data().len() ==> (r matches Err(OvnError::UnexpectedEof(_)))
                &&& o + page_size <= self.spec_data().len() ==> (r matches Ok(v) && v@ == self.spec_data().subrange(
                    o,
                    o + page_size,
                ))
            }),
    {
        assert(page_number * page_size <= page_number * page_size + page_size);
        let offset = page_number * (page_size as u64);
        self.read_at(offset, page_size as usize)
    }

    /// Write `page_data` at the start of page `page_number`.
    pub fn write_page(&mut self, page_number: u64, page_size: u32, page_data: &[u8]) -> (r: OvnResult<()>)
        requires
            page_number * page_size + page_data@.len() <= usize::MAX,
        ensures
            r is Ok,
            final(self).spec_data() == write_bytes(old(self).spec_data(), (page_number * page_size) as nat, page_data@),
    {
        assert(page_number * page_size <= page_number * page_size + page_data@.len());
        let offset = page_number * (page_size as u64);
        self.write_at(offset, page_data)
    }

    /// Append bytes, returning the offset they start at.
    pub fn append(&mut self, new_data: &[u8]) -> (r: OvnResult<u64>)
        ensures
            r == Ok::<u64, OvnError>(old(self).spec_data().len() as u64),
            final(self).spec_data() == old(self).spec_data() + new_data@,
    {
        let offset = self.data.len() as u64;
        let mut i: usize = 0;
        let ghost s = self.data@;
        while i < new_data.len()
            invariant
                i <= new_data@.len(),
                self.data@ == s + new_data@.take(i as int),
            decreases new_data@.len() - i,
        {
            self.data.push(new_data[i]);
            i = i + 1;
            assert(self.data@ =~= s + new_data@.take(i as int));
        }
        assert(new_data@.take(i as int) =~= new_data@);
        Ok(offset)
    }

    /// Nothing to flush.
    pub fn sync(&self) -> (r: OvnResult<()>)
        ensures
            r is Ok,
    {
        Ok(())
    }

    /// The store's length.
    pub fn file_size(&self) -> (r: OvnResult<u64>)
        ensures
            r == Ok::<u64, OvnError>(self.spec_data().len() as u64),
    {
        Ok(self.data.len() as u64)
    }

    /// Cut the store to `size` bytes (no effect when it is shorter).
    pub fn truncate(&mut self, size: u64) -> (r: OvnResult<()>)
        requires
            size <= usize::MAX,
        ensures
            r is Ok,
            final(self).spec_data() == if size < old(self).spec_data().len() {
                old(self).spec_data().take(size as int)
            } else {
                old(self).spec_data()
            },
    {
        self.data.truncate(size as usize);
        Ok(())
    }
}

/// Reading back a write gives the written bytes; bytes outside it keep their
/// value.
pub proof fn lemma_read_after_write(s: Seq<u8>, o: nat, d: Seq<u8>)
    ensures
        write_bytes(s, o, d).subrange(o as int, (o + d.len()) as int) == d,
        write_bytes(s, o, d).len() >= o + d.len(),
        forall|j: int| 0 <= j < o && j < s.len() ==> #[trigger] write_bytes(s, o, d)[j] == s[j],
        forall|j: int| o + d.len() <= j < s.len() ==> #[trigger] write_bytes(s, o, d)[j] == s[j],
{
    let t = write_bytes(s, o, d);
    assert(t.subrange(o as int, (o + d.len()) as int) =~= d);
}

} // verus!
