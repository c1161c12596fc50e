//! The page cache: a fixed-capacity array of fixed-size page buffers over a
//! flat file.
//!
//! The pager itself holds no file handle. The caller opens the file, reports
//! its length, and feeds preloaded pages in through [`Pager::install_page`];
//! every decision — which file offset a page lives at, which bytes a flush
//! must write, whether a cache fill is due — is computed and specified here,
//! and the caller only moves the resulting bytes.

use crate::row::ROW_SIZE;
use vstd::prelude::*;

verus! {

/// Size of one page buffer in bytes: the cache and I/O granularity.
pub const PAGE_SIZE: usize = 4096;

/// Fixed capacity of the page cache, in pages. The buffer array is allocated
/// at this size when the pager opens and is never grown.
pub const TABLE_MAX_PAGES: usize = 100;

/// A page buffer of `PAGE_SIZE` zero bytes.
pub open spec fn zero_page() -> Seq<u8> {
    Seq::new(PAGE_SIZE as nat, |i: int| 0u8)
}

/// One pending write handed back to the caller: `bytes` belong at byte
/// `offset` of the database file.
pub struct PageWrite {
    pub offset: u64,
    pub bytes: Vec<u8>,
}

impl PageWrite {
    /// The write as a pair of plain values: file offset and byte contents.
    pub open spec fn view_pair(self) -> (int, Seq<u8>) {
        (self.offset as int, self.bytes@)
    }
}

/// The page cache. `file_length` and `num_pages` describe the file as it was
/// when the pager opened; `pages` holds `TABLE_MAX_PAGES` buffers of
/// `PAGE_SIZE` bytes each.
pub struct Pager {
    pub file_length: u64,
    pub num_pages: usize,
    pub pages: Vec<Vec<u8>>,
}

/// Number of pages a file of `file_length` bytes occupies, rounding the
/// trailing partial page up.
pub open spec fn spec_num_pages(file_length: int) -> int {
    (file_length + PAGE_SIZE - 1) / (PAGE_SIZE as int)
}

impl Pager {
    /// The cached page contents, page by page, as plain byte sequences.
    pub open spec fn contents(self) -> Seq<Seq<u8>> {
        Seq::new(self.pages@.len(), |i: int| self.pages@[i]@)
    }

    /// Well-formedness: the buffer array has its fixed capacity, every buffer
    /// is exactly one page long, and `num_pages` matches `file_length`.
    pub open spec fn wf(self) -> bool {
        &&& self.pages@.len() == TABLE_MAX_PAGES
        &&& forall|i: int|
            0 <= i < TABLE_MAX_PAGES ==> (#[trigger] self.pages@[i])@.len() == PAGE_SIZE
        &&& self.num_pages == spec_num_pages(self.file_length as int)
        &&& self.num_pages <= TABLE_MAX_PAGES
    }

    /// Open a pager over a file of the given length. Every buffer starts
    /// zero-filled; the caller preloads the pages in `[0, num_pages)` from
    /// disk through [`Pager::install_page`], so a page left untouched reads
    /// as all zeros — the same bytes a short read at end-of-file yields.
    pub fn pager_open(file_length: u64) -> (p: Pager)
        requires
            file_length as int <= TABLE_MAX_PAGES as int * PAGE_SIZE as int,
        ensures
            p.wf(),
            p.file_length == file_length,
            forall|i: int| 0 <= i < TABLE_MAX_PAGES ==> p.contents()[i] == zero_page(),
    {
        let mut pages: Vec<Vec<u8>> = Vec::new();
        let mut i: usize = 0;
        while i < TABLE_MAX_PAGES
            invariant
                i <= TABLE_MAX_PAGES,
                pages@.len() == i,
                forall|j: int| 0 <= j < i ==> (#[trigger] pages@[j])@ == zero_page(),
            decreases TABLE_MAX_PAGES - i,
        {
            pages.push(zero_buffer());
            i = i + 1;
        }
        let num_pages = if file_length == 0 {
            0
        } else {
            ((file_length - 1) / PAGE_SIZE as u64) as usize + 1
        };
        let p = Pager { file_length, num_pages, pages };
        proof {
            assert(p.num_pages == spec_num_pages(file_length as int));
        }
        p
    }

    /// Replace the buffer for `page_num` with one read from disk (or built by
    /// the caller). Nothing else moves.
    pub fn install_page(&mut self, page_num: usize, buf: Vec<u8>)
        requires
            old(self).wf(),
            page_num < TABLE_MAX_PAGES,
            buf@.len() == PAGE_SIZE,
        ensures
            final(self).wf(),
            final(self).file_length == old(self).file_length,
            final(self).num_pages == old(self).num_pages,
            final(self).contents() == old(self).contents().update(page_num as int, buf@),
    {
        self.pages.set(page_num, buf);
        proof {
            assert(self.contents() =~= old(self).contents().update(page_num as int, buf@));
        }
    }

    /// Borrow the buffer for `page_num`.
    pub fn page(&self, page_num: usize) -> (r: &Vec<u8>)
        requires
            self.wf(),
            page_num < TABLE_MAX_PAGES,
        ensures
            r@ == self.contents()[page_num as int],
    {
        &self.pages[page_num]
    }

    /// The residency heuristic: a page whose buffer is all zero bytes is
    /// taken for "not yet faulted in". A genuinely all-zero page is
    /// indistinguishable and merely earns a redundant, idempotent reload.
    pub fn page_is_zero(&self, page_num: usize) -> (b: bool)
        requires
            self.wf(),
            page_num < TABLE_MAX_PAGES,
        ensures
            b == (self.contents()[page_num as int] == zero_page()),
    {
        let page = &self.pages[page_num];
        let mut i: usize = 0;
        while i < PAGE_SIZE
            invariant
                self.wf(),
                page_num < TABLE_MAX_PAGES,
                page@ == self.contents()[page_num as int],
                i <= PAGE_SIZE,
                forall|j: int| 0 <= j < i ==> page@[j] == 0u8,
            decreases PAGE_SIZE - i,
        {
            if page[i] != 0 {
                proof {
                    assert(self.contents()[page_num as int][i as int] != 0u8);
                    assert(self.contents()[page_num as int] != zero_page());
                }
                return false;
            }
            i = i + 1;
        }
        proof {
            assert(self.contents()[page_num as int] =~= zero_page());
        }
        true
    }

    /// Decide a cache fill for `page_num`: if the buffer reads as unloaded,
    /// return the file offset the caller must read one page from (the read
    /// may come up short at end-of-file; the remainder stays zero). `None`
    /// means the page is already resident. Accepts `page_num == num_pages`,
    /// one past the pages known on disk — a fetch there installs nothing new,
    /// since no read past end-of-file can return bytes.
    pub fn fetch_page_offset(&self, page_num: usize) -> (r: Option<u64>)
        requires
            self.wf(),
            page_num <= self.num_pages,
            page_num < TABLE_MAX_PAGES,
        ensures
            r matches Some(off) ==> {
                &&& self.contents()[page_num as int] == zero_page()
                &&& off == page_num * PAGE_SIZE
            },
            r is None ==> self.contents()[page_num as int] != zero_page(),
    {
        if self.page_is_zero(page_num) {
            Some((page_num * PAGE_SIZE) as u64)
        } else {
            None
        }
    }

    /// The bytes a flush of `page_num` must write, and the file offset they
    /// belong at. With `num_remaining_rows` given (the trailing partial
    /// page), only that many rows' bytes are written; otherwise the whole
    /// page.
    pub fn flush(&self, page_num: usize, num_remaining_rows: Option<usize>) -> (r: PageWrite)
        requires
            self.wf(),
            page_num < TABLE_MAX_PAGES,
            num_remaining_rows matches Some(n) ==> n * ROW_SIZE <= PAGE_SIZE,
        ensures
            r.offset == page_num * PAGE_SIZE,
            r.bytes@ == self.contents()[page_num as int].take(flush_len(num_remaining_rows)),
    {
        let len: usize = match num_remaining_rows {
            Some(n) => n * ROW_SIZE,
            None => PAGE_SIZE,
        };
        let page = &self.pages[page_num];
        let mut bytes: Vec<u8> = Vec::new();
        let mut i: usize = 0;
        while i < len
            invariant
                page@ == self.contents()[page_num as int],
                page@.len() == PAGE_SIZE,
                len <= PAGE_SIZE,
                i <= len,
                bytes@ == self.contents()[page_num as int].take(i as int),
            decreases len - i,
        {
            bytes.push(page[i]);
            proof {
                assert(bytes@ =~= self.contents()[page_num as int].take(i + 1));
            }
            i = i + 1;
        }
        PageWrite { offset: (page_num * PAGE_SIZE) as u64, bytes }
    }
}

/// How many bytes a flush writes: the occupied rows' bytes for the trailing
/// partial page, the full page otherwise.
pub open spec fn flush_len(num_remaining_rows: Option<usize>) -> int {
    match num_remaining_rows {
        Some(n) => n * ROW_SIZE,
        None => PAGE_SIZE as int,
    }
}

/// Build one zero-filled page buffer.
pub(crate) fn zero_buffer() -> (v: Vec<u8>)
    ensures
        v@ == zero_page(),
{
    let mut v: Vec<u8> = Vec::new();
    let mut i: usize = 0;
    while i < PAGE_SIZE
        invariant
            i <= PAGE_SIZE,
            v@.len() == i,
            forall|j: int| 0 <= j < i ==> v@[j] == 0u8,
        decreases PAGE_SIZE - i,
    {
        v.push(0u8);
        i = i + 1;
    }
    proof {
        assert(v@ =~= zero_page());
    }
    v
}

} // verus!
