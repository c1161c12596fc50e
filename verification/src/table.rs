//! The table: fixed stride arithmetic from a logical row number to a
//! (page, byte offset) slot, append-only insertion, sequential scan, and the
//! flush plan for a durable shutdown.

use crate::pager::{
    zero_buffer, zero_page, PageWrite, Pager, PAGE_SIZE, TABLE_MAX_PAGES,
};
use crate::row::{
    lemma_row_enc_len, row_enc, Row, EMAIL_OFFSET, EMAIL_SIZE, ID_OFFSET, ID_SIZE, ROW_SIZE,
    USERNAME_OFFSET, USERNAME_SIZE,
};
use vstd::arithmetic::div_mod::{
    lemma_div_is_ordered, lemma_fundamental_div_mod, lemma_mod_bound,
};
use vstd::arithmetic::mul::lemma_mul_inequality;
use vstd::bytes::{
    lemma_auto_spec_u32_to_from_le_bytes, spec_u32_from_le_bytes, spec_u32_to_le_bytes,
    u32_from_le_bytes, u32_to_le_bytes,
};
use vstd::prelude::*;
use vstd::slice::slice_subrange;

verus! {

/// How many whole rows fit in one page; trailing bytes beyond the last slot
/// are unused padding.
pub const ROWS_PER_PAGE: usize = PAGE_SIZE / ROW_SIZE;

/// Capacity of a table: every page filled with rows.
pub const TABLE_MAX_ROWS: usize = ROWS_PER_PAGE * TABLE_MAX_PAGES;

/// A slot address: page number and byte offset within that page.
pub type TableOffset = (usize, usize);

/// The error an insert into a full table reports; the table is left
/// unchanged.
pub struct CapacityExceeded;

/// The page a logical row number lives on.
pub open spec fn slot_page(k: int) -> int {
    k / (ROWS_PER_PAGE as int)
}

/// The byte offset of a logical row number within its page.
pub open spec fn slot_offset(k: int) -> int {
    (k % (ROWS_PER_PAGE as int)) * (ROW_SIZE as int)
}

/// A page with `bytes` written over the range starting at `off`; everything
/// outside that range keeps its old value.
pub open spec fn splice(page: Seq<u8>, off: int, bytes: Seq<u8>) -> Seq<u8> {
    page.take(off) + bytes + page.skip(off + bytes.len())
}

/// A table: one pager and the row count, derived at open time from the file
/// length and monotonically increasing from there.
pub struct Table {
    pub num_rows: usize,
    pub pager: Pager,
}

impl Table {
    /// Well-formedness: the pager is well-formed and the row count is within
    /// capacity.
    pub open spec fn wf(self) -> bool {
        &&& self.pager.wf()
        &&& self.num_rows <= TABLE_MAX_ROWS
    }

    /// The bytes stored in row `k`'s slot.
    pub open spec fn stored(self, k: int) -> Seq<u8> {
        self.pager.contents()[slot_page(k)].subrange(
            slot_offset(k),
            slot_offset(k) + ROW_SIZE,
        )
    }

    /// Every stored row's bytes, in row-number order.
    pub open spec fn stored_rows(self) -> Seq<Seq<u8>> {
        Seq::new(self.num_rows as nat, |k: int| self.stored(k))
    }

    /// Open a table over a file of the given length: the pager opens with
    /// zero-filled buffers (the caller preloads the resident pages), and the
    /// row count is the file length in whole rows — a trailing partial row is
    /// silently ignored.
    pub fn db_open(file_length: u64) -> (t: Table)
        requires
            file_length as int / ROW_SIZE as int <= TABLE_MAX_ROWS as int,
        ensures
            t.wf(),
            t.num_rows == file_length as int / ROW_SIZE as int,
            t.pager.file_length == file_length,
            forall|i: int| 0 <= i < TABLE_MAX_PAGES ==> t.pager.contents()[i] == zero_page(),
    {
        proof {
            lemma_fundamental_div_mod(file_length as int, ROW_SIZE as int);
            lemma_mod_bound(file_length as int, ROW_SIZE as int);
            lemma_mul_inequality(
                file_length as int / ROW_SIZE as int,
                TABLE_MAX_ROWS as int,
                ROW_SIZE as int,
            );
            assert(TABLE_MAX_ROWS == 1400 && ROW_SIZE == 291);
            assert(file_length <= TABLE_MAX_ROWS * ROW_SIZE + (ROW_SIZE - 1));
            assert(TABLE_MAX_PAGES as int * PAGE_SIZE as int == 409600);
        }
        let pager = Pager::pager_open(file_length);
        let num_rows = (file_length / (ROW_SIZE as u64)) as usize;
        Table { num_rows, pager }
    }

    /// The slot for a logical row number: fixed stride arithmetic, no I/O,
    /// total for every row number. Callers enforce the capacity bound
    /// independently.
    pub fn row_slot(&self, row_num: usize) -> (r: TableOffset)
        ensures
            r.0 == slot_page(row_num as int),
            r.1 == slot_offset(row_num as int),
    {
        proof {
            assert(ROW_SIZE == 291);
            assert(ROWS_PER_PAGE == 14);
        }
        let page_num = row_num / ROWS_PER_PAGE;
        let row_offset = row_num % ROWS_PER_PAGE;
        let byte_offset = row_offset * ROW_SIZE;
        (page_num, byte_offset)
    }

    /// Pack `source` into the page buffer at `destination`: the little-endian
    /// id, then the raw username and email fields. Only the destination range
    /// of the destination page changes.
    pub fn serialize_row(&mut self, source: &Row, destination: TableOffset)
        requires
            old(self).pager.wf(),
            destination.0 < TABLE_MAX_PAGES,
            destination.1 + ROW_SIZE <= PAGE_SIZE,
        ensures
            final(self).pager.wf(),
            final(self).num_rows == old(self).num_rows,
            final(self).pager.file_length == old(self).pager.file_length,
            final(self).pager.num_pages == old(self).pager.num_pages,
            final(self).pager.contents() == old(self).pager.contents().update(
                destination.0 as int,
                splice(
                    old(self).pager.contents()[destination.0 as int],
                    destination.1 as int,
                    row_enc(*source),
                ),
            ),
    {
        let (page_num, byte_offset) = destination;
        proof {
            lemma_auto_spec_u32_to_from_le_bytes();
        }
        let page = &mut self.pager.pages[page_num];
        write_row(page, byte_offset, source);
        proof {
            assert(self.pager.contents() =~= old(self).pager.contents().update(
                page_num as int,
                splice(
                    old(self).pager.contents()[page_num as int],
                    byte_offset as int,
                    row_enc(*source),
                ),
            ));
        }
    }

    /// Unpack the row stored at the given page and byte offset. The exact
    /// inverse of [`Table::serialize_row`]: the returned row's encoding is
    /// the stored byte range, bit for bit.
    pub fn deserialize_row(&self, page: usize, offset: usize) -> (r: Row)
        requires
            self.pager.wf(),
            page < TABLE_MAX_PAGES,
            offset + ROW_SIZE <= PAGE_SIZE,
        ensures
            row_enc(r) == self.pager.contents()[page as int].subrange(
                offset as int,
                offset + ROW_SIZE,
            ),
            r.id == spec_u32_from_le_bytes(
                self.pager.contents()[page as int].subrange(
                    offset + ID_OFFSET,
                    offset + ID_OFFSET + ID_SIZE,
                ),
            ),
            r.username@ == self.pager.contents()[page as int].subrange(
                offset + USERNAME_OFFSET,
                offset + USERNAME_OFFSET + USERNAME_SIZE,
            ),
            r.email@ == self.pager.contents()[page as int].subrange(
                offset + EMAIL_OFFSET,
                offset + EMAIL_OFFSET + EMAIL_SIZE,
            ),
    {
        let buf = self.pager.page(page);
        proof {
            assert(ID_OFFSET == 0 && USERNAME_OFFSET == 4 && EMAIL_OFFSET == 36 && ROW_SIZE
                == 291);
            assert(buf@.len() == PAGE_SIZE);
        }
        let id_slice = slice_subrange(
            buf.as_slice(),
            offset + ID_OFFSET,
            offset + ID_OFFSET + ID_SIZE,
        );
        let id = u32_from_le_bytes(id_slice);
        let mut username = [0u8; USERNAME_SIZE];
        let mut i: usize = 0;
        while i < USERNAME_SIZE
            invariant
                i <= USERNAME_SIZE,
                offset + ROW_SIZE <= buf@.len(),
                buf@.len() == PAGE_SIZE,
                username@.len() == USERNAME_SIZE,
                forall|j: int|
                    0 <= j < i ==> username@[j] == buf@[offset + USERNAME_OFFSET + j],
            decreases USERNAME_SIZE - i,
        {
            username[i] = buf[offset + USERNAME_OFFSET + i];
            i = i + 1;
        }
        let mut email = [0u8; EMAIL_SIZE];
        let mut i: usize = 0;
        while i < EMAIL_SIZE
            invariant
                i <= EMAIL_SIZE,
                offset + ROW_SIZE <= buf@.len(),
                buf@.len() == PAGE_SIZE,
                email@.len() == EMAIL_SIZE,
                forall|j: int| 0 <= j < i ==> email@[j] == buf@[offset + EMAIL_OFFSET + j],
            decreases EMAIL_SIZE - i,
        {
            email[i] = buf[offset + EMAIL_OFFSET + i];
            i = i + 1;
        }
        let r = Row { id, username, email };
        proof {
            lemma_auto_spec_u32_to_from_le_bytes();
            let range = self.pager.contents()[page as int].subrange(
                offset as int,
                offset + ROW_SIZE,
            );
            assert(id_slice@ =~= range.subrange(ID_OFFSET as int, ID_OFFSET + ID_SIZE));
            assert(spec_u32_to_le_bytes(r.id) == id_slice@);
            assert(row_enc(r) =~= range);
            assert(r.username@ =~= self.pager.contents()[page as int].subrange(
                offset + USERNAME_OFFSET,
                offset + USERNAME_OFFSET + USERNAME_SIZE,
            ));
            assert(r.email@ =~= self.pager.contents()[page as int].subrange(
                offset + EMAIL_OFFSET,
                offset + EMAIL_OFFSET + EMAIL_SIZE,
            ));
        }
        r
    }
}

/// The codec round trip: a row written into any page buffer at any in-bounds
/// offset reads back as the same row, byte-exact including padding. The
/// hypothesis on `out` is exactly what [`Table::deserialize_row`] guarantees
/// of a slot that [`Table::serialize_row`] filled.
pub proof fn lemma_row_round_trip(page: Seq<u8>, off: int, r: Row, out: Row)
    requires
        0 <= off,
        off + ROW_SIZE <= page.len(),
        row_enc(out) == splice(page, off, row_enc(r)).subrange(off, off + ROW_SIZE),
    ensures
        out == r,
{
    lemma_row_enc_len(r);
    assert(splice(page, off, row_enc(r)).subrange(off, off + ROW_SIZE) =~= row_enc(r));
    crate::row::lemma_row_enc_injective(out, r);
}

/// Every row number within capacity maps to a page inside the cache and a
/// byte range inside that page.
pub proof fn lemma_slot_in_bounds(k: int)
    requires
        0 <= k < TABLE_MAX_ROWS,
    ensures
        0 <= slot_page(k) < TABLE_MAX_PAGES,
        0 <= slot_offset(k),
        slot_offset(k) + ROW_SIZE <= PAGE_SIZE,
{
    assert(ROWS_PER_PAGE == 14 && ROW_SIZE == 291 && TABLE_MAX_ROWS == 1400);
    lemma_div_is_ordered(k, (TABLE_MAX_ROWS - 1) as int, ROWS_PER_PAGE as int);
    lemma_mod_bound(k, ROWS_PER_PAGE as int);
    lemma_mul_inequality(
        k % (ROWS_PER_PAGE as int),
        (ROWS_PER_PAGE - 1) as int,
        ROW_SIZE as int,
    );
}

/// Distinct row numbers on the same page occupy disjoint byte ranges.
pub proof fn lemma_distinct_slots_disjoint(a: int, b: int)
    requires
        0 <= a,
        0 <= b,
        a != b,
        slot_page(a) == slot_page(b),
    ensures
        slot_offset(a) + ROW_SIZE <= slot_offset(b) || slot_offset(b) + ROW_SIZE <= slot_offset(a),
{
    let rpp = ROWS_PER_PAGE as int;
    assert(ROWS_PER_PAGE == 14 && ROW_SIZE == 291);
    lemma_fundamental_div_mod(a, rpp);
    lemma_fundamental_div_mod(b, rpp);
    lemma_mod_bound(a, rpp);
    lemma_mod_bound(b, rpp);
    if a % rpp < b % rpp {
        lemma_mul_inequality(a % rpp + 1, b % rpp, ROW_SIZE as int);
    } else {
        lemma_mul_inequality(b % rpp + 1, a % rpp, ROW_SIZE as int);
    }
}

impl Table {
    /// Append `row` at the next free slot and count it. Rejected, with the
    /// table unchanged, exactly when the table is already at capacity. All
    /// previously stored rows keep their bytes.
    pub fn insert(&mut self, row: &Row) -> (r: Result<(), CapacityExceeded>)
        requires
            old(self).wf(),
        ensures
            final(self).wf(),
            old(self).num_rows >= TABLE_MAX_ROWS ==> r is Err && *final(self) == *old(self),
            old(self).num_rows < TABLE_MAX_ROWS ==> {
                &&& r is Ok
                &&& final(self).num_rows == old(self).num_rows + 1
                &&& final(self).stored(old(self).num_rows as int) == row_enc(*row)
                &&& forall|k: int|
                    0 <= k < old(self).num_rows ==> final(self).stored(k) == old(self).stored(k)
                &&& final(self).stored_rows() == old(self).stored_rows().push(row_enc(*row))
            },
            final(self).pager.file_length == old(self).pager.file_length,
            final(self).pager.num_pages == old(self).pager.num_pages,
    {
        if self.num_rows >= TABLE_MAX_ROWS {
            return Err(CapacityExceeded);
        }
        let ghost n = self.num_rows as int;
        let slot = self.row_slot(self.num_rows);
        proof {
            lemma_slot_in_bounds(n);
            lemma_row_enc_len(*row);
        }
        self.serialize_row(row, slot);
        self.num_rows = self.num_rows + 1;
        proof {
            let p = slot_page(n);
            let off = slot_offset(n);
            let oldpage = old(self).pager.contents()[p];
            assert(oldpage.len() == PAGE_SIZE);
            assert(self.stored(n) =~= row_enc(*row));
            assert forall|k: int| 0 <= k < n implies self.stored(k) == old(self).stored(k) by {
                lemma_slot_in_bounds(k);
                if slot_page(k) == p {
                    lemma_distinct_slots_disjoint(k, n);
                    assert(self.stored(k) =~= old(self).stored(k));
                } else {
                    assert(self.stored(k) =~= old(self).stored(k));
                }
            }
            assert(self.stored_rows() =~= old(self).stored_rows().push(row_enc(*row)));
        }
        Ok(())
    }

    /// Every stored row, in ascending row-number order — insertion order,
    /// since inserts only append.
    pub fn scan(&self) -> (rows: Vec<Row>)
        requires
            self.wf(),
        ensures
            rows@.len() == self.num_rows,
            forall|k: int| 0 <= k < self.num_rows ==> row_enc(rows@[k]) == self.stored(k),
            rows@.map_values(|r: Row| row_enc(r)) == self.stored_rows(),
    {
        let mut rows: Vec<Row> = Vec::new();
        let mut i: usize = 0;
        while i < self.num_rows
            invariant
                self.wf(),
                i <= self.num_rows,
                rows@.len() == i,
                forall|k: int| 0 <= k < i ==> row_enc(rows@[k]) == self.stored(k),
            decreases self.num_rows - i,
        {
            proof {
                lemma_slot_in_bounds(i as int);
            }
            let slot = self.row_slot(i);
            let row = self.deserialize_row(slot.0, slot.1);
            rows.push(row);
            i = i + 1;
        }
        proof {
            assert(rows@.map_values(|r: Row| row_enc(r)) =~= self.stored_rows());
        }
        rows
    }

    /// Plan a durable shutdown: the writes that carry every occupied,
    /// resident page to disk — fully-occupied pages verbatim, the trailing
    /// partial page truncated to its occupied rows — each buffer reset to
    /// zero (unloaded) as it is flushed. The caller performs the writes at
    /// the given offsets and then asks for an fsync.
    pub fn db_close(&mut self) -> (writes: Vec<PageWrite>)
        requires
            old(self).wf(),
        ensures
            final(self).wf(),
            final(self).num_rows == old(self).num_rows,
            final(self).pager.file_length == old(self).pager.file_length,
            final(self).pager.num_pages == old(self).pager.num_pages,
            writes@.map_values(|w: PageWrite| w.view_pair()) == close_writes(*old(self)),
            forall|i: int|
                0 <= i < TABLE_MAX_PAGES ==> final(self).pager.contents()[i] == (
                if close_flushes(*old(self), i) {
                    zero_page()
                } else {
                    old(self).pager.contents()[i]
                }),
    {
        proof {
            assert(ROW_SIZE == 291);
            assert(PAGE_SIZE == 4096);
            assert(ROWS_PER_PAGE == 14);
            assert(TABLE_MAX_ROWS == 1400);
            assert(TABLE_MAX_PAGES == 100);
            lemma_div_is_ordered(
                self.num_rows as int,
                TABLE_MAX_ROWS as int,
                ROWS_PER_PAGE as int,
            );
        }
        let num_full_pages = self.num_rows / ROWS_PER_PAGE;
        let mut writes: Vec<PageWrite> = Vec::new();
        let mut i: usize = 0;
        while i < num_full_pages
            invariant
                self.pager.wf(),
                self.num_rows == old(self).num_rows,
                self.pager.file_length == old(self).pager.file_length,
                self.pager.num_pages == old(self).pager.num_pages,
                num_full_pages == old(self).num_rows as int / ROWS_PER_PAGE as int,
                num_full_pages <= TABLE_MAX_PAGES,
                i <= num_full_pages,
                writes@.map_values(|w: PageWrite| w.view_pair()) == full_page_writes(
                    old(self).pager.contents(),
                    i as int,
                ),
                forall|j: int|
                    0 <= j < TABLE_MAX_PAGES ==> self.pager.contents()[j] == (
                    if j < i && old(self).pager.contents()[j] != zero_page() {
                        zero_page()
                    } else {
                        old(self).pager.contents()[j]
                    }),
            decreases num_full_pages - i,
        {
            let ghost prev = writes@.map_values(|w: PageWrite| w.view_pair());
            if !self.pager.page_is_zero(i) {
                let w = self.pager.flush(i, None);
                proof {
                    assert(w.bytes@ =~= old(self).pager.contents()[i as int]);
                }
                writes.push(w);
                self.pager.install_page(i, zero_buffer());
                proof {
                    assert(writes@.map_values(|w: PageWrite| w.view_pair()) =~= prev.push(
                        ((i * PAGE_SIZE) as int, old(self).pager.contents()[i as int]),
                    ));
                }
            }
            i = i + 1;
        }
        let num_remaining_rows = self.num_rows % ROWS_PER_PAGE;
        if num_remaining_rows > 0 {
            proof {
                lemma_fundamental_div_mod(old(self).num_rows as int, ROWS_PER_PAGE as int);
                lemma_mod_bound(old(self).num_rows as int, ROWS_PER_PAGE as int);
                assert(num_full_pages < TABLE_MAX_PAGES);
            }
            let ghost prev = writes@.map_values(|w: PageWrite| w.view_pair());
            if !self.pager.page_is_zero(num_full_pages) {
                let w = self.pager.flush(num_full_pages, Some(num_remaining_rows));
                proof {
                    assert(w.bytes@ =~= old(self).pager.contents()[num_full_pages as int].take(
                        num_remaining_rows as int * ROW_SIZE as int,
                    ));
                }
                writes.push(w);
                self.pager.install_page(num_full_pages, zero_buffer());
                proof {
                    assert(writes@.map_values(|w: PageWrite| w.view_pair()) =~= prev.push(
                        (
                            (num_full_pages * PAGE_SIZE) as int,
                            old(self).pager.contents()[num_full_pages as int].take(
                                num_remaining_rows as int * ROW_SIZE as int,
                            ),
                        ),
                    ));
                }
            }
        }
        proof {
            assert(writes@.map_values(|w: PageWrite| w.view_pair()) =~= close_writes(
                *old(self),
            ));
        }
        writes
    }
}

/// The flush plan for the fully-occupied pages among the first `n`: each
/// non-zero (resident) one in full, in ascending page order.
pub open spec fn full_page_writes(pages: Seq<Seq<u8>>, n: int) -> Seq<(int, Seq<u8>)>
    decreases n,
{
    if n <= 0 {
        Seq::empty()
    } else if pages[n - 1] != zero_page() {
        full_page_writes(pages, n - 1) + seq![((n - 1) * (PAGE_SIZE as int), pages[n - 1])]
    } else {
        full_page_writes(pages, n - 1)
    }
}

/// The whole flush plan of a close: every non-zero fully-occupied page in
/// full, then the occupied rows of the trailing partial page if that page is
/// non-zero. Each entry pairs a file offset with the bytes owed there.
pub open spec fn close_writes(t: Table) -> Seq<(int, Seq<u8>)> {
    let full = t.num_rows as int / (ROWS_PER_PAGE as int);
    let rem = t.num_rows as int % (ROWS_PER_PAGE as int);
    full_page_writes(t.pager.contents(), full) + if rem > 0 && t.pager.contents()[full]
        != zero_page() {
        seq![
            (
                full * (PAGE_SIZE as int),
                t.pager.contents()[full].take(rem * (ROW_SIZE as int)),
            ),
        ]
    } else {
        Seq::empty()
    }
}

/// Whether a close of `t` flushes — and zeroes — page `i`.
pub open spec fn close_flushes(t: Table, i: int) -> bool {
    let full = t.num_rows as int / (ROWS_PER_PAGE as int);
    let rem = t.num_rows as int % (ROWS_PER_PAGE as int);
    &&& t.pager.contents()[i] != zero_page()
    &&& (i < full || (i == full && rem > 0))
}

/// Write the encoding of `source` into `page` at byte `off`.
fn write_row(page: &mut Vec<u8>, off: usize, source: &Row)
    requires
        off + ROW_SIZE <= old(page)@.len(),
    ensures
        final(page)@ == splice(old(page)@, off as int, row_enc(*source)),
{
    let plen: usize = page.len();
    proof {
        assert(ID_OFFSET == 0 && USERNAME_OFFSET == 4 && EMAIL_OFFSET == 36 && ROW_SIZE == 291);
    }
    let id_bytes = u32_to_le_bytes(source.id);
    write_bytes(page, off + ID_OFFSET, id_bytes.as_slice());
    write_bytes(page, off + USERNAME_OFFSET, source.username.as_slice());
    write_bytes(page, off + EMAIL_OFFSET, source.email.as_slice());
    proof {
        lemma_auto_spec_u32_to_from_le_bytes();
        assert(final(page)@ =~= splice(old(page)@, off as int, row_enc(*source)));
    }
}

/// Write `bytes` into `page` starting at byte `off`; nothing else moves.
fn write_bytes(page: &mut Vec<u8>, off: usize, bytes: &[u8])
    requires
        off + bytes@.len() <= old(page)@.len(),
    ensures
        final(page)@.len() == old(page)@.len(),
        forall|j: int|
            off <= j < off + bytes@.len() ==> final(page)@[j] == bytes@[j - off],
        forall|j: int|
            0 <= j < old(page)@.len() && !(off <= j < off + bytes@.len()) ==> final(page)@[j]
                == old(page)@[j],
{
    let n = bytes.len();
    let plen: usize = page.len();
    let mut i: usize = 0;
    while i < n
        invariant
            n == bytes@.len(),
            off + n <= old(page)@.len(),
            i <= n,
            plen == old(page)@.len(),
            page@.len() == old(page)@.len(),
            forall|j: int| off <= j < off + i ==> page@[j] == bytes@[j - off],
            forall|j: int|
                0 <= j < old(page)@.len() && !(off <= j < off + i) ==> page@[j] == old(
                    page,
                )@[j],
        decreases n - i,
    {
        page[off + i] = bytes[i];
        i = i + 1;
    }
}

} // verus!
