//! The file model behind a durable shutdown: what the flush plan of
//! [`crate::table::Table::db_close`] leaves on disk, and why a table
//! reopened from that file stores exactly the rows the closed table stored.

use crate::pager::{zero_page, PAGE_SIZE, TABLE_MAX_PAGES};
use crate::row::ROW_SIZE;
use crate::table::{
    close_writes, full_page_writes, slot_offset, slot_page, Table, ROWS_PER_PAGE,
};
use vstd::arithmetic::div_mod::{
    lemma_div_pos_is_pos, lemma_fundamental_div_mod, lemma_fundamental_div_mod_converse,
    lemma_mod_bound,
};
use vstd::prelude::*;

verus! {

/// A positional write: `bytes` placed at byte `off` of `file`. The file
/// grows as needed, and a gap between the old end and `off` reads as zeros,
/// as the skipped stretch of a sparse file does.
pub open spec fn store_at(file: Seq<u8>, off: int, bytes: Seq<u8>) -> Seq<u8>
    recommends
        0 <= off,
{
    let n = if file.len() >= off + bytes.len() {
        file.len() as int
    } else {
        off + bytes.len()
    };
    Seq::new(
        n as nat,
        |i: int|
            if off <= i < off + bytes.len() {
                bytes[i - off]
            } else if i < file.len() {
                file[i]
            } else {
                0u8
            },
    )
}

/// A sequence of positional writes applied in order.
pub open spec fn apply_writes(file: Seq<u8>, ws: Seq<(int, Seq<u8>)>) -> Seq<u8>
    decreases ws.len(),
{
    if ws.len() == 0 {
        file
    } else {
        store_at(apply_writes(file, ws.drop_last()), ws.last().0, ws.last().1)
    }
}

/// The byte a file reads at position `i`, zero past end-of-file — what a
/// read that tolerates hitting end-of-file leaves in a zero-filled buffer.
pub open spec fn byte_at(file: Seq<u8>, i: int) -> u8 {
    if 0 <= i < file.len() {
        file[i]
    } else {
        0u8
    }
}

/// The page a file holds at page number `p`: one full page of bytes,
/// zero-extended past end-of-file.
pub open spec fn file_page(file: Seq<u8>, p: int) -> Seq<u8> {
    Seq::new(PAGE_SIZE as nat, |i: int| byte_at(file, p * PAGE_SIZE + i))
}

/// Applying concatenated write plans is applying one after the other.
proof fn lemma_apply_writes_concat(file: Seq<u8>, a: Seq<(int, Seq<u8>)>, b: Seq<(int, Seq<u8>)>)
    ensures
        apply_writes(file, a + b) == apply_writes(apply_writes(file, a), b),
    decreases b.len(),
{
    if b.len() == 0 {
        assert(a + b =~= a);
    } else {
        lemma_apply_writes_concat(file, a, b.drop_last());
        assert((a + b).drop_last() =~= a + b.drop_last());
        assert((a + b).last() == b.last());
    }
}

/// What the flush plan for the first `n` fully-occupied pages builds, applied
/// to an empty file: a file no longer than `n` pages that reads back, page by
/// page, exactly the buffered bytes — a skipped all-zero page reads back as
/// its zeros. When the last of the `n` pages is non-zero the file ends
/// exactly at the `n`-page mark.
proof fn lemma_full_pages_image(pages: Seq<Seq<u8>>, n: int)
    requires
        0 <= n <= pages.len(),
        forall|p: int| 0 <= p < n ==> (#[trigger] pages[p]).len() == PAGE_SIZE,
    ensures
        apply_writes(Seq::empty(), full_page_writes(pages, n)).len() <= n * PAGE_SIZE,
        n > 0 && pages[n - 1] != zero_page() ==> apply_writes(
            Seq::empty(),
            full_page_writes(pages, n),
        ).len() == n * PAGE_SIZE,
        forall|i: int|
            0 <= i < n * PAGE_SIZE ==> byte_at(
                apply_writes(Seq::empty(), full_page_writes(pages, n)),
                i,
            ) == pages[i / (PAGE_SIZE as int)][i % (PAGE_SIZE as int)],
    decreases n,
{
    assert(PAGE_SIZE == 4096);
    if n > 0 {
        lemma_full_pages_image(pages, n - 1);
        let prev = apply_writes(Seq::empty(), full_page_writes(pages, n - 1));
        let cur = apply_writes(Seq::empty(), full_page_writes(pages, n));
        if pages[n - 1] != zero_page() {
            let w = seq![((n - 1) * (PAGE_SIZE as int), pages[n - 1])];
            lemma_apply_writes_concat(
                Seq::empty(),
                full_page_writes(pages, n - 1),
                w,
            );
            assert(w.drop_last() =~= Seq::<(int, Seq<u8>)>::empty());
            assert(w.drop_last().len() == 0);
            assert(apply_writes(prev, w.drop_last()) == prev);
            assert(apply_writes(prev, w) == store_at(prev, (n - 1) * (PAGE_SIZE as int), pages[n - 1]));
            assert(cur.len() == n * PAGE_SIZE);
        } else {
            assert(full_page_writes(pages, n) == full_page_writes(pages, n - 1));
            assert(cur == prev);
        }
        assert forall|i: int| 0 <= i < n * PAGE_SIZE implies byte_at(cur, i) == pages[i / (
        PAGE_SIZE as int)][i % (PAGE_SIZE as int)] by {
            if i < (n - 1) * PAGE_SIZE {
                assert(byte_at(cur, i) == byte_at(prev, i));
            } else {
                let j = i - (n - 1) * PAGE_SIZE;
                lemma_fundamental_div_mod_converse(i, PAGE_SIZE as int, n - 1, j);
                if pages[n - 1] != zero_page() {
                    assert(byte_at(cur, i) == pages[n - 1][j]);
                } else {
                    assert(byte_at(cur, i) == 0u8);
                    assert(pages[n - 1][j] == zero_page()[j]);
                }
            }
        }
    }
}

/// Durability of a close: replaying the flush plan of a well-formed table
/// onto an empty file yields a file whose length derives back to the same
/// row count and whose pages read back every stored row, byte for byte. A
/// table reopened from that file therefore scans the same rows.
///
/// Two boundary conditions are genuinely needed. The per-page padding (the
/// unused tail of each full page) lands in the file and is counted by the
/// reopening division, so the full pages' accumulated padding must stay
/// under one row; and the trailing occupied page must not be all zeros,
/// since the close plan skips all-zero buffers and the file would otherwise
/// end short of the last rows.
pub proof fn lemma_close_reopen_preserves_rows(t: Table)
    requires
        t.wf(),
        (PAGE_SIZE - ROWS_PER_PAGE * ROW_SIZE) * (t.num_rows as int / (ROWS_PER_PAGE as int))
            < ROW_SIZE,
        t.num_rows as int % (ROWS_PER_PAGE as int) > 0 ==> t.pager.contents()[t.num_rows as int
            / (ROWS_PER_PAGE as int)] != zero_page(),
        t.num_rows as int % (ROWS_PER_PAGE as int) == 0 && t.num_rows > 0
            ==> t.pager.contents()[t.num_rows as int / (ROWS_PER_PAGE as int) - 1] != zero_page(),
    ensures
        ({
            let file = apply_writes(Seq::empty(), close_writes(t));
            &&& file.len() as int / (ROW_SIZE as int) == t.num_rows
            &&& forall|k: int|
                0 <= k < t.num_rows ==> file_page(file, slot_page(k)).subrange(
                    slot_offset(k),
                    slot_offset(k) + ROW_SIZE,
                ) == t.stored(k)
        }),
{
    assert(PAGE_SIZE == 4096);
    assert(ROW_SIZE == 291);
    assert(ROWS_PER_PAGE == 14);
    let rpp = ROWS_PER_PAGE as int;
    let rs = ROW_SIZE as int;
    let ps = PAGE_SIZE as int;
    let nrows = t.num_rows as int;
    let full = nrows / rpp;
    let rem = nrows % rpp;
    lemma_fundamental_div_mod(nrows, rpp);
    lemma_mod_bound(nrows, rpp);
    let pages = t.pager.contents();
    let file = apply_writes(Seq::empty(), close_writes(t));
    lemma_full_pages_image(pages, full);
    let g = apply_writes(Seq::empty(), full_page_writes(pages, full));
    if rem > 0 {
        let bytes = pages[full].take(rem * rs);
        let w = seq![(full * ps, bytes)];
        lemma_apply_writes_concat(Seq::empty(), full_page_writes(pages, full), w);
        assert(close_writes(t) == full_page_writes(pages, full) + w);
        assert(file == apply_writes(g, w));
        assert(w.drop_last() =~= Seq::<(int, Seq<u8>)>::empty());
        assert(w.drop_last().len() == 0);
        assert(apply_writes(g, w.drop_last()) == g);
        assert(file == store_at(g, full * ps, bytes));
        assert(file.len() == full * ps + rem * rs);
    } else {
        assert(close_writes(t) =~= full_page_writes(pages, full));
        assert(file == g);
        if full > 0 {
            assert(file.len() == full * ps);
        } else {
            assert(full_page_writes(pages, 0) =~= Seq::<(int, Seq<u8>)>::empty());
            assert(file.len() == 0);
        }
    }
    // The reopening division recovers the row count: the file length is
    // ROW_SIZE * num_rows plus the full pages' padding, which stays under
    // one row.
    assert(file.len() == nrows * rs + full * (ps - rpp * rs)) by {
        assert(full * ps == full * (rpp * rs) + full * (ps - rpp * rs)) by (nonlinear_arith);
        assert(full * (rpp * rs) + rem * rs == (full * rpp + rem) * rs) by (nonlinear_arith);
    }
    lemma_div_pos_is_pos(nrows, rpp);
    assert(0 <= full * (ps - rpp * rs)) by (nonlinear_arith)
        requires
            full >= 0,
            ps - rpp * rs >= 0,
    ;
    assert(full * (ps - rpp * rs) == (ps - rpp * rs) * full) by (nonlinear_arith);
    lemma_fundamental_div_mod_converse(
        file.len() as int,
        rs,
        nrows,
        full * (ps - rpp * rs),
    );
    // Every stored row reads back from the file at its slot.
    assert forall|k: int| 0 <= k < t.num_rows implies file_page(file, slot_page(k)).subrange(
        slot_offset(k),
        slot_offset(k) + ROW_SIZE,
    ) == t.stored(k) by {
        crate::table::lemma_slot_in_bounds(k);
        lemma_fundamental_div_mod(k, rpp);
        lemma_mod_bound(k, rpp);
        let p = slot_page(k);
        let off = slot_offset(k);
        assert(p <= full);
        assert forall|j: int| off <= j < off + rs implies byte_at(file, p * ps + j) == pages[p][j]
        by {
            let i = p * ps + j;
            lemma_fundamental_div_mod_converse(i, ps, p, j);
            if p < full {
                assert(i < full * ps) by {
                    assert((p + 1) * ps <= full * ps) by (nonlinear_arith)
                        requires
                            p + 1 <= full,
                            ps > 0,
                    ;
                }
                assert(byte_at(g, i) == pages[i / ps][i % ps]);
                if rem > 0 {
                    assert(byte_at(file, i) == byte_at(g, i));
                }
            } else {
                // The row lives on the trailing partial page.
                assert(rem > 0);
                assert(k % rpp < rem);
                assert(j < rem * rs) by {
                    assert((k % rpp + 1) * rs <= rem * rs) by (nonlinear_arith)
                        requires
                            k % rpp + 1 <= rem,
                            rs > 0,
                    ;
                }
                assert(byte_at(file, i) == pages[full].take(rem * rs)[j]);
            }
        }
        assert(file_page(file, p).subrange(off, off + rs) =~= t.stored(k));
    }
}

/// A table reopened from the closed file scans the same rows: its row count
/// comes from the file length, its pager holds each page of the file (pages
/// past end-of-file read as zeros, as the preload leaves them), and then it
/// stores byte-for-byte what the closed table stored.
pub proof fn lemma_reopened_table_matches(t: Table, file: Seq<u8>, t2: Table)
    requires
        t.wf(),
        (PAGE_SIZE - ROWS_PER_PAGE * ROW_SIZE) * (t.num_rows as int / (ROWS_PER_PAGE as int))
            < ROW_SIZE,
        t.num_rows as int % (ROWS_PER_PAGE as int) > 0 ==> t.pager.contents()[t.num_rows as int
            / (ROWS_PER_PAGE as int)] != zero_page(),
        t.num_rows as int % (ROWS_PER_PAGE as int) == 0 && t.num_rows > 0
            ==> t.pager.contents()[t.num_rows as int / (ROWS_PER_PAGE as int) - 1] != zero_page(),
        file == apply_writes(Seq::empty(), close_writes(t)),
        t2.num_rows == file.len() as int / (ROW_SIZE as int),
        forall|p: int| 0 <= p < TABLE_MAX_PAGES ==> t2.pager.contents()[p] == file_page(file, p),
    ensures
        t2.num_rows == t.num_rows,
        forall|k: int| 0 <= k < t.num_rows ==> t2.stored(k) == t.stored(k),
{
    lemma_close_reopen_preserves_rows(t);
    assert forall|k: int| 0 <= k < t.num_rows implies t2.stored(k) == t.stored(k) by {
        crate::table::lemma_slot_in_bounds(k);
    }
}

} // verus!
