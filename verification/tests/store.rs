use rsqlite3::cursor::{Cursor, CursorLocation};
use rsqlite3::pager::{Pager, PAGE_SIZE, TABLE_MAX_PAGES};
use rsqlite3::row::Row;
use rsqlite3::table::Table;

/// Apply one positional write to an in-memory file, growing it (zero-filled)
/// as a sparse file would.
fn apply_write(file: &mut Vec<u8>, offset: u64, bytes: &[u8]) {
    let offset = offset as usize;
    if file.len() < offset + bytes.len() {
        file.resize(offset + bytes.len(), 0);
    }
    file[offset..offset + bytes.len()].copy_from_slice(bytes);
}

/// Reopen a table from an in-memory file: derive the row count from the
/// length, preload each page, zero-extending the short trailing read.
fn reopen(file: &[u8]) -> Table {
    let mut table = Table::db_open(file.len() as u64);
    let num_pages = file.len().div_ceil(PAGE_SIZE);
    for p in 0..num_pages {
        let mut buf = vec![0u8; PAGE_SIZE];
        let start = p * PAGE_SIZE;
        let end = usize::min(start + PAGE_SIZE, file.len());
        buf[..end - start].copy_from_slice(&file[start..end]);
        table.pager.install_page(p, buf);
    }
    table
}

fn sample_row(i: usize) -> Row {
    let mut row = Row::new();
    row.id = i as u32 + 1;
    row.username[..4].copy_from_slice(b"user");
    row.username[4] = b'0' + (i % 10) as u8;
    row.email[..13].copy_from_slice(b"user@test.com");
    row
}

#[test]
fn close_then_reopen_yields_the_same_rows() {
    // One full page plus a partial one: both flush paths are exercised.
    let n = 16;
    let mut table = Table::db_open(0);
    for i in 0..n {
        assert!(table.insert(&sample_row(i)).is_ok());
    }
    let before = table.scan();

    let mut file: Vec<u8> = Vec::new();
    let writes = table.db_close();
    assert_eq!(writes.len(), 2);
    for w in &writes {
        apply_write(&mut file, w.offset, &w.bytes);
    }
    assert_eq!(file.len(), PAGE_SIZE + 2 * 291);

    let reopened = reopen(&file);
    assert_eq!(reopened.num_rows, n);
    let after = reopened.scan();
    assert_eq!(after.len(), before.len());
    for (a, b) in after.iter().zip(before.iter()) {
        assert_eq!(a.id, b.id);
        assert_eq!(a.username, b.username);
        assert_eq!(a.email, b.email);
    }
}

#[test]
fn close_skips_pages_with_no_resident_bytes() {
    let table_size = 3;
    let mut table = Table::db_open(0);
    for i in 0..table_size {
        assert!(table.insert(&sample_row(i)).is_ok());
    }
    let writes = table.db_close();
    // Only the one partial page holds bytes.
    assert_eq!(writes.len(), 1);
    assert_eq!(writes[0].offset, 0);
    assert_eq!(writes[0].bytes.len(), 3 * 291);
    // The flushed buffer was reset to zero: closing again writes nothing.
    let again = table.db_close();
    assert_eq!(again.len(), 0);
}

#[test]
fn pager_open_counts_pages_and_zeroes_buffers() {
    let pager = Pager::pager_open(0);
    assert_eq!(pager.num_pages, 0);
    assert_eq!(pager.pages.len(), TABLE_MAX_PAGES);

    let pager = Pager::pager_open(1);
    assert_eq!(pager.num_pages, 1);

    let pager = Pager::pager_open(PAGE_SIZE as u64);
    assert_eq!(pager.num_pages, 1);

    let pager = Pager::pager_open(PAGE_SIZE as u64 + 1);
    assert_eq!(pager.num_pages, 2);
    assert!(pager.pages.iter().all(|p| p.iter().all(|&b| b == 0)));
}

#[test]
fn fetch_offers_a_cache_fill_only_for_zero_buffers() {
    let mut pager = Pager::pager_open(2 * PAGE_SIZE as u64);
    // Fresh buffers read as unloaded: a fill is due, at the page's offset.
    assert_eq!(pager.fetch_page_offset(0), Some(0));
    assert_eq!(pager.fetch_page_offset(1), Some(PAGE_SIZE as u64));

    let mut buf = vec![0u8; PAGE_SIZE];
    buf[17] = 9;
    pager.install_page(1, buf);
    assert!(!pager.page_is_zero(1));
    assert_eq!(pager.fetch_page_offset(1), None);
    assert_eq!(pager.page(1)[17], 9);
}

#[test]
fn flush_takes_whole_or_partial_pages() {
    let mut pager = Pager::pager_open(0);
    let mut buf = vec![0u8; PAGE_SIZE];
    buf[0] = 1;
    buf[291] = 2;
    buf[2 * 291] = 3;
    pager.install_page(2, buf);

    let whole = pager.flush(2, None);
    assert_eq!(whole.offset, 2 * PAGE_SIZE as u64);
    assert_eq!(whole.bytes.len(), PAGE_SIZE);
    assert_eq!(whole.bytes[291], 2);

    let partial = pager.flush(2, Some(2));
    assert_eq!(partial.offset, 2 * PAGE_SIZE as u64);
    assert_eq!(partial.bytes.len(), 2 * 291);
    assert_eq!(partial.bytes[0], 1);
    assert_eq!(partial.bytes[291], 2);
}

#[test]
fn cursor_walks_to_the_end_of_its_snapshot() {
    let mut cursor = Cursor::table_start(2);
    assert_eq!(cursor.row_num, 0);
    assert!(!cursor.end_of_table);
    cursor.advance();
    assert_eq!(cursor.row_num, 1);
    assert!(!cursor.end_of_table);
    cursor.advance();
    assert_eq!(cursor.row_num, 2);
    assert!(cursor.end_of_table);

    let empty = Cursor::table_start(0);
    assert!(empty.end_of_table);

    let at_end = Cursor::table_end(5, 5);
    assert_eq!(at_end.row_num, 5);
    assert!(at_end.end_of_table);
}

#[test]
fn cursor_locations_compare_at_start_only() {
    assert!(CursorLocation::Start == CursorLocation::Start);
    assert!(CursorLocation::Start != CursorLocation::End);
    // The comparison recognises only the start; two end markers never match.
    assert!(CursorLocation::End != CursorLocation::End);
}
