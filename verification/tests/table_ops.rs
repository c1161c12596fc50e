use rsqlite3::row::{Row, ROW_SIZE};
use rsqlite3::table::{CapacityExceeded, Table, ROWS_PER_PAGE, TABLE_MAX_ROWS};

#[test]
fn test_table_serialization_deserialization() {
    let mut table = Table::db_open(0);
    let mut row = Row::new();
    row.id = 42;
    row.username[..5].copy_from_slice(b"alice");
    row.email[..14].copy_from_slice(b"alice@test.com");

    // Slot calculation for the first row.
    let slot = table.row_slot(0);
    assert_eq!(slot.0, 0); // First page
    assert_eq!(slot.1, 0); // First position

    table.serialize_row(&row, slot);

    let deserialized_row = table.deserialize_row(slot.0, slot.1);
    assert_eq!(deserialized_row.id, 42);
    assert_eq!(&deserialized_row.username[..5], b"alice");
    assert_eq!(&deserialized_row.email[..14], b"alice@test.com");
}

#[test]
fn test_table_multiple_rows() {
    let mut table = Table::db_open(0);

    let mut row1 = Row::new();
    row1.id = 1;
    row1.username[..3].copy_from_slice(b"bob");
    row1.email[..12].copy_from_slice(b"bob@test.com");

    let mut row2 = Row::new();
    row2.id = 2;
    row2.username[..5].copy_from_slice(b"alice");
    row2.email[..14].copy_from_slice(b"alice@test.com");

    let slot1 = table.row_slot(0);
    let slot2 = table.row_slot(1);
    table.serialize_row(&row1, slot1);
    table.serialize_row(&row2, slot2);

    let retrieved_row1 = table.deserialize_row(slot1.0, slot1.1);
    let retrieved_row2 = table.deserialize_row(slot2.0, slot2.1);

    assert_eq!(retrieved_row1.id, 1);
    assert_eq!(&retrieved_row1.username[..3], b"bob");
    assert_eq!(&retrieved_row1.email[..12], b"bob@test.com");

    assert_eq!(retrieved_row2.id, 2);
    assert_eq!(&retrieved_row2.username[..5], b"alice");
    assert_eq!(&retrieved_row2.email[..14], b"alice@test.com");
}

#[test]
fn test_table_page_boundary() {
    let mut table = Table::db_open(0);

    // Fill one page and spill over onto the next.
    let rows_for_test = ROWS_PER_PAGE + 2;

    for i in 0..rows_for_test {
        let mut row = Row::new();
        row.id = i as u32;
        row.username[..4].copy_from_slice(b"user");
        row.email[..13].copy_from_slice(b"user@test.com");

        let slot = table.row_slot(table.num_rows);
        table.serialize_row(&row, slot);
        table.num_rows += 1;
        println!("slot: {:?}, i: {}", slot, i);
        assert_eq!(slot.0, i / ROWS_PER_PAGE);
        assert_eq!(slot.1, (i % ROWS_PER_PAGE) * ROW_SIZE);
    }

    for i in 0..rows_for_test {
        let slot = table.row_slot(i);
        let retrieved_row = table.deserialize_row(slot.0, slot.1);
        assert_eq!(retrieved_row.id, i as u32);
        assert_eq!(&retrieved_row.username[..4], b"user");
        assert_eq!(&retrieved_row.email[..13], b"user@test.com");
    }

    assert!(table.pager.pages.len() > 1);
}

#[test]
fn stride_matches_fixed_constants() {
    assert_eq!(ROWS_PER_PAGE, 14);
    let table = Table::db_open(0);
    assert_eq!(table.row_slot(0), (0, 0));
    assert_eq!(table.row_slot(13), (0, 13 * 291));
    assert_eq!(table.row_slot(14), (1, 0));
    assert_eq!(table.row_slot(20), (20 / 14, (20 % 14) * 291));
    assert_eq!(table.row_slot(1399), (99, 13 * 291));
}

#[test]
fn scan_returns_rows_in_insertion_order() {
    let mut table = Table::db_open(0);
    for id in [1u32, 2, 3] {
        let mut row = Row::new();
        row.id = id;
        assert!(table.insert(&row).is_ok());
    }
    let rows = table.scan();
    let ids: Vec<u32> = rows.iter().map(|r| r.id).collect();
    assert_eq!(ids, vec![1, 2, 3]);
}

#[test]
fn insert_example_row_and_scan_it_back() {
    let mut table = Table::db_open(0);
    let mut row = Row::new();
    row.id = 1;
    row.username[..5].copy_from_slice(b"user1");
    row.email[..17].copy_from_slice(b"user1@example.com");
    assert!(table.insert(&row).is_ok());

    let rows = table.scan();
    assert_eq!(rows.len(), 1);
    assert_eq!(rows[0].id, 1);
    let mut expected_username = [0u8; 32];
    expected_username[..5].copy_from_slice(b"user1");
    let mut expected_email = [0u8; 255];
    expected_email[..17].copy_from_slice(b"user1@example.com");
    assert_eq!(rows[0].username, expected_username);
    assert_eq!(rows[0].email, expected_email);
}

#[test]
fn insert_rejects_exactly_at_capacity() {
    let mut table = Table::db_open(0);
    for i in 0..TABLE_MAX_ROWS {
        let mut row = Row::new();
        row.id = i as u32;
        assert!(table.insert(&row).is_ok());
    }
    assert_eq!(table.num_rows, TABLE_MAX_ROWS);

    let mut overflow_row = Row::new();
    overflow_row.id = 9999;
    let result = table.insert(&overflow_row);
    assert!(matches!(result, Err(CapacityExceeded)));
    assert_eq!(table.num_rows, TABLE_MAX_ROWS);

    // The stored rows are untouched by the rejected insert.
    let rows = table.scan();
    assert_eq!(rows.len(), TABLE_MAX_ROWS);
    assert_eq!(rows[TABLE_MAX_ROWS - 1].id, (TABLE_MAX_ROWS - 1) as u32);
}

#[test]
fn inserts_cross_the_page_boundary() {
    let mut table = Table::db_open(0);
    let n = ROWS_PER_PAGE + 2;
    for i in 0..n {
        let mut row = Row::new();
        row.id = i as u32;
        let slot = table.row_slot(table.num_rows);
        assert_eq!(slot.0, if i < ROWS_PER_PAGE { 0 } else { 1 });
        assert!(table.insert(&row).is_ok());
    }
    let rows = table.scan();
    assert_eq!(rows.len(), n);
    for (i, row) in rows.iter().enumerate() {
        assert_eq!(row.id, i as u32);
    }
}
