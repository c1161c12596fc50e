use rsqlite3::row::{Row, EMAIL_SIZE, ID_SIZE, ROW_SIZE, USERNAME_SIZE};
use rsqlite3::table::Table;

#[test]
fn test_row_creation() {
    let row = Row::new();
    assert_eq!(row.id, 0);
    assert_eq!(row.username, [0; 32]);
    assert_eq!(row.email, [0; 255]);
}

#[test]
fn test_row_display() {
    let mut row = Row::new();
    row.id = 1;
    row.username[..5].copy_from_slice(b"alice");
    row.email[..14].copy_from_slice(b"alice@test.com");

    let display_string = row.display_string();
    assert!(display_string.contains("id: 1"));
    assert!(display_string.contains("username: alice"));
    assert!(display_string.contains("email: alice@test.com"));
}

#[test]
fn field_widths_make_one_row() {
    assert_eq!(ID_SIZE, 4);
    assert_eq!(USERNAME_SIZE, 32);
    assert_eq!(EMAIL_SIZE, 255);
    assert_eq!(ROW_SIZE, 291);
}

#[test]
fn row_round_trips_byte_exact() {
    let mut table = Table::db_open(0);
    let mut row = Row::new();
    row.id = 0xDEADBEEF;
    row.username[..3].copy_from_slice(b"bob");
    row.username[31] = 0x7F;
    row.email[..12].copy_from_slice(b"bob@test.com");
    row.email[254] = 0x01;

    let slot = table.row_slot(5);
    table.serialize_row(&row, slot);
    let back = table.deserialize_row(slot.0, slot.1);

    assert_eq!(back.id, row.id);
    assert_eq!(back.username, row.username);
    assert_eq!(back.email, row.email);
}

#[test]
fn id_is_encoded_little_endian() {
    let mut table = Table::db_open(0);
    let mut row = Row::new();
    row.id = 0x01020304;
    table.serialize_row(&row, (0, 0));
    let page = table.pager.page(0);
    assert_eq!(&page[..4], &[0x04, 0x03, 0x02, 0x01]);
}

#[test]
fn default_row_is_fresh() {
    let row = Row::default();
    assert_eq!(row.id, 0);
    assert_eq!(row.username, [0; 32]);
    assert_eq!(row.email, [0; 255]);
}
