//! A minimal disk-backed row store: the page/table layer beneath a toy SQL
//! front end.
//!
//! The crate holds the core subsystems — the row codec, the page cache
//! (pager), the table layout, and the cursor — with machine-checked
//! contracts. File handles and the actual reads, writes and fsync live
//! outside the library: the pager and table compute which bytes belong at
//! which file offset, and hand those decisions out as plain values.

pub mod cursor;
pub mod durability;
pub mod pager;
pub mod row;
pub mod table;
