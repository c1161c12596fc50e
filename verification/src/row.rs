//! The row codec: a fixed-layout record and its byte encoding.
//!
//! A row is packed as the 4-byte little-endian id, then the raw 32-byte
//! username field, then the raw 255-byte email field. The text fields are
//! fixed-width and zero-padded; nothing assumes a terminator.

use vstd::bytes::{lemma_auto_spec_u32_to_from_le_bytes, spec_u32_to_le_bytes};
use vstd::prelude::*;

verus! {

/// Width of the id field in bytes.
pub const ID_SIZE: usize = 4;

/// Width of the username field in bytes.
pub const USERNAME_SIZE: usize = 32;

/// Width of the email field in bytes.
pub const EMAIL_SIZE: usize = 255;

/// Byte offset of the id field within an encoded row.
pub const ID_OFFSET: usize = 0;

/// Byte offset of the username field within an encoded row.
pub const USERNAME_OFFSET: usize = ID_OFFSET + ID_SIZE;

/// Byte offset of the email field within an encoded row.
pub const EMAIL_OFFSET: usize = USERNAME_OFFSET + USERNAME_SIZE;

/// Total size of one encoded row: id, username and email, back to back.
pub const ROW_SIZE: usize = ID_SIZE + USERNAME_SIZE + EMAIL_SIZE;

/// One fixed-layout record. The text fields are zero-padded byte arrays,
/// interpreted as UTF-8 (lossily) only for display.
#[derive(Clone, Copy)]
pub struct Row {
    pub id: u32,
    pub username: [u8; USERNAME_SIZE],
    pub email: [u8; EMAIL_SIZE],
}

/// A sequence of `n` zero bytes.
pub open spec fn zero_bytes(n: nat) -> Seq<u8> {
    Seq::new(n, |i: int| 0u8)
}

/// The byte encoding of a row: little-endian id, then the two raw fields.
pub open spec fn row_enc(r: Row) -> Seq<u8> {
    spec_u32_to_le_bytes(r.id) + r.username@ + r.email@
}

/// The encoding of any row is exactly `ROW_SIZE` bytes.
pub proof fn lemma_row_enc_len(r: Row)
    ensures
        row_enc(r).len() == ROW_SIZE,
{
    lemma_auto_spec_u32_to_from_le_bytes();
}

/// Rows with the same encoding are the same row: the codec never conflates
/// two distinct records.
pub proof fn lemma_row_enc_injective(a: Row, b: Row)
    requires
        row_enc(a) == row_enc(b),
    ensures
        a == b,
{
    lemma_auto_spec_u32_to_from_le_bytes();
    assert(spec_u32_to_le_bytes(a.id) =~= row_enc(a).subrange(0, ID_SIZE as int));
    assert(spec_u32_to_le_bytes(b.id) =~= row_enc(b).subrange(0, ID_SIZE as int));
    assert(a.username@ =~= row_enc(a).subrange(
        USERNAME_OFFSET as int,
        USERNAME_OFFSET as int + USERNAME_SIZE as int,
    ));
    assert(b.username@ =~= row_enc(b).subrange(
        USERNAME_OFFSET as int,
        USERNAME_OFFSET as int + USERNAME_SIZE as int,
    ));
    assert(a.email@ =~= row_enc(a).subrange(
        EMAIL_OFFSET as int,
        EMAIL_OFFSET as int + EMAIL_SIZE as int,
    ));
    assert(b.email@ =~= row_enc(b).subrange(
        EMAIL_OFFSET as int,
        EMAIL_OFFSET as int + EMAIL_SIZE as int,
    ));
    assert(a.username =~= b.username);
    assert(a.email =~= b.email);
}

impl Row {
    /// A fresh row: id zero, both text fields fully zero-padded.
    pub fn new() -> (r: Row)
        ensures
            r.id == 0,
            r.username@ == zero_bytes(USERNAME_SIZE as nat),
            r.email@ == zero_bytes(EMAIL_SIZE as nat),
    {
        let r = Row { id: 0, username: [0u8; USERNAME_SIZE], email: [0u8; EMAIL_SIZE] };
        proof {
            assert(r.username@ =~= zero_bytes(USERNAME_SIZE as nat));
            assert(r.email@ =~= zero_bytes(EMAIL_SIZE as nat));
        }
        r
    }
}

/// What the human-readable rendering of a row's fields is. The text fields
/// are decoded as UTF-8, lossily; the rendering is a function of the field
/// values alone.
pub uninterp spec fn row_display(id: u32, username: Seq<u8>, email: Seq<u8>) -> Seq<char>;

impl Row {
    /// The row rendered for humans.
    ///
    /// Relies on `String::from_utf8_lossy`: the decoding, and with it the
    /// whole rendered line, depends on the row's fields alone.
    #[verifier::external_body]
    pub fn display_string(&self) -> (s: String)
        ensures
            s@ == row_display(self.id, self.username@, self.email@),
    {
        format!(
            "Row {{ id: {}, username: {}, email: {} }}",
            self.id,
            String::from_utf8_lossy(&self.username),
            String::from_utf8_lossy(&self.email),
        )
    }
}

impl Default for Row {
    /// The same fresh row [`Row::new`] builds.
    fn default() -> (r: Row)
        ensures
            r.id == 0,
            r.username@ == zero_bytes(USERNAME_SIZE as nat),
            r.email@ == zero_bytes(EMAIL_SIZE as nat),
    {
        Row::new()
    }
}

} // verus!
