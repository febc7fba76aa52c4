//! The 32-byte record of the root directory.

use crate::codec::{
    append_bytes, append_u16, append_u32, get_u16, get_u32, le_u16, le_u32, u16_le_bytes,
    u32_le_bytes,
};
use crate::error::FatError;
use crate::fat::names::{
    ascii_upper, base_part, extension_part, find_split, fits_8_3, is_split, lemma_split_unique,
    shown_name, stored_byte, to_ascii_upper, trimmed_len, DOT, EXTENSION_WIDTH, NAME_WIDTH,
    SPACE,
};
use crate::text::{decimal, decimal_text, hex, hex_text, string_from_utf8};
use vstd::prelude::*;
use vstd::string::StringExecFns;
use vstd::utf8::{decode_utf8, encode_utf8, valid_utf8};

verus! {

/// The size in bytes of one directory record.
pub const BYTES_PER_ROOT_ENTRY: usize = 32;

/// The attribute bit of a read-only file.
pub const ATTR_READ_ONLY: u8 = 0x01;

/// The attribute bit of a hidden file.
pub const ATTR_HIDDEN: u8 = 0x02;

/// The attribute bit of a system file.
pub const ATTR_SYSTEM: u8 = 0x04;

/// The attribute bit of the record that holds the volume's label.
pub const ATTR_VOLUME_LABEL: u8 = 0x08;

/// The attribute bit of a subdirectory.
pub const ATTR_SUBDIR: u8 = 0x10;

/// The attribute bit of a file changed since the last backup.
pub const ATTR_ARCHIVE: u8 = 0x20;

/// The first name byte of a slot that ends the directory.
pub const SLOT_END: u8 = 0x00;

/// The first name byte of a slot whose file was deleted.
pub const SLOT_DELETED: u8 = 0xe5;

/// One record of the root directory, field by field.
#[derive(Clone, Copy, Debug, PartialEq, Eq)]
#[verifier::ext_equal]
pub struct RootEntry {
    pub filename: [u8; 8],
    pub extension: [u8; 3],
    pub attrs: u8,
    pub reserved: u16,
    pub creation_time: u16,
    pub creation_date: u16,
    pub last_access_date: u16,
    pub ignored: u16,
    pub last_write_time: u16,
    pub last_write_date: u16,
    pub first_logical_cluster: u16,
    pub file_size: u32,  // in bytes
}

/// `attrs` with the bits of `mask` cleared and then, if `on`, set.
pub open spec fn with_flag(attrs: u8, mask: u8, on: bool) -> u8 {
    (attrs & !mask) | (if on {
        mask
    } else {
        0
    })
}

/// Whether every bit of `mask` is set in `attrs`.
pub open spec fn has_flag(attrs: u8, mask: u8) -> bool {
    attrs & mask == mask
}

/// The record that 32 bytes of a directory spell.
pub open spec fn entry_of(bytes: Seq<u8>) -> RootEntry {
    RootEntry {
        filename: [
            bytes[0],
            bytes[1],
            bytes[2],
            bytes[3],
            bytes[4],
            bytes[5],
            bytes[6],
            bytes[7],
        ],
        extension: [bytes[8], bytes[9], bytes[10]],
        attrs: bytes[11],
        reserved: le_u16(bytes, 12) as u16,
        creation_time: le_u16(bytes, 14) as u16,
        creation_date: le_u16(bytes, 16) as u16,
        last_access_date: le_u16(bytes, 18) as u16,
        ignored: le_u16(bytes, 20) as u16,
        last_write_time: le_u16(bytes, 22) as u16,
        last_write_date: le_u16(bytes, 24) as u16,
        first_logical_cluster: le_u16(bytes, 26) as u16,
        file_size: le_u32(bytes, 28) as u32,
    }
}

impl RootEntry {
    /// The record of a file without name, data or attributes: both name
    /// fields hold spaces, everything else is zero.
    pub open spec fn blank() -> RootEntry {
        RootEntry {
            filename: [0x20u8, 0x20u8, 0x20u8, 0x20u8, 0x20u8, 0x20u8, 0x20u8, 0x20u8],
            extension: [0x20u8, 0x20u8, 0x20u8],
            attrs: 0,
            reserved: 0,
            creation_time: 0,
            creation_date: 0,
            last_access_date: 0,
            ignored: 0,
            last_write_time: 0,
            last_write_date: 0,
            first_logical_cluster: 0,
            file_size: 0,
        }
    }

    /// The 32 bytes that spell this record on disk.
    pub open spec fn encoded(&self) -> Seq<u8> {
        self.filename@ + self.extension@ + seq![self.attrs] + u16_le_bytes(self.reserved)
            + u16_le_bytes(self.creation_time) + u16_le_bytes(self.creation_date) + u16_le_bytes(
            self.last_access_date,
        ) + u16_le_bytes(self.ignored) + u16_le_bytes(self.last_write_time) + u16_le_bytes(
            self.last_write_date,
        ) + u16_le_bytes(self.first_logical_cluster) + u32_le_bytes(self.file_size)
    }

    /// The name under which the record is shown and looked up: the base name
    /// without its trailing spaces, a dot, and the extension as stored.
    pub open spec fn display_name(&self) -> Seq<u8> {
        shown_name(self.filename@, self.extension@)
    }

    /// The stored name as it is: base name, a dot, extension.
    pub open spec fn full_name(&self) -> Seq<u8> {
        self.filename@ + seq![DOT] + self.extension@
    }

    /// The eleven bytes of the two name fields, one after the other.
    pub open spec fn label(&self) -> Seq<u8> {
        self.filename@ + self.extension@
    }

    /// The base-name field that stores the 8.3 name `name`.
    pub open spec fn name_field(name: Seq<u8>) -> [u8; 8] {
        let part = base_part(name);
        [
            stored_byte(part, 0),
            stored_byte(part, 1),
            stored_byte(part, 2),
            stored_byte(part, 3),
            stored_byte(part, 4),
            stored_byte(part, 5),
            stored_byte(part, 6),
            stored_byte(part, 7),
        ]
    }

    /// The extension field that stores the 8.3 name `name`.
    pub open spec fn extension_field(name: Seq<u8>) -> [u8; 3] {
        let part = extension_part(name);
        [stored_byte(part, 0), stored_byte(part, 1), stored_byte(part, 2)]
    }

    /// This record under the 8.3 name `name`.
    pub open spec fn renamed(&self, name: Seq<u8>) -> RootEntry {
        RootEntry {
            filename: Self::name_field(name),
            extension: Self::extension_field(name),
            ..*self
        }
    }

    /// The name of the file as text, or `bad filename` where the stored name
    /// is not well-formed UTF-8.
    pub open spec fn name_text(&self) -> Seq<char> {
        if valid_utf8(self.display_name()) {
            decode_utf8(self.display_name())
        } else {
            "bad filename"@
        }
    }

    /// The record written out field by field, one field to a line: the name
    /// between quotes, the attribute byte, the times and dates and the first
    /// cluster in decimal digits, and the size in hexadecimal digits between
    /// quotes.
    pub open spec fn dump_text(&self) -> Seq<char> {
        "RootEntry {\n    filename: \""@ + self.name_text() + "\",\n    attrs: "@ + decimal_text(
            self.attrs as nat,
        ) + ",\n    creation_time: "@ + decimal_text(self.creation_time as nat)
            + ",\n    creation_date: "@ + decimal_text(self.creation_date as nat)
            + ",\n    last_access_date: "@ + decimal_text(self.last_access_date as nat)
            + ",\n    last_write_time: "@ + decimal_text(self.last_write_time as nat)
            + ",\n    last_write_date: "@ + decimal_text(self.last_write_date as nat)
            + ",\n    first_logical_cluster: "@ + decimal_text(self.first_logical_cluster as nat)
            + ",\n    file_size: \""@ + hex_text(self.file_size as nat) + "\",\n}"@
    }

    /// Whether the slot holds no file: it ends the directory or was deleted.
    pub open spec fn free(&self) -> bool {
        self.filename[0] == SLOT_END || self.filename[0] == SLOT_DELETED
    }

    /// Whether the slot ends the directory.
    pub open spec fn ends_directory(&self) -> bool {
        self.filename[0] == SLOT_END
    }

    /// A record without name, data or attributes: the name fields hold spaces,
    /// every number is zero.
    pub fn new() -> (entry: RootEntry)
        ensures
            entry == RootEntry::blank(),
    {
        RootEntry {
            filename: [0x20u8; 8],
            extension: [0x20u8; 3],
            attrs: 0,
            reserved: 0,
            creation_time: 0,
            creation_date: 0,
            last_access_date: 0,
            ignored: 0,
            last_write_time: 0,
            last_write_date: 0,
            first_logical_cluster: 0,
            file_size: 0,
        }
    }

    /// Decodes the record that the first 32 bytes of `bytes` spell.
    pub fn from_bytes(bytes: &[u8]) -> (r: Result<RootEntry, FatError>)
        ensures
            bytes@.len() >= BYTES_PER_ROOT_ENTRY ==> r == Ok::<RootEntry, FatError>(
                entry_of(bytes@),
            ),
            bytes@.len() < BYTES_PER_ROOT_ENTRY ==> r == Err::<RootEntry, FatError>(
                FatError::Bounds,
            ),
    {
        if bytes.len() < BYTES_PER_ROOT_ENTRY {
            return Err(FatError::Bounds);
        }
        Ok(Self::decode(bytes))
    }

    /// Decodes the record that the first 32 bytes of `bytes` spell.
    pub(crate) fn decode(bytes: &[u8]) -> (entry: RootEntry)
        requires
            bytes@.len() >= BYTES_PER_ROOT_ENTRY,
        ensures
            entry == entry_of(bytes@),
    {
        let entry = RootEntry {
            filename: [
                bytes[0],
                bytes[1],
                bytes[2],
                bytes[3],
                bytes[4],
                bytes[5],
                bytes[6],
                bytes[7],
            ],
            extension: [bytes[8], bytes[9], bytes[10]],
            attrs: bytes[11],
            reserved: get_u16(bytes, 12),
            creation_time: get_u16(bytes, 14),
            creation_date: get_u16(bytes, 16),
            last_access_date: get_u16(bytes, 18),
            ignored: get_u16(bytes, 20),
            last_write_time: get_u16(bytes, 22),
            last_write_date: get_u16(bytes, 24),
            first_logical_cluster: get_u16(bytes, 26),
            file_size: get_u32(bytes, 28),
        };
        assert(entry =~= entry_of(bytes@));
        entry
    }

    /// Tells whether the record is marked as read-only.
    pub fn is_read_only(&self) -> (b: bool)
        ensures
            b == has_flag(self.attrs, ATTR_READ_ONLY),
    {
        self.attrs & 0x01 == 0x01
    }

    /// Tells whether the record is marked as hidden.
    pub fn is_hidden(&self) -> (b: bool)
        ensures
            b == has_flag(self.attrs, ATTR_HIDDEN),
    {
        self.attrs & 0x02 == 0x02
    }

    /// Tells whether the record is marked as a system file.
    pub fn is_system(&self) -> (b: bool)
        ensures
            b == has_flag(self.attrs, ATTR_SYSTEM),
    {
        self.attrs & 0x04 == 0x04
    }

    /// Tells whether the record is marked as the volume's label.
    pub fn is_volume_label(&self) -> (b: bool)
        ensures
            b == has_flag(self.attrs, ATTR_VOLUME_LABEL),
    {
        self.attrs & 0x08 == 0x08
    }

    /// Tells whether the record is marked as a subdirectory.
    pub fn is_subdir(&self) -> (b: bool)
        ensures
            b == has_flag(self.attrs, ATTR_SUBDIR),
    {
        self.attrs & 0x10 == 0x10
    }

    /// Tells whether the record is marked as to be archived.
    pub fn is_archive(&self) -> (b: bool)
        ensures
            b == has_flag(self.attrs, ATTR_ARCHIVE),
    {
        self.attrs & 0x20 == 0x20
    }

    /// Tells whether the slot holds no file: its first byte marks the end of the
    /// directory or a deleted file.
    pub fn is_free(&self) -> (b: bool)
        ensures
            b == self.free(),
    {
        self.filename[0] == 0 || self.filename[0] == 0xe5
    }

    /// Tells whether the slot ends the directory: no slot after it holds a file
    /// that counts.
    pub fn rest_are_free(&self) -> (b: bool)
        ensures
            b == self.ends_directory(),
    {
        self.filename[0] == 0
    }

    /// Marks the record as read-only, or takes the mark off; the other attributes stay.
    pub fn set_is_read_only(&mut self, on: bool)
        ensures
            *final(self) == (RootEntry {
                attrs: with_flag(old(self).attrs, ATTR_READ_ONLY, on),
                ..*old(self)
            }),
    {
        self.attrs = (self.attrs & !0x01) | if on {
            0x01
        } else {
            0
        }
    }

    /// Marks the record as hidden, or takes the mark off; the other attributes stay.
    pub fn set_is_hidden(&mut self, on: bool)
        ensures
            *final(self) == (RootEntry {
                attrs: with_flag(old(self).attrs, ATTR_HIDDEN, on),
                ..*old(self)
            }),
    {
        self.attrs = (self.attrs & !0x02) | if on {
            0x02
        } else {
            0
        }
    }

    /// Marks the record as a system file, or takes the mark off; the other attributes stay.
    pub fn set_is_system(&mut self, on: bool)
        ensures
            *final(self) == (RootEntry {
                attrs: with_flag(old(self).attrs, ATTR_SYSTEM, on),
                ..*old(self)
            }),
    {
        self.attrs = (self.attrs & !0x04) | if on {
            0x04
        } else {
            0
        }
    }

    /// Marks the record as the volume's label, or takes the mark off; the other attributes stay.
    pub fn set_is_volume_label(&mut self, on: bool)
        ensures
            *final(self) == (RootEntry {
                attrs: with_flag(old(self).attrs, ATTR_VOLUME_LABEL, on),
                ..*old(self)
            }),
    {
        self.attrs = (self.attrs & !0x08) | if on {
            0x08
        } else {
            0
        }
    }

    /// Marks the record as a subdirectory, or takes the mark off; the other attributes stay.
    pub fn set_is_subdir(&mut self, on: bool)
        ensures
            *final(self) == (RootEntry {
                attrs: with_flag(old(self).attrs, ATTR_SUBDIR, on),
                ..*old(self)
            }),
    {
        self.attrs = (self.attrs & !0x10) | if on {
            0x10
        } else {
            0
        }
    }

    /// Marks the record as to be archived, or takes the mark off; the other attributes stay.
    pub fn set_is_archive(&mut self, on: bool)
        ensures
            *final(self) == (RootEntry {
                attrs: with_flag(old(self).attrs, ATTR_ARCHIVE, on),
                ..*old(self)
            }),
    {
        self.attrs = (self.attrs & !0x20) | if on {
            0x20
        } else {
            0
        }
    }

    /// Stores the file's length in bytes.
    pub fn set_size(&mut self, bytes: u32)
        ensures
            *final(self) == (RootEntry { file_size: bytes, ..*old(self) }),
    {
        self.file_size = bytes;
    }

    /// Encodes the record as the 32 bytes that stand for it on disk.
    pub fn to_bytes(&self) -> (bytes: Vec<u8>)
        ensures
            bytes@ == self.encoded(),
            bytes@.len() == BYTES_PER_ROOT_ENTRY,
    {
        let mut bytes: Vec<u8> = Vec::new();
        append_bytes(&mut bytes, self.filename.as_slice());
        append_bytes(&mut bytes, self.extension.as_slice());
        bytes.push(self.attrs);
        append_u16(&mut bytes, self.reserved);
        append_u16(&mut bytes, self.creation_time);
        append_u16(&mut bytes, self.creation_date);
        append_u16(&mut bytes, self.last_access_date);
        append_u16(&mut bytes, self.ignored);
        append_u16(&mut bytes, self.last_write_time);
        append_u16(&mut bytes, self.last_write_date);
        append_u16(&mut bytes, self.first_logical_cluster);
        append_u32(&mut bytes, self.file_size);
        bytes
    }

    /// The bytes of the name under which the record is shown.
    pub fn display_bytes(&self) -> (name: Vec<u8>)
        ensures
            name@ == self.display_name(),
    {
        let kept = trimmed_len(self.filename.as_slice());
        let mut name: Vec<u8> = Vec::new();
        let mut i: usize = 0;
        while i < kept
            invariant
                i <= kept <= NAME_WIDTH,
                name@ == self.filename@.subrange(0, i as int),
            decreases kept - i,
        {
            name.push(self.filename[i]);
            i += 1;
        }
        name.push(DOT);
        i = 0;
        while i < EXTENSION_WIDTH
            invariant
                i <= EXTENSION_WIDTH,
                kept <= NAME_WIDTH,
                name@ == self.filename@.subrange(0, kept as int) + seq![DOT]
                    + self.extension@.subrange(0, i as int),
            decreases EXTENSION_WIDTH - i,
        {
            name.push(self.extension[i]);
            i += 1;
        }
        assert(self.extension@.subrange(0, EXTENSION_WIDTH as int) == self.extension@);
        name
    }

    /// The name of the file: the base name without the spaces that pad it, a
    /// dot, and the three bytes of the extension. A name that is not
    /// well-formed UTF-8 is refused.
    pub fn filename(&self) -> (r: Result<String, FatError>)
        ensures
            match r {
                Ok(name) => valid_utf8(self.display_name()) && name@ == decode_utf8(
                    self.display_name(),
                ),
                Err(e) => e == FatError::Parse && !valid_utf8(self.display_name()),
            },
    {
        match string_from_utf8(self.display_bytes()) {
            Some(name) => {
                proof {
                    vstd::utf8::encode_utf8_decode_utf8(name@);
                }
                Ok(name)
            },
            None => Err(FatError::Parse),
        }
    }

    /// Writes the record out field by field.
    pub fn describe(&self) -> (text: String)
        ensures
            text@ == self.dump_text(),
    {
        let name = match self.filename() {
            Ok(name) => name,
            Err(_) => String::from_str("bad filename"),
        };
        let mut text = String::from_str("RootEntry {\n    filename: \"");
        text.append(name.as_str());
        text.append("\",\n    attrs: ");
        text.append(decimal(self.attrs as u64).as_str());
        text.append(",\n    creation_time: ");
        text.append(decimal(self.creation_time as u64).as_str());
        text.append(",\n    creation_date: ");
        text.append(decimal(self.creation_date as u64).as_str());
        text.append(",\n    last_access_date: ");
        text.append(decimal(self.last_access_date as u64).as_str());
        text.append(",\n    last_write_time: ");
        text.append(decimal(self.last_write_time as u64).as_str());
        text.append(",\n    last_write_date: ");
        text.append(decimal(self.last_write_date as u64).as_str());
        text.append(",\n    first_logical_cluster: ");
        text.append(decimal(self.first_logical_cluster as u64).as_str());
        text.append(",\n    file_size: \"");
        text.append(hex(self.file_size as u64).as_str());
        text.append("\",\n}");
        text
    }

    /// Stores `filename`, a base name and an extension with one dot between
    /// them, in capitals and padded with spaces. A name without a dot or with
    /// more than one, or with a part too long for its field, is refused and
    /// the record left as it was.
    pub fn set_filename(&mut self, filename: String) -> (r: Result<(), FatError>)
        ensures
            fits_8_3(encode_utf8(filename@)) ==> r is Ok && *final(self) == old(self).renamed(
                encode_utf8(filename@),
            ),
            !fits_8_3(encode_utf8(filename@)) ==> r == Err::<(), FatError>(FatError::Format)
                && *final(self) == *old(self),
    {
        let name = filename.as_str().as_bytes();
        self.set_name_bytes(name)
    }

    /// Stores the 8.3 name that `name` spells; see `set_filename`.
    pub fn set_name_bytes(&mut self, name: &[u8]) -> (r: Result<(), FatError>)
        ensures
            fits_8_3(name@) ==> r is Ok && *final(self) == old(self).renamed(name@),
            !fits_8_3(name@) ==> r == Err::<(), FatError>(FatError::Format) && *final(self)
                == *old(self),
    {
        let d = match find_split(name) {
            Some(d) => d,
            None => {
                return Err(FatError::Format);
            },
        };
        proof {
            lemma_split_unique(name@, d as int);
            assert forall|c: int| is_split(name@, c) implies c == d by {
                lemma_split_unique(name@, c);
            }
        }
        if d > NAME_WIDTH || name.len() - d - 1 > EXTENSION_WIDTH {
            return Err(FatError::Format);
        }
        assert(is_split(name@, d as int) && d <= NAME_WIDTH && name@.len() - d - 1
            <= EXTENSION_WIDTH);
        let ghost base = base_part(name@);
        let ghost ext = extension_part(name@);
        let mut stored_name = [SPACE;8];
        let mut i: usize = 0;
        while i < d
            invariant
                i <= d <= NAME_WIDTH,
                d < name@.len(),
                base == name@.subrange(0, d as int),
                forall|k: int| 0 <= k < i ==> stored_name@[k] == stored_byte(base, k),
                forall|k: int| i <= k < NAME_WIDTH ==> stored_name@[k] == SPACE,
            decreases d - i,
        {
            stored_name[i] = to_ascii_upper(name[i]);
            i += 1;
        }
        let ext_len = name.len() - d - 1;
        let mut stored_ext = [SPACE;3];
        i = 0;
        while i < ext_len
            invariant
                i <= ext_len <= EXTENSION_WIDTH,
                ext_len == name@.len() - d - 1,
                name@.len() <= usize::MAX,
                ext == name@.subrange(d + 1, name@.len() as int),
                forall|k: int| 0 <= k < i ==> stored_ext@[k] == stored_byte(ext, k),
                forall|k: int| i <= k < EXTENSION_WIDTH ==> stored_ext@[k] == SPACE,
            decreases ext_len - i,
        {
            stored_ext[i] = to_ascii_upper(name[d + 1 + i]);
            i += 1;
        }
        assert(stored_name =~= Self::name_field(name@));
        assert(stored_ext =~= Self::extension_field(name@));
        self.filename = stored_name;
        self.extension = stored_ext;
        Ok(())
    }

    /// The stored name as it is, base name and extension with a dot between
    /// them and nothing trimmed; `BAD FILENAME` where the stored bytes are not
    /// well-formed UTF-8.
    pub fn filename_full(&self) -> (name: String)
        ensures
            valid_utf8(self.full_name()) ==> name@ == decode_utf8(self.full_name()),
            !valid_utf8(self.full_name()) ==> name@ == "BAD FILENAME"@,
    {
        let mut bytes: Vec<u8> = Vec::new();
        let mut i: usize = 0;
        while i < NAME_WIDTH
            invariant
                i <= NAME_WIDTH,
                bytes@ == self.filename@.subrange(0, i as int),
            decreases NAME_WIDTH - i,
        {
            bytes.push(self.filename[i]);
            i += 1;
        }
        assert(self.filename@.subrange(0, NAME_WIDTH as int) == self.filename@);
        bytes.push(DOT);
        i = 0;
        while i < EXTENSION_WIDTH
            invariant
                i <= EXTENSION_WIDTH,
                bytes@ == self.filename@ + seq![DOT] + self.extension@.subrange(0, i as int),
            decreases EXTENSION_WIDTH - i,
        {
            bytes.push(self.extension[i]);
            i += 1;
        }
        assert(self.extension@.subrange(0, EXTENSION_WIDTH as int) == self.extension@);
        match string_from_utf8(bytes) {
            Some(name) => {
                proof {
                    vstd::utf8::encode_utf8_decode_utf8(name@);
                }
                name
            },
            None => String::from_str("BAD FILENAME"),
        }
    }
}

/// Whether `b` is a capital letter or a digit.
pub open spec fn is_capital_or_digit(b: u8) -> bool {
    (0x41 <= b && b <= 0x5a) || (0x30 <= b && b <= 0x39)
}

/// Whether `name` is one to eight capitals or digits, a dot, and three
/// capitals or digits.
pub open spec fn is_plain_8_3(name: Seq<u8>) -> bool {
    exists|d: int|
        1 <= d <= NAME_WIDTH && name.len() == d + 1 + EXTENSION_WIDTH && #[trigger] name[d] == DOT
            && forall|i: int| 0 <= i < name.len() && i != d ==> is_capital_or_digit(name[i])
}

/// A name of capitals and digits with a full extension reads back as it was
/// stored: once `set_filename` has stored it, `filename` gives the same text.
pub proof fn lemma_filename_round_trip(entry: RootEntry, name: Seq<char>)
    requires
        is_plain_8_3(encode_utf8(name)),
    ensures
        fits_8_3(encode_utf8(name)),
        entry.renamed(encode_utf8(name)).display_name() == encode_utf8(name),
        valid_utf8(entry.renamed(encode_utf8(name)).display_name()),
        decode_utf8(entry.renamed(encode_utf8(name)).display_name()) == name,
{
    let bytes = encode_utf8(name);
    lemma_plain_name_is_shown(entry, bytes);
    vstd::utf8::encode_utf8_valid_utf8(name);
    vstd::utf8::encode_utf8_decode_utf8(name);
}

/// The bytes of a name of capitals and digits with a full extension are the
/// bytes that the record shows once it stores the name.
pub proof fn lemma_plain_name_is_shown(entry: RootEntry, name: Seq<u8>)
    requires
        is_plain_8_3(name),
    ensures
        fits_8_3(name),
        entry.renamed(name).display_name() == name,
        entry.renamed(name).filename[0] == name[0],
        is_capital_or_digit(name[0]),
{
    let d = choose|d: int|
        1 <= d <= NAME_WIDTH && name.len() == d + 1 + EXTENSION_WIDTH && #[trigger] name[d] == DOT
            && forall|i: int| 0 <= i < name.len() && i != d ==> is_capital_or_digit(name[i]);
    assert(is_split(name, d));
    lemma_split_unique(name, d);
    let base = base_part(name);
    let ext = extension_part(name);
    let stored = entry.renamed(name);
    assert forall|i: int| 0 <= i < base.len() implies ascii_upper(#[trigger] base[i])
        == base[i] by {
        assert(is_capital_or_digit(name[i]));
    }
    assert forall|i: int| 0 <= i < ext.len() implies ascii_upper(#[trigger] ext[i]) == ext[i] by {
        assert(is_capital_or_digit(name[d + 1 + i]));
    }
    assert(stored.filename@ =~= base + Seq::new((NAME_WIDTH - d) as nat, |i: int| SPACE));
    assert(stored.extension@ =~= ext);
    assert(is_capital_or_digit(name[d - 1]));
    assert(base.last() != SPACE);
    crate::fat::names::lemma_trimmed_padding(base, (NAME_WIDTH - d) as nat);
    assert(stored.display_name() =~= name);
    assert(is_capital_or_digit(name[0]));
    assert(stored.filename[0] == stored.filename@[0]);
}

/// Setting or clearing an attribute leaves every other bit of the attribute
/// byte as it was, and the attribute then reads as it was set.
pub proof fn lemma_attribute_independence(attrs: u8, mask: u8, on: bool)
    ensures
        with_flag(attrs, mask, on) & !mask == attrs & !mask,
        mask != 0 ==> has_flag(with_flag(attrs, mask, on), mask) == on,
{
    assert(((attrs & !mask) | mask) & !mask == attrs & !mask) by (bit_vector);
    assert(((attrs & !mask) | 0) & !mask == attrs & !mask) by (bit_vector);
    assert(((attrs & !mask) | mask) & mask == mask) by (bit_vector);
    assert(mask != 0 ==> ((attrs & !mask) | 0) & mask != mask) by (bit_vector);
}

/// Setting and then clearing an attribute that was clear gives the attribute
/// byte back as it was.
pub proof fn lemma_attribute_set_then_clear(attrs: u8, mask: u8)
    requires
        attrs & mask == 0,
    ensures
        with_flag(with_flag(attrs, mask, true), mask, false) == attrs,
{
    assert(attrs & mask == 0 ==> ((((attrs & !mask) | mask) & !mask) | 0) == attrs)
        by (bit_vector);
}

/// A record reads back from the bytes that encode it.
pub proof fn lemma_entry_round_trip(entry: RootEntry)
    ensures
        entry.encoded().len() == BYTES_PER_ROOT_ENTRY,
        entry_of(entry.encoded()) == entry,
{
    let bytes = entry.encoded();
    assert(bytes.len() == BYTES_PER_ROOT_ENTRY);
    assert(bytes.subrange(0, 8) =~= entry.filename@);
    assert(bytes.subrange(8, 11) =~= entry.extension@);
    assert(bytes[11] == entry.attrs);
    assert(bytes.subrange(12, 14) =~= u16_le_bytes(entry.reserved));
    assert(bytes.subrange(14, 16) =~= u16_le_bytes(entry.creation_time));
    assert(bytes.subrange(16, 18) =~= u16_le_bytes(entry.creation_date));
    assert(bytes.subrange(18, 20) =~= u16_le_bytes(entry.last_access_date));
    assert(bytes.subrange(20, 22) =~= u16_le_bytes(entry.ignored));
    assert(bytes.subrange(22, 24) =~= u16_le_bytes(entry.last_write_time));
    assert(bytes.subrange(24, 26) =~= u16_le_bytes(entry.last_write_date));
    assert(bytes.subrange(26, 28) =~= u16_le_bytes(entry.first_logical_cluster));
    assert(bytes.subrange(28, 32) =~= u32_le_bytes(entry.file_size));
    let back = entry_of(bytes);
    assert forall|i: int| 0 <= i < 8 implies back.filename[i] == entry.filename[i] by {
        assert(bytes.subrange(0, 8)[i] == bytes[i]);
    }
    assert forall|i: int| 0 <= i < 3 implies back.extension[i] == entry.extension[i] by {
        assert(bytes.subrange(8, 11)[i] == bytes[8 + i]);
    }
    assert(back.reserved == entry.reserved) by {
        assert(bytes.subrange(12, 14)[0] == bytes[12] && bytes.subrange(12, 14)[1] == bytes[13]);
    }
    assert(back.creation_time == entry.creation_time) by {
        assert(bytes.subrange(14, 16)[0] == bytes[14] && bytes.subrange(14, 16)[1] == bytes[15]);
    }
    assert(back.creation_date == entry.creation_date) by {
        assert(bytes.subrange(16, 18)[0] == bytes[16] && bytes.subrange(16, 18)[1] == bytes[17]);
    }
    assert(back.last_access_date == entry.last_access_date) by {
        assert(bytes.subrange(18, 20)[0] == bytes[18] && bytes.subrange(18, 20)[1] == bytes[19]);
    }
    assert(back.ignored == entry.ignored) by {
        assert(bytes.subrange(20, 22)[0] == bytes[20] && bytes.subrange(20, 22)[1] == bytes[21]);
    }
    assert(back.last_write_time == entry.last_write_time) by {
        assert(bytes.subrange(22, 24)[0] == bytes[22] && bytes.subrange(22, 24)[1] == bytes[23]);
    }
    assert(back.last_write_date == entry.last_write_date) by {
        assert(bytes.subrange(24, 26)[0] == bytes[24] && bytes.subrange(24, 26)[1] == bytes[25]);
    }
    assert(back.first_logical_cluster == entry.first_logical_cluster) by {
        assert(bytes.subrange(26, 28)[0] == bytes[26] && bytes.subrange(26, 28)[1] == bytes[27]);
    }
    assert(back.file_size == entry.file_size) by {
        let tail = bytes.subrange(28, 32);
        assert(tail[0] == bytes[28] && tail[1] == bytes[29] && tail[2] == bytes[30] && tail[3]
            == bytes[31]);
    }
    assert(back =~= entry);
}

/// The bytes of a record are the bytes that the record decoded from them
/// encodes to.
pub proof fn lemma_bytes_round_trip(bytes: Seq<u8>)
    requires
        bytes.len() >= BYTES_PER_ROOT_ENTRY,
    ensures
        entry_of(bytes).encoded() == bytes.take(BYTES_PER_ROOT_ENTRY as int),
{
    let entry = entry_of(bytes);
    assert(entry.filename@ =~= bytes.subrange(0, 8));
    assert(entry.extension@ =~= bytes.subrange(8, 11));
    assert(seq![entry.attrs] =~= bytes.subrange(11, 12));
    lemma_word_bytes(bytes, 12);
    lemma_word_bytes(bytes, 14);
    lemma_word_bytes(bytes, 16);
    lemma_word_bytes(bytes, 18);
    lemma_word_bytes(bytes, 20);
    lemma_word_bytes(bytes, 22);
    lemma_word_bytes(bytes, 24);
    lemma_word_bytes(bytes, 26);
    lemma_long_bytes(bytes, 28);
    let head = bytes.subrange(0, 8) + bytes.subrange(8, 11) + bytes.subrange(11, 12)
        + bytes.subrange(12, 14) + bytes.subrange(14, 16) + bytes.subrange(16, 18);
    assert(head =~= bytes.subrange(0, 18));
    let tail = bytes.subrange(0, 18) + bytes.subrange(18, 20) + bytes.subrange(20, 22)
        + bytes.subrange(22, 24) + bytes.subrange(24, 26) + bytes.subrange(26, 28)
        + bytes.subrange(28, 32);
    assert(tail =~= bytes.take(BYTES_PER_ROOT_ENTRY as int));
}

/// The two bytes at `at` encode the number that they spell.
proof fn lemma_word_bytes(bytes: Seq<u8>, at: int)
    requires
        0 <= at,
        at + 2 <= bytes.len(),
    ensures
        u16_le_bytes(le_u16(bytes, at) as u16) == bytes.subrange(at, at + 2),
{
    assert(u16_le_bytes(le_u16(bytes, at) as u16) =~= bytes.subrange(at, at + 2));
}

/// The four bytes at `at` encode the number that they spell.
proof fn lemma_long_bytes(bytes: Seq<u8>, at: int)
    requires
        0 <= at,
        at + 4 <= bytes.len(),
    ensures
        u32_le_bytes(le_u32(bytes, at) as u32) == bytes.subrange(at, at + 4),
{
    let b0 = bytes[at] as int;
    let b1 = bytes[at + 1] as int;
    let b2 = bytes[at + 2] as int;
    let b3 = bytes[at + 3] as int;
    let v = le_u32(bytes, at);
    assert(v == b0 + 256 * (b1 + 256 * (b2 + 256 * b3)));
    assert(v % 256 == b0 && v / 256 == b1 + 256 * (b2 + 256 * b3));
    assert(v / 256 % 256 == b1 && v / 256 / 256 == b2 + 256 * b3);
    assert(v / 65536 == v / 256 / 256);
    assert(v / 65536 % 256 == b2 && v / 65536 / 256 == b3);
    assert(v / 16777216 == v / 65536 / 256);
    assert(u32_le_bytes(v as u32) =~= bytes.subrange(at, at + 4));
}

} // verus!
