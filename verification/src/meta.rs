//! Archive and entry metadata: what the central directory declares.

use vstd::prelude::*;

verus! {

/// Signature of the end-of-central-directory record.
pub const EOCD_SIG: u32 = 0x06054b50;

/// Signature of the ZIP64 end-of-central-directory locator.
pub const ZIP64_LOCATOR_SIG: u32 = 0x07064b50;

/// Signature of the ZIP64 end-of-central-directory record.
pub const ZIP64_EOCD_SIG: u32 = 0x06064b50;

/// Signature of a central directory file header.
pub const CDIR_SIG: u32 = 0x02014b50;

/// Signature of a local file header.
pub const LOCAL_SIG: u32 = 0x04034b50;

/// Compression method code: stored, no compression.
pub const METHOD_STORE: u16 = 0;

/// Compression method code: Deflate.
pub const METHOD_DEFLATE: u16 = 8;

/// Extra-field header id of the ZIP64 extended-information record.
pub const ZIP64_EXTRA_ID: u16 = 1;

/// General-purpose flag bit 3: sizes and CRC were written to a trailing
/// data descriptor, and the local header holds placeholders.
pub const FLAG_DATA_DESCRIPTOR: u16 = 8;

/// One entry of the central directory, after ZIP64 extra fields have been
/// resolved: sizes, offset and count are already the final 64-bit values.
pub struct EntryMetadata {
    /// Raw entry name bytes as stored in the archive.
    pub name: Vec<u8>,
    /// Per-entry comment bytes.
    pub comment: Vec<u8>,
    /// General-purpose bit flags.
    pub flags: u16,
    /// Compression method code.
    pub method: u16,
    /// Declared CRC-32 of the uncompressed data.
    pub crc32: u32,
    /// Last-modification time of day, in MS-DOS format.
    pub mod_time: u16,
    /// Last-modification date, in MS-DOS format.
    pub mod_date: u16,
    /// Declared size of the compressed payload in bytes.
    pub compressed_size: u64,
    /// Declared size of the uncompressed data in bytes.
    pub uncompressed_size: u64,
    /// Offset of the entry's local file header from the start of the archive.
    pub local_header_offset: u64,
    /// External file attributes; the high 16 bits carry a Unix mode when the
    /// entry was made on Unix.
    pub external_attrs: u32,
    /// "Version made by" field; its high byte names the host system.
    pub version_made_by: u16,
}

/// The mathematical model of an entry: the same fields over sequences.
#[verifier::ext_equal]
pub struct EntryModel {
    pub name: Seq<u8>,
    pub comment: Seq<u8>,
    pub flags: u16,
    pub method: u16,
    pub crc32: u32,
    pub mod_time: u16,
    pub mod_date: u16,
    pub compressed_size: u64,
    pub uncompressed_size: u64,
    pub local_header_offset: u64,
    pub external_attrs: u32,
    pub version_made_by: u16,
}

impl View for EntryMetadata {
    type V = EntryModel;

    open spec fn view(&self) -> EntryModel {
        EntryModel {
            name: self.name@,
            comment: self.comment@,
            flags: self.flags,
            method: self.method,
            crc32: self.crc32,
            mod_time: self.mod_time,
            mod_date: self.mod_date,
            compressed_size: self.compressed_size,
            uncompressed_size: self.uncompressed_size,
            local_header_offset: self.local_header_offset,
            external_attrs: self.external_attrs,
            version_made_by: self.version_made_by,
        }
    }
}

/// A parsed archive: the entry index in central-directory order, and the
/// archive-level comment.
pub struct Archive {
    /// Entries in the order their central directory headers appear.
    pub entries: Vec<EntryMetadata>,
    /// The archive comment that trails the end-of-central-directory record.
    pub comment: Vec<u8>,
}

/// The mathematical model of an archive.
#[verifier::ext_equal]
pub struct ArchiveModel {
    pub entries: Seq<EntryModel>,
    pub comment: Seq<u8>,
}

/// The models of a sequence of entries.
pub open spec fn entry_models(v: Seq<EntryMetadata>) -> Seq<EntryModel> {
    v.map_values(|e: EntryMetadata| e@)
}

impl View for Archive {
    type V = ArchiveModel;

    open spec fn view(&self) -> ArchiveModel {
        ArchiveModel { entries: entry_models(self.entries@), comment: self.comment@ }
    }
}

impl EntryMetadata {
    /// Whether the entry names a directory: its name ends in a separator.
    pub fn is_dir(&self) -> (r: bool)
        ensures
            r == is_dir_name(self.name@),
    {
        self.name.len() > 0 && self.name[self.name.len() - 1] == 47
    }

    /// Whether the entry declares its name and comment to be UTF-8 encoded
    /// (general-purpose flag bit 11); otherwise the legacy encoding applies.
    pub fn is_utf8_name(&self) -> (r: bool)
        ensures
            r == name_flagged_utf8(self@),
    {
        (self.flags / 2048) % 2 == 1
    }

    /// The Unix permission bits to restore for this entry, when it was made
    /// on Unix; masked to the low nine bits so that setuid, setgid and
    /// sticky bits from an untrusted archive are never propagated.
    pub fn unix_mode(&self) -> (r: Option<u32>)
        ensures
            r == unix_mode_of(self@),
    {
        if self.version_made_by / 256 == 3 {
            Some((self.external_attrs / 0x10000) % 512)
        } else {
            None
        }
    }
}

/// Whether an entry declares its name to be UTF-8 encoded.
pub open spec fn name_flagged_utf8(e: EntryModel) -> bool {
    (e.flags / 2048) % 2 == 1
}

/// Whether an entry name denotes a directory.
pub open spec fn is_dir_name(name: Seq<u8>) -> bool {
    name.len() > 0 && name.last() == 47
}

/// The Unix mode of an entry: the high 16 bits of the external attributes,
/// masked to the permission bits, when the "version made by" host is Unix.
pub open spec fn unix_mode_of(e: EntryModel) -> Option<u32> {
    if e.version_made_by / 256 == 3 {
        Some((e.external_attrs / 0x10000) % 512)
    } else {
        None
    }
}

} // verus!
