//! A verified ZIP archive reading and extraction engine: central directory
//! parsing (with ZIP64), local header cross-validation, Store and Deflate
//! payload decoding with size and CRC-32 validation, entry-name
//! sanitisation, and an extraction plan with last-write-wins semantics.

pub mod crc;
pub mod extract;
pub mod inflate;
pub mod le;
pub mod meta;
pub mod parse;
pub mod sanitize;

use vstd::prelude::*;
use crate::extract::{dir_views, dirs_of, extract_all, file_models, outputs_of, statuses_of, Report};
use crate::meta::Archive;
use crate::parse::{archive_of, ParseError};

verus! {

/// Parses the archive held in `bytes` and plans the extraction of every
/// entry, in central-directory order. A structural failure aborts before
/// any entry is extracted; per-entry failures are reported in the statuses
/// and never abort the run.
pub fn extract_archive(bytes: &Vec<u8>) -> (r: Result<(Archive, Report), ParseError>)
    ensures
        match r {
            Ok(ar) => archive_of(bytes@) == Some(ar.0@) && ar.1.statuses@ == statuses_of(
                bytes@,
                ar.0@.entries,
            ) && file_models(ar.1.files@) == outputs_of(bytes@, ar.0@.entries) && dir_views(
                ar.1.dirs@,
            ) == dirs_of(ar.0@.entries),
            Err(_) => archive_of(bytes@) is None,
        },
{
    match Archive::parse(bytes) {
        Err(e) => Err(e),
        Ok(a) => {
            let rep = extract_all(bytes, &a);
            Ok((a, rep))
        },
    }
}

} // verus!
