//! Per-entry extraction and the orchestrator: validate the local header,
//! decompress, validate sizes and CRC-32, and plan the files to write.

use vstd::prelude::*;
use vstd::map::*;
use crate::crc::{crc32, crc32_of};
use crate::inflate::{inflate, inflate_of};
use crate::le::{u16_le, u32_le, read_u16, read_u32, copy_range};
use crate::meta::{
    Archive,
    EntryMetadata,
    EntryModel,
    is_dir_name,
    unix_mode_of,
    LOCAL_SIG,
    METHOD_DEFLATE,
    METHOD_STORE,
};
use crate::sanitize::{comp_views, sanitize, sanitize_spec};

verus! {

/// Why one entry failed to extract; no variant aborts the whole run.
#[derive(Clone, Copy, Debug, PartialEq, Eq, Structural)]
pub enum EntryError {
    /// The local file header contradicts the central directory.
    InconsistentEntry,
    /// The payload, or its local header, runs past the end of the source,
    /// or a compressed stream ends early or is corrupt.
    TruncatedEntry,
    /// The decompressed byte count differs from the declared size.
    SizeMismatch,
    /// The CRC-32 of the decompressed bytes differs from the declared one.
    CrcMismatch,
    /// The entry uses a compression method the engine does not support.
    UnsupportedMethod,
}

/// Whether a 32-bit local header size field is consistent with the final
/// 64-bit value: equal, or the ZIP64 sentinel.
pub open spec fn size_field_consistent(field32: int, actual: u64) -> bool {
    field32 == 0xffff_ffff || field32 == actual
}

/// What decoding an entry's payload yields: the validated uncompressed
/// bytes, or the error that condemns the entry.
pub open spec fn decode(e: EntryModel, payload: Seq<u8>) -> Result<Seq<u8>, EntryError> {
    if e.method == METHOD_STORE {
        if e.compressed_size != e.uncompressed_size {
            Err(EntryError::SizeMismatch)
        } else if crc32_of(payload) != e.crc32 {
            Err(EntryError::CrcMismatch)
        } else {
            Ok(payload)
        }
    } else if e.method == METHOD_DEFLATE {
        match inflate_of(payload) {
            None => Err(EntryError::TruncatedEntry),
            Some(d) => if d.len() != e.uncompressed_size {
                Err(EntryError::SizeMismatch)
            } else if crc32_of(d) != e.crc32 {
                Err(EntryError::CrcMismatch)
            } else {
                Ok(d)
            },
        }
    } else {
        Err(EntryError::UnsupportedMethod)
    }
}

/// What extracting one entry from the source yields: the local file header
/// is read at the entry's declared offset and cross-checked against the
/// central directory values (unless a trailing data descriptor deferred
/// them), the payload bounds are checked, and the payload is decoded and
/// validated.
#[verifier::opaque]
pub open spec fn entry_data(s: Seq<u8>, e: EntryModel) -> Result<Seq<u8>, EntryError> {
    let off = e.local_header_offset as int;
    if !(off + 30 <= s.len()) {
        Err(EntryError::TruncatedEntry)
    } else if u32_le(s, off) != LOCAL_SIG {
        Err(EntryError::InconsistentEntry)
    } else {
        let lflags = u16_le(s, off + 6);
        let lmethod = u16_le(s, off + 8);
        let lcrc = u32_le(s, off + 14);
        let lcsize = u32_le(s, off + 18);
        let lusize = u32_le(s, off + 22);
        let nl = u16_le(s, off + 26);
        let el = u16_le(s, off + 28);
        if lmethod != e.method {
            Err(EntryError::InconsistentEntry)
        } else if (lflags % 16) / 8 == 0 && !(lcrc == e.crc32 && size_field_consistent(
            lcsize,
            e.compressed_size,
        ) && size_field_consistent(lusize, e.uncompressed_size)) {
            Err(EntryError::InconsistentEntry)
        } else {
            let payload = off + 30 + nl + el;
            if !(payload + e.compressed_size <= s.len()) {
                Err(EntryError::TruncatedEntry)
            } else {
                decode(e, s.subrange(payload, payload + e.compressed_size))
            }
        }
    }
}

/// Decodes a payload of exactly the declared compressed size and validates
/// the declared uncompressed size and CRC-32.
fn decode_payload(e: &EntryMetadata, payload: Vec<u8>) -> (r: Result<Vec<u8>, EntryError>)
    requires
        payload@.len() == e.compressed_size,
    ensures
        match r {
            Ok(d) => decode(e@, payload@) == Ok::<Seq<u8>, EntryError>(d@),
            Err(er) => decode(e@, payload@) == Err::<Seq<u8>, EntryError>(er),
        },
{
    if e.method == METHOD_STORE {
        if e.compressed_size != e.uncompressed_size {
            return Err(EntryError::SizeMismatch);
        }
        let c = crc32(&payload);
        if c != e.crc32 {
            return Err(EntryError::CrcMismatch);
        }
        Ok(payload)
    } else if e.method == METHOD_DEFLATE {
        match inflate(&payload) {
            None => Err(EntryError::TruncatedEntry),
            Some(d) => {
                if d.len() as u64 != e.uncompressed_size {
                    return Err(EntryError::SizeMismatch);
                }
                let c = crc32(&d);
                if c != e.crc32 {
                    return Err(EntryError::CrcMismatch);
                }
                Ok(d)
            },
        }
    } else {
        Err(EntryError::UnsupportedMethod)
    }
}

/// Extracts one entry: validates its local header against the central
/// directory, decompresses its payload, and validates size and CRC-32.
pub fn extract_entry(b: &Vec<u8>, e: &EntryMetadata) -> (r: Result<Vec<u8>, EntryError>)
    ensures
        match r {
            Ok(d) => entry_data(b@, e@) == Ok::<Seq<u8>, EntryError>(d@),
            Err(er) => entry_data(b@, e@) == Err::<Seq<u8>, EntryError>(er),
        },
{
    proof {
        reveal(entry_data);
    }
    let n = b.len();
    let off64 = e.local_header_offset;
    if off64 > n as u64 || 30 > n as u64 - off64 {
        return Err(EntryError::TruncatedEntry);
    }
    let off = off64 as usize;
    let sig = read_u32(b, off);
    if sig != LOCAL_SIG {
        return Err(EntryError::InconsistentEntry);
    }
    let lflags = read_u16(b, off + 6);
    let lmethod = read_u16(b, off + 8);
    let lcrc = read_u32(b, off + 14);
    let lcsize = read_u32(b, off + 18);
    let lusize = read_u32(b, off + 22);
    let nl = read_u16(b, off + 26) as usize;
    let el = read_u16(b, off + 28) as usize;
    if lmethod != e.method {
        return Err(EntryError::InconsistentEntry);
    }
    if (lflags % 16) / 8 == 0 {
        let crc_ok = lcrc == e.crc32;
        let cs_ok = lcsize == 0xffff_ffff || (lcsize as u64) == e.compressed_size;
        let us_ok = lusize == 0xffff_ffff || (lusize as u64) == e.uncompressed_size;
        if !(crc_ok && cs_ok && us_ok) {
            return Err(EntryError::InconsistentEntry);
        }
    }
    let avail = n - (off + 30);
    if nl + el > avail {
        return Err(EntryError::TruncatedEntry);
    }
    let payload_off = off + 30 + nl + el;
    let rest = n - payload_off;
    if e.compressed_size > rest as u64 {
        return Err(EntryError::TruncatedEntry);
    }
    let csize = e.compressed_size as usize;
    let payload = copy_range(b, payload_off, payload_off + csize);
    decode_payload(e, payload)
}

/// Law: every byte sequence extraction hands back was validated — its
/// CRC-32 equals the entry's declared CRC-32, and its length equals the
/// entry's declared uncompressed size.
pub proof fn lemma_entry_data_validated(s: Seq<u8>, e: EntryModel)
    ensures
        match entry_data(s, e) {
            Ok(d) => crc32_of(d) == e.crc32 && d.len() == e.uncompressed_size,
            Err(_) => true,
        },
{
    reveal(entry_data);
}

/// One planned output file: its confined path components under the
/// extraction root, its validated bytes, and the Unix mode to restore, when
/// any.
pub struct OutFile {
    pub path: Vec<Vec<u8>>,
    pub data: Vec<u8>,
    pub mode: Option<u32>,
}

/// The mathematical model of a planned output file.
#[verifier::ext_equal]
pub struct FileModel {
    pub path: Seq<Seq<u8>>,
    pub data: Seq<u8>,
    pub mode: Option<u32>,
}

impl View for OutFile {
    type V = FileModel;

    open spec fn view(&self) -> FileModel {
        FileModel { path: comp_views(self.path@), data: self.data@, mode: self.mode }
    }
}

/// The models of a sequence of planned files.
pub open spec fn file_models(v: Seq<OutFile>) -> Seq<FileModel> {
    v.map_values(|f: OutFile| f@)
}

/// The views of a sequence of directory paths.
pub open spec fn dir_views(v: Seq<Vec<Vec<u8>>>) -> Seq<Seq<Seq<u8>>> {
    v.map_values(|p: Vec<Vec<u8>>| comp_views(p@))
}

/// How one entry ended: every skipped or failed entry is reported
/// individually, and no per-entry failure aborts the run.
#[derive(Clone, Copy, Debug, PartialEq, Eq, Structural)]
pub enum EntryStatus {
    /// The entry's data was validated and planned as a file write.
    WroteFile,
    /// The entry names a directory, planned for creation.
    MadeDir,
    /// The entry name was rejected as unsafe and the entry skipped; it is
    /// never remapped.
    SkippedUnsafe,
    /// The entry failed payload- or header-level validation.
    Failed(EntryError),
}

/// What the orchestrator reports: one status per entry in central-directory
/// order, the planned file writes in order, and the planned directories.
pub struct Report {
    pub statuses: Vec<EntryStatus>,
    pub files: Vec<OutFile>,
    pub dirs: Vec<Vec<Vec<u8>>>,
}

/// How extraction disposes of one entry.
pub open spec fn entry_status(s: Seq<u8>, e: EntryModel) -> EntryStatus {
    match sanitize_spec(e.name) {
        None => EntryStatus::SkippedUnsafe,
        Some(c) => {
            if is_dir_name(e.name) {
                EntryStatus::MadeDir
            } else if c.len() == 0 {
                EntryStatus::SkippedUnsafe
            } else {
                match entry_data(s, e) {
                    Ok(_) => EntryStatus::WroteFile,
                    Err(er) => EntryStatus::Failed(er),
                }
            }
        },
    }
}

/// The statuses of all entries, in central-directory order.
pub open spec fn statuses_of(s: Seq<u8>, es: Seq<EntryModel>) -> Seq<EntryStatus> {
    es.map_values(|e: EntryModel| entry_status(s, e))
}

/// The planned file writes, in central-directory order.
pub open spec fn outputs_of(s: Seq<u8>, es: Seq<EntryModel>) -> Seq<FileModel>
    decreases es.len(),
{
    if es.len() == 0 {
        Seq::<FileModel>::empty()
    } else {
        let rest = outputs_of(s, es.drop_last());
        let e = es.last();
        if entry_status(s, e) == EntryStatus::WroteFile {
            match (sanitize_spec(e.name), entry_data(s, e)) {
                (Some(c), Ok(d)) => rest.push(FileModel { path: c, data: d, mode: unix_mode_of(e) }),
                _ => rest,
            }
        } else {
            rest
        }
    }
}

/// The planned directories, in central-directory order.
pub open spec fn dirs_of(es: Seq<EntryModel>) -> Seq<Seq<Seq<u8>>>
    decreases es.len(),
{
    if es.len() == 0 {
        Seq::<Seq<Seq<u8>>>::empty()
    } else {
        let rest = dirs_of(es.drop_last());
        match sanitize_spec(es.last().name) {
            Some(c) => if is_dir_name(es.last().name) {
                rest.push(c)
            } else {
                rest
            },
            None => rest,
        }
    }
}

/// Extracts every entry, in central-directory order: sanitize the name;
/// skip and report an unsafe one; plan a directory for a directory entry;
/// otherwise validate and decompress, and plan the file write. Per-entry
/// failures are reported in the statuses and never abort the run.
pub fn extract_all(b: &Vec<u8>, a: &Archive) -> (r: Report)
    ensures
        r.statuses@ == statuses_of(b@, a@.entries),
        file_models(r.files@) == outputs_of(b@, a@.entries),
        dir_views(r.dirs@) == dirs_of(a@.entries),
{
    let ghost es = a@.entries;
    let mut statuses: Vec<EntryStatus> = Vec::new();
    let mut files: Vec<OutFile> = Vec::new();
    let mut dirs: Vec<Vec<Vec<u8>>> = Vec::new();
    let n = a.entries.len();
    let mut i: usize = 0;
    while i < n
        invariant
            n == a.entries.len(),
            es == a@.entries,
            i <= n,
            statuses@ == statuses_of(b@, es.take(i as int)),
            file_models(files@) == outputs_of(b@, es.take(i as int)),
            dir_views(dirs@) == dirs_of(es.take(i as int)),
        decreases n - i,
    {
        let e = &a.entries[i];
        proof {
            assert(es[i as int] == e@);
            assert(es.take(i + 1).drop_last() =~= es.take(i as int));
            assert(es.take(i + 1).last() == es[i as int]);
        }
        match sanitize(&e.name) {
            None => {
                statuses.push(EntryStatus::SkippedUnsafe);
            },
            Some(c) => {
                if e.is_dir() {
                    dirs.push(c);
                    statuses.push(EntryStatus::MadeDir);
                } else if c.len() == 0 {
                    statuses.push(EntryStatus::SkippedUnsafe);
                } else {
                    match extract_entry(b, e) {
                        Ok(d) => {
                            let mode = e.unix_mode();
                            files.push(OutFile { path: c, data: d, mode });
                            statuses.push(EntryStatus::WroteFile);
                        },
                        Err(er) => {
                            statuses.push(EntryStatus::Failed(er));
                        },
                    }
                }
            },
        }
        i = i + 1;
        proof {
            assert(statuses@ =~= statuses_of(b@, es.take(i as int)));
            assert(file_models(files@) =~= outputs_of(b@, es.take(i as int)));
            assert(dir_views(dirs@) =~= dirs_of(es.take(i as int)));
        }
    }
    proof {
        assert(es.take(n as int) =~= es);
    }
    Report { statuses, files, dirs }
}

/// How many entries a fail-fast run processes: every entry up to and
/// including the first one that fails, or all of them when none fails.
/// Skipped and unsafe entries do not stop a fail-fast run; only a payload-
/// or header-level failure does.
pub open spec fn fail_fast_len(s: Seq<u8>, es: Seq<EntryModel>) -> int
    decreases es.len(),
{
    if es.len() == 0 {
        0
    } else if entry_status(s, es[0]) is Failed {
        1
    } else {
        1 + fail_fast_len(s, es.drop_first())
    }
}

proof fn lemma_fail_fast_len_at(s: Seq<u8>, es: Seq<EntryModel>, i: int)
    requires
        0 <= i <= es.len(),
        forall|j: int| 0 <= j < i ==> !((#[trigger] entry_status(s, es[j])) is Failed),
    ensures
        (i < es.len() && entry_status(s, es[i]) is Failed) ==> fail_fast_len(s, es) == i + 1,
        i == es.len() ==> fail_fast_len(s, es) == es.len(),
    decreases es.len(),
{
    if es.len() > 0 && i > 0 {
        let t = es.drop_first();
        assert(entry_status(s, es[0]) is Failed == false);
        assert forall|j: int| 0 <= j < i - 1 implies !((#[trigger] entry_status(s, t[j]))
            is Failed) by {
            assert(t[j] == es[j + 1]);
        }
        lemma_fail_fast_len_at(s, t, i - 1);
        if i < es.len() {
            assert(t[i - 1] == es[i]);
        }
    }
}

/// Extracts entries in central-directory order under the fail-fast policy:
/// the run stops at the first entry whose extraction fails, with every
/// earlier entry planned as usual and that entry's failure reported last.
pub fn extract_all_fail_fast(b: &Vec<u8>, a: &Archive) -> (r: Report)
    ensures
        r.statuses@ == statuses_of(b@, a@.entries.take(fail_fast_len(b@, a@.entries))),
        file_models(r.files@) == outputs_of(b@, a@.entries.take(fail_fast_len(b@, a@.entries))),
        dir_views(r.dirs@) == dirs_of(a@.entries.take(fail_fast_len(b@, a@.entries))),
{
    let ghost es = a@.entries;
    let mut statuses: Vec<EntryStatus> = Vec::new();
    let mut files: Vec<OutFile> = Vec::new();
    let mut dirs: Vec<Vec<Vec<u8>>> = Vec::new();
    let n = a.entries.len();
    let mut i: usize = 0;
    while i < n
        invariant
            n == a.entries.len(),
            es == a@.entries,
            i <= n,
            forall|j: int| 0 <= j < i ==> !((#[trigger] entry_status(b@, es[j])) is Failed),
            statuses@ == statuses_of(b@, es.take(i as int)),
            file_models(files@) == outputs_of(b@, es.take(i as int)),
            dir_views(dirs@) == dirs_of(es.take(i as int)),
        decreases n - i,
    {
        let e = &a.entries[i];
        proof {
            assert(es[i as int] == e@);
            assert(es.take(i + 1).drop_last() =~= es.take(i as int));
            assert(es.take(i + 1).last() == es[i as int]);
        }
        let mut stop = false;
        match sanitize(&e.name) {
            None => {
                statuses.push(EntryStatus::SkippedUnsafe);
            },
            Some(c) => {
                if e.is_dir() {
                    dirs.push(c);
                    statuses.push(EntryStatus::MadeDir);
                } else if c.len() == 0 {
                    statuses.push(EntryStatus::SkippedUnsafe);
                } else {
                    match extract_entry(b, e) {
                        Ok(d) => {
                            let mode = e.unix_mode();
                            files.push(OutFile { path: c, data: d, mode });
                            statuses.push(EntryStatus::WroteFile);
                        },
                        Err(er) => {
                            statuses.push(EntryStatus::Failed(er));
                            stop = true;
                        },
                    }
                }
            },
        }
        proof {
            assert(statuses@ =~= statuses_of(b@, es.take(i + 1)));
            assert(file_models(files@) =~= outputs_of(b@, es.take(i + 1)));
            assert(dir_views(dirs@) =~= dirs_of(es.take(i + 1)));
        }
        if stop {
            proof {
                lemma_fail_fast_len_at(b@, es, i as int);
                assert(fail_fast_len(b@, es) == i + 1);
            }
            return Report { statuses, files, dirs };
        }
        i = i + 1;
    }
    proof {
        lemma_fail_fast_len_at(b@, es, n as int);
        assert(es.take(n as int) =~= es);
    }
    Report { statuses, files, dirs }
}

/// The filesystem state after applying planned writes in order to a prior
/// state: each write sets its path's contents, overwriting whatever was
/// there.
pub open spec fn apply_outputs(
    m: Map<Seq<Seq<u8>>, Seq<u8>>,
    outs: Seq<FileModel>,
) -> Map<Seq<Seq<u8>>, Seq<u8>>
    decreases outs.len(),
{
    if outs.len() == 0 {
        m
    } else {
        apply_outputs(m, outs.drop_last()).insert(outs.last().path, outs.last().data)
    }
}

/// The data of the last planned write to `p`, when any.
pub open spec fn last_write(outs: Seq<FileModel>, p: Seq<Seq<u8>>) -> Option<Seq<u8>>
    decreases outs.len(),
{
    if outs.len() == 0 {
        None
    } else if outs.last().path == p {
        Some(outs.last().data)
    } else {
        last_write(outs.drop_last(), p)
    }
}

/// The final file contents produced by extracting an archive into an empty
/// destination.
pub open spec fn final_files(s: Seq<u8>, es: Seq<EntryModel>) -> Map<Seq<Seq<u8>>, Seq<u8>> {
    apply_outputs(Map::<Seq<Seq<u8>>, Seq<u8>>::empty(), outputs_of(s, es))
}

/// Law: applying planned writes leaves, at each path, the data of the last
/// write to it, and leaves paths never written untouched.
pub proof fn lemma_apply_outputs_at(
    m: Map<Seq<Seq<u8>>, Seq<u8>>,
    outs: Seq<FileModel>,
    p: Seq<Seq<u8>>,
)
    ensures
        match last_write(outs, p) {
            Some(d) => apply_outputs(m, outs).contains_key(p) && apply_outputs(m, outs)[p] == d,
            None => (apply_outputs(m, outs).contains_key(p) <==> m.contains_key(p))
                && (m.contains_key(p) ==> apply_outputs(m, outs)[p] == m[p]),
        },
    decreases outs.len(),
{
    if outs.len() > 0 {
        lemma_apply_outputs_at(m, outs.drop_last(), p);
    }
}

/// Law: when entry `i` is the last planned write to its path, the final
/// contents at that path are entry `i`'s data — the later of two entries
/// sharing a sanitized path wins.
pub proof fn lemma_last_write_wins(outs: Seq<FileModel>, i: int)
    requires
        0 <= i < outs.len(),
        forall|j: int| i < j < outs.len() ==> (#[trigger] outs[j]).path != outs[i].path,
    ensures
        last_write(outs, outs[i].path) == Some(outs[i].data),
    decreases outs.len(),
{
    if i == outs.len() - 1 {
        assert(outs.last() == outs[i]);
    } else {
        assert(outs[outs.len() - 1] == outs.last());
        assert(outs.last().path != outs[i].path);
        assert(outs.drop_last()[i] == outs[i]);
        lemma_last_write_wins(outs.drop_last(), i);
    }
}

/// Law: duplicate sanitized paths resolve to the later entry — after
/// applying all planned writes, the path of write `i`, when no later write
/// touches it, holds exactly write `i`'s data.
pub proof fn lemma_apply_last_wins(m: Map<Seq<Seq<u8>>, Seq<u8>>, outs: Seq<FileModel>, i: int)
    requires
        0 <= i < outs.len(),
        forall|j: int| i < j < outs.len() ==> (#[trigger] outs[j]).path != outs[i].path,
    ensures
        apply_outputs(m, outs).contains_key(outs[i].path),
        apply_outputs(m, outs)[outs[i].path] == outs[i].data,
{
    lemma_last_write_wins(outs, i);
    lemma_apply_outputs_at(m, outs, outs[i].path);
}

/// Law: applying the same planned writes twice yields the same final state
/// as applying them once — extraction with overwriting is idempotent, since
/// the plan is a function of the archive bytes alone.
pub proof fn lemma_apply_outputs_idempotent(m: Map<Seq<Seq<u8>>, Seq<u8>>, outs: Seq<FileModel>)
    ensures
        apply_outputs(apply_outputs(m, outs), outs) == apply_outputs(m, outs),
{
    let once = apply_outputs(m, outs);
    let twice = apply_outputs(once, outs);
    assert_maps_equal!(twice, once, p => {
        lemma_apply_outputs_at(m, outs, p);
        lemma_apply_outputs_at(once, outs, p);
    });
}

/// Law: every planned file write carries data validated against some
/// entry: the data is exactly what extracting that entry yields, its
/// CRC-32 equals that entry's declared CRC-32, and its length equals that
/// entry's declared uncompressed size.
pub proof fn lemma_outputs_validated(s: Seq<u8>, es: Seq<EntryModel>)
    ensures
        forall|i: int|
            0 <= i < outputs_of(s, es).len() ==> exists|j: int|
                0 <= j < es.len() && entry_data(s, #[trigger] es[j]) == Ok::<Seq<u8>, EntryError>(
                    (#[trigger] outputs_of(s, es)[i]).data,
                ) && crc32_of(outputs_of(s, es)[i].data) == es[j].crc32 && outputs_of(s, es)[i].data.len()
                    == es[j].uncompressed_size,
    decreases es.len(),
{
    if es.len() > 0 {
        let t = es.drop_last();
        lemma_outputs_validated(s, t);
        lemma_entry_data_validated(s, es.last());
        assert(es[es.len() - 1] == es.last());
        assert forall|i: int| 0 <= i < outputs_of(s, es).len() implies exists|j: int|
            0 <= j < es.len() && entry_data(s, #[trigger] es[j]) == Ok::<Seq<u8>, EntryError>(
                (#[trigger] outputs_of(s, es)[i]).data,
            ) && crc32_of(outputs_of(s, es)[i].data) == es[j].crc32 && outputs_of(s, es)[i].data.len()
                == es[j].uncompressed_size by {
            if i < outputs_of(s, t).len() {
                assert(outputs_of(s, es)[i] == outputs_of(s, t)[i]);
                let j = choose|j: int|
                    0 <= j < t.len() && entry_data(s, #[trigger] t[j]) == Ok::<
                        Seq<u8>,
                        EntryError,
                    >(outputs_of(s, t)[i].data) && crc32_of(outputs_of(s, t)[i].data) == t[j].crc32
                        && outputs_of(s, t)[i].data.len() == t[j].uncompressed_size;
                assert(es[j] == t[j]);
            } else {
                assert(outputs_of(s, es)[i] == outputs_of(s, es).last());
            }
        }
    }
}

} // verus!
