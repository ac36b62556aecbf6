//! Locating the end-of-central-directory record and parsing the central
//! directory into the entry index.

use vstd::prelude::*;
use crate::le::{u16_le, u32_le, u64_le, read_u16, read_u32, read_u64, copy_range};
use crate::meta::{
    Archive,
    ArchiveModel,
    EntryMetadata,
    EntryModel,
    entry_models,
    CDIR_SIG,
    EOCD_SIG,
    ZIP64_EOCD_SIG,
    ZIP64_EXTRA_ID,
    ZIP64_LOCATOR_SIG,
};

verus! {

/// A structural failure: the archive cannot be trusted, and extraction must
/// not begin. The payload is the byte offset near which parsing failed.
#[derive(Clone, Copy, Debug)]
pub enum ParseError {
    MalformedArchive(u64),
}

/// An end-of-central-directory record sits at `i`: its signature matches and
/// its declared comment runs exactly to the end of the archive.
pub open spec fn eocd_at(s: Seq<u8>, i: int) -> bool {
    &&& 0 <= i
    &&& i + 22 <= s.len()
    &&& u32_le(s, i) == EOCD_SIG
    &&& i + 22 + u16_le(s, i + 20) == s.len()
}

/// The record the engine goes by: the last position that carries a valid
/// end-of-central-directory record.
pub open spec fn chosen_eocd(s: Seq<u8>, i: int) -> bool {
    eocd_at(s, i) && forall|j: int| i < j ==> !#[trigger] eocd_at(s, j)
}

pub proof fn lemma_chosen_eocd_unique(s: Seq<u8>, i: int, j: int)
    requires
        chosen_eocd(s, i),
        chosen_eocd(s, j),
    ensures
        i == j,
{
    if i < j {
        assert(!eocd_at(s, j));
    } else if j < i {
        assert(!eocd_at(s, i));
    }
}

/// Where the central directory lies and how many entries it declares, after
/// the ZIP64 record, when present, has superseded the legacy fields.
#[verifier::ext_equal]
pub struct DirLoc {
    pub count: int,
    pub cd_offset: int,
    pub cd_size: int,
    pub comment: Seq<u8>,
}

/// Resolves the directory location declared by the record at `i`: the legacy
/// fields, unless any holds a ZIP64 sentinel, in which case the ZIP64
/// locator and record must be present and supersede them.
pub open spec fn locate_dir(s: Seq<u8>, i: int) -> Option<DirLoc> {
    let n16 = u16_le(s, i + 10);
    let size32 = u32_le(s, i + 12);
    let off32 = u32_le(s, i + 16);
    let comment = s.subrange(i + 22, i + 22 + u16_le(s, i + 20));
    if n16 == 0xffff || size32 == 0xffff_ffff || off32 == 0xffff_ffff {
        if i >= 20 && u32_le(s, i - 20) == ZIP64_LOCATOR_SIG {
            let z = u64_le(s, i - 12);
            if z + 56 <= i - 20 && u32_le(s, z) == ZIP64_EOCD_SIG {
                Some(
                    DirLoc {
                        count: u64_le(s, z + 32),
                        cd_size: u64_le(s, z + 40),
                        cd_offset: u64_le(s, z + 48),
                        comment,
                    },
                )
            } else {
                None
            }
        } else {
            None
        }
    } else {
        Some(DirLoc { count: n16, cd_size: size32, cd_offset: off32, comment })
    }
}

/// The data of the first extra-field record with header id `id` at or after
/// `p`, or `None` when no well-formed record carries it.
pub open spec fn find_extra(extra: Seq<u8>, p: int, id: int) -> Option<Seq<u8>>
    decreases extra.len() - p,
{
    if p + 4 <= extra.len() {
        let hid = u16_le(extra, p);
        let sz = u16_le(extra, p + 2);
        if p + 4 + sz <= extra.len() {
            if hid == id {
                Some(extra.subrange(p + 4, p + 4 + sz))
            } else {
                find_extra(extra, p + 4 + sz, id)
            }
        } else {
            None
        }
    } else {
        None
    }
}

/// The final 64-bit compressed size, uncompressed size and local header
/// offset of an entry: the legacy 32-bit fields, except that each one equal
/// to the ZIP64 sentinel is read, in the fixed order uncompressed size,
/// compressed size, offset, from the entry's ZIP64 extra field, which must
/// then be present and long enough.
pub open spec fn resolve_sizes(csize32: int, usize32: int, off32: int, extra: Seq<u8>) -> Option<
    (int, int, int),
> {
    if csize32 == 0xffff_ffff || usize32 == 0xffff_ffff || off32 == 0xffff_ffff {
        match find_extra(extra, 0, ZIP64_EXTRA_ID as int) {
            None => None,
            Some(d) => {
                let need = (if usize32 == 0xffff_ffff { 8int } else { 0int }) + (if csize32
                    == 0xffff_ffff {
                    8int
                } else {
                    0int
                }) + (if off32 == 0xffff_ffff {
                    8int
                } else {
                    0int
                });
                if need <= d.len() {
                    let us = if usize32 == 0xffff_ffff { u64_le(d, 0) } else { usize32 };
                    let q1 = if usize32 == 0xffff_ffff { 8int } else { 0int };
                    let cs = if csize32 == 0xffff_ffff { u64_le(d, q1) } else { csize32 };
                    let q2 = q1 + (if csize32 == 0xffff_ffff { 8int } else { 0int });
                    let off = if off32 == 0xffff_ffff { u64_le(d, q2) } else { off32 };
                    Some((cs, us, off))
                } else {
                    None
                }
            },
        }
    } else {
        Some((csize32, usize32, off32))
    }
}

/// One central directory file header at `p`: the parsed entry and the
/// position just past the header, or `None` when the header is malformed.
#[verifier::opaque]
pub open spec fn cd_record(s: Seq<u8>, p: int) -> Option<(EntryModel, int)> {
    if 0 <= p && p + 46 <= s.len() && u32_le(s, p) == CDIR_SIG {
        let name_len = u16_le(s, p + 28);
        let extra_len = u16_le(s, p + 30);
        let comment_len = u16_le(s, p + 32);
        let end = p + 46 + name_len + extra_len + comment_len;
        if end <= s.len() {
            let extra = s.subrange(p + 46 + name_len, p + 46 + name_len + extra_len);
            match resolve_sizes(u32_le(s, p + 20), u32_le(s, p + 24), u32_le(s, p + 42), extra) {
                None => None,
                Some((cs, us, off)) => Some(
                    (
                        EntryModel {
                            name: s.subrange(p + 46, p + 46 + name_len),
                            comment: s.subrange(p + 46 + name_len + extra_len, end),
                            flags: u16_le(s, p + 8) as u16,
                            method: u16_le(s, p + 10) as u16,
                            crc32: u32_le(s, p + 16) as u32,
                            mod_time: u16_le(s, p + 12) as u16,
                            mod_date: u16_le(s, p + 14) as u16,
                            compressed_size: cs as u64,
                            uncompressed_size: us as u64,
                            local_header_offset: off as u64,
                            external_attrs: u32_le(s, p + 38) as u32,
                            version_made_by: u16_le(s, p + 4) as u16,
                        },
                        end,
                    ),
                ),
            }
        } else {
            None
        }
    } else {
        None
    }
}

/// `n` consecutive central directory file headers starting at `p`: the
/// parsed entries in order and the position just past the last one.
pub open spec fn parse_cd(s: Seq<u8>, p: int, n: nat) -> Option<(Seq<EntryModel>, int)>
    decreases n,
{
    if n == 0 {
        Some((Seq::<EntryModel>::empty(), p))
    } else {
        match cd_record(s, p) {
            None => None,
            Some((e, q)) => match parse_cd(s, q, (n - 1) as nat) {
                None => None,
                Some((rest, end)) => Some((seq![e] + rest, end)),
            },
        }
    }
}

/// The archive model read going by the end-of-central-directory record at
/// `i`: the central directory must lie within the source, be long enough for
/// the declared count, parse completely, and be consumed exactly.
pub open spec fn archive_from(s: Seq<u8>, i: int) -> Option<ArchiveModel> {
    match locate_dir(s, i) {
        None => None,
        Some(loc) => {
            if 0 <= loc.cd_offset && 0 <= loc.cd_size && loc.cd_offset + loc.cd_size <= s.len()
                && 0 <= loc.count && loc.count <= loc.cd_size / 46 {
                match parse_cd(s, loc.cd_offset, loc.count as nat) {
                    None => None,
                    Some((entries, end)) => {
                        if end == loc.cd_offset + loc.cd_size {
                            Some(ArchiveModel { entries, comment: loc.comment })
                        } else {
                            None
                        }
                    },
                }
            } else {
                None
            }
        },
    }
}

/// The archive model of a byte source: what parsing yields when a valid
/// end-of-central-directory record exists, going by the last one.
pub open spec fn archive_of(s: Seq<u8>) -> Option<ArchiveModel> {
    if exists|i: int| chosen_eocd(s, i) {
        archive_from(s, choose|i: int| chosen_eocd(s, i))
    } else {
        None
    }
}

/// Scans backward from the end for the last valid end-of-central-directory
/// record.
pub fn find_eocd(b: &Vec<u8>) -> (r: Option<usize>)
    ensures
        match r {
            Some(i) => chosen_eocd(b@, i as int),
            None => forall|i: int| !#[trigger] eocd_at(b@, i),
        },
{
    let n = b.len();
    if n < 22 {
        return None;
    }
    let mut i: usize = n - 22;
    loop
        invariant
            n == b.len(),
            n >= 22,
            i <= n - 22,
            forall|j: int| i < j ==> !#[trigger] eocd_at(b@, j),
        decreases i,
    {
        let sig = read_u32(b, i);
        if sig == EOCD_SIG {
            let clen = read_u16(b, i + 20);
            if (clen as usize) == n - (i + 22) {
                proof {
                    assert(eocd_at(b@, i as int));
                }
                return Some(i);
            }
        }
        proof {
            assert(!eocd_at(b@, i as int));
        }
        if i == 0 {
            return None;
        }
        i = i - 1;
    }
}

/// The directory location, with 64-bit fields, as the exec parser hands it
/// on.
pub struct DirLocation {
    pub count: u64,
    pub cd_offset: u64,
    pub cd_size: u64,
    pub comment: Vec<u8>,
}

/// Resolves the directory location from the end-of-central-directory record
/// at `i`, following the ZIP64 locator when the legacy fields are sentinels.
pub fn locate_dir_exec(b: &Vec<u8>, i: usize) -> (r: Option<DirLocation>)
    requires
        eocd_at(b@, i as int),
    ensures
        match r {
            Some(d) => locate_dir(b@, i as int) == Some(
                DirLoc {
                    count: d.count as int,
                    cd_offset: d.cd_offset as int,
                    cd_size: d.cd_size as int,
                    comment: d.comment@,
                },
            ),
            None => locate_dir(b@, i as int) is None,
        },
{
    let n = b.len();
    proof {
        assert(i as int + 22 <= n as int);
    }
    let n16 = read_u16(b, i + 10);
    let size32 = read_u32(b, i + 12);
    let off32 = read_u32(b, i + 16);
    let comment = copy_range(b, i + 22, b.len());
    proof {
        assert(comment@ =~= b@.subrange(i + 22, i + 22 + u16_le(b@, i as int + 20)));
    }
    if n16 == 0xffff || size32 == 0xffff_ffff || off32 == 0xffff_ffff {
        if i >= 20 {
            let locator_sig = read_u32(b, i - 20);
            if locator_sig == ZIP64_LOCATOR_SIG {
                let z = read_u64(b, i - 12);
                if i - 20 >= 56 && z <= ((i - 20 - 56) as u64) {
                    let zi = z as usize;
                    let rec_sig = read_u32(b, zi);
                    if rec_sig == ZIP64_EOCD_SIG {
                        let count = read_u64(b, zi + 32);
                        let cd_size = read_u64(b, zi + 40);
                        let cd_offset = read_u64(b, zi + 48);
                        return Some(DirLocation { count, cd_offset, cd_size, comment });
                    } else {
                        return None;
                    }
                } else {
                    proof {
                        assert(!(u64_le(b@, i as int - 12) + 56 <= i as int - 20));
                    }
                    return None;
                }
            } else {
                return None;
            }
        } else {
            return None;
        }
    } else {
        Some(DirLocation { count: n16 as u64, cd_offset: off32 as u64, cd_size: size32 as u64, comment })
    }
}

pub proof fn lemma_u64_le_subrange(s: Seq<u8>, a: int, e: int, q: int)
    requires
        0 <= a <= e <= s.len(),
        0 <= q,
        q + 8 <= e - a,
    ensures
        u64_le(s.subrange(a, e), q) == u64_le(s, a + q),
{
}

/// Scans the extra field for the record with header id `id`, returning the
/// bounds of its data.
pub fn find_extra_range(extra: &Vec<u8>, p: usize, id: u16) -> (r: Option<(usize, usize)>)
    ensures
        match r {
            Some(ae) => ae.0 <= ae.1 <= extra@.len() && find_extra(extra@, p as int, id as int)
                == Some(extra@.subrange(ae.0 as int, ae.1 as int)),
            None => find_extra(extra@, p as int, id as int) is None,
        },
    decreases extra.len() - p,
{
    let n = extra.len();
    if n < 4 || p > n - 4 {
        return None;
    }
    let hid = read_u16(extra, p);
    let sz = read_u16(extra, p + 2) as usize;
    if sz > n - (p + 4) {
        return None;
    }
    if hid == id {
        Some((p + 4, p + 4 + sz))
    } else {
        find_extra_range(extra, p + 4 + sz, id)
    }
}

/// Resolves an entry's final sizes and offset, reading its ZIP64 extra
/// field for each legacy field that holds the sentinel.
pub fn resolve_entry_sizes(csize32: u32, usize32: u32, off32: u32, extra: &Vec<u8>) -> (r: Option<
    (u64, u64, u64),
>)
    ensures
        match r {
            Some(t) => resolve_sizes(csize32 as int, usize32 as int, off32 as int, extra@)
                == Some((t.0 as int, t.1 as int, t.2 as int)),
            None => resolve_sizes(csize32 as int, usize32 as int, off32 as int, extra@) is None,
        },
{
    if csize32 == 0xffff_ffff || usize32 == 0xffff_ffff || off32 == 0xffff_ffff {
        match find_extra_range(extra, 0, ZIP64_EXTRA_ID) {
            None => None,
            Some((a, e)) => {
                let ghost d = extra@.subrange(a as int, e as int);
                let dlen = e - a;
                let mut need: usize = 0;
                if usize32 == 0xffff_ffff {
                    need = need + 8;
                }
                if csize32 == 0xffff_ffff {
                    need = need + 8;
                }
                if off32 == 0xffff_ffff {
                    need = need + 8;
                }
                if need > dlen {
                    return None;
                }
                let mut q: usize = a;
                let us: u64;
                if usize32 == 0xffff_ffff {
                    us = read_u64(extra, q);
                    proof {
                        lemma_u64_le_subrange(extra@, a as int, e as int, 0);
                    }
                    q = q + 8;
                } else {
                    us = usize32 as u64;
                }
                let cs: u64;
                if csize32 == 0xffff_ffff {
                    cs = read_u64(extra, q);
                    proof {
                        lemma_u64_le_subrange(extra@, a as int, e as int, q - a);
                    }
                    q = q + 8;
                } else {
                    cs = csize32 as u64;
                }
                let off: u64;
                if off32 == 0xffff_ffff {
                    off = read_u64(extra, q);
                    proof {
                        lemma_u64_le_subrange(extra@, a as int, e as int, q - a);
                    }
                } else {
                    off = off32 as u64;
                }
                Some((cs, us, off))
            },
        }
    } else {
        Some((csize32 as u64, usize32 as u64, off32 as u64))
    }
}

/// Parses one central directory file header at `p`.
pub fn parse_cd_record(b: &Vec<u8>, p: usize) -> (r: Option<(EntryMetadata, usize)>)
    ensures
        match r {
            Some(eq) => cd_record(b@, p as int) == Some((eq.0@, eq.1 as int)) && p < eq.1
                <= b@.len(),
            None => cd_record(b@, p as int) is None,
        },
{
    proof {
        reveal(cd_record);
    }
    let n = b.len();
    if n < 46 || p > n - 46 {
        return None;
    }
    let sig = read_u32(b, p);
    if sig != CDIR_SIG {
        return None;
    }
    let name_len = read_u16(b, p + 28) as usize;
    let extra_len = read_u16(b, p + 30) as usize;
    let comment_len = read_u16(b, p + 32) as usize;
    let avail = n - (p + 46);
    if name_len + extra_len + comment_len > avail {
        return None;
    }
    let name_end = p + 46 + name_len;
    let extra_end = name_end + extra_len;
    let end = extra_end + comment_len;
    let name = copy_range(b, p + 46, name_end);
    let extra = copy_range(b, name_end, extra_end);
    let comment = copy_range(b, extra_end, end);
    let csize32 = read_u32(b, p + 20);
    let usize32 = read_u32(b, p + 24);
    let off32 = read_u32(b, p + 42);
    match resolve_entry_sizes(csize32, usize32, off32, &extra) {
        None => None,
        Some((cs, us, off)) => {
            let e = EntryMetadata {
                name,
                comment,
                flags: read_u16(b, p + 8),
                method: read_u16(b, p + 10),
                crc32: read_u32(b, p + 16),
                mod_time: read_u16(b, p + 12),
                mod_date: read_u16(b, p + 14),
                compressed_size: cs,
                uncompressed_size: us,
                local_header_offset: off,
                external_attrs: read_u32(b, p + 38),
                version_made_by: read_u16(b, p + 4),
            };
            proof {
                let spec_r = cd_record(b@, p as int);
                match spec_r {
                    Some((em, qq)) => {
                        assert(e@ =~= em);
                        assert(end == qq);
                    },
                    None => {
                        assert(false);
                    },
                }
            }
            Some((e, end))
        },
    }
}

proof fn lemma_parse_cd_fail(s: Seq<u8>, p: int, m: nat)
    requires
        m > 0,
        cd_record(s, p) is None,
    ensures
        parse_cd(s, p, m) is None,
{
}

proof fn lemma_models_push(v: Seq<EntryMetadata>, e: EntryMetadata)
    ensures
        entry_models(v.push(e)) == entry_models(v).push(e@),
{
    assert(entry_models(v.push(e)) =~= entry_models(v).push(e@));
}

proof fn lemma_parse_cd_shift(s: Seq<u8>, p: int, m: nat, e: EntryModel, q: int, prefix: Seq<EntryModel>)
    requires
        m > 0,
        cd_record(s, p) == Some((e, q)),
    ensures
        (match parse_cd(s, p, m) {
            None => None::<(Seq<EntryModel>, int)>,
            Some(re) => Some((prefix + re.0, re.1)),
        }) == (match parse_cd(s, q, (m - 1) as nat) {
            None => None::<(Seq<EntryModel>, int)>,
            Some(re) => Some((prefix.push(e) + re.0, re.1)),
        }),
{
    match parse_cd(s, q, (m - 1) as nat) {
        None => {
        },
        Some((rest, endp)) => {
            assert(parse_cd(s, p, m) == Some((seq![e] + rest, endp)));
            assert(prefix + (seq![e] + rest) =~= prefix.push(e) + rest);
        },
    }
}

/// Parses `total` consecutive central directory file headers starting at
/// `cd0`.
fn parse_cd_entries(b: &Vec<u8>, cd0: usize, total: usize) -> (r: Option<(Vec<EntryMetadata>, usize)>)
    requires
        cd0 <= b.len(),
    ensures
        match r {
            Some(ve) => parse_cd(b@, cd0 as int, total as nat) == Some(
                (entry_models(ve.0@), ve.1 as int),
            ) && ve.1 <= b@.len(),
            None => parse_cd(b@, cd0 as int, total as nat) is None,
        },
{
    let mut entries: Vec<EntryMetadata> = Vec::new();
    let mut pos: usize = cd0;
    let mut k: usize = 0;
    while k < total
        invariant
            k <= total,
            entries.len() == k,
            cd0 <= b.len(),
            pos <= b.len(),
            (match parse_cd(b@, pos as int, (total - k) as nat) {
                None => parse_cd(b@, cd0 as int, total as nat) is None,
                Some(re) => parse_cd(b@, cd0 as int, total as nat) == Some(
                    (entry_models(entries@) + re.0, re.1),
                ),
            }),
        decreases total - k,
    {
        let ghost oldpos = pos as int;
        let ghost m = (total - k) as nat;
        match parse_cd_record(b, pos) {
            None => {
                proof {
                    lemma_parse_cd_fail(b@, oldpos, m);
                }
                return None;
            },
            Some((e, q)) => {
                let ghost olde = entries@;
                let ghost em = e@;
                entries.push(e);
                pos = q;
                k = k + 1;
                proof {
                    lemma_models_push(olde, entries@.last());
                    lemma_parse_cd_shift(b@, oldpos, m, em, pos as int, entry_models(olde));
                }
            },
        }
    }
    proof {
        assert(parse_cd(b@, pos as int, 0nat) == Some((Seq::<EntryModel>::empty(), pos as int)));
        assert(entry_models(entries@) + Seq::<EntryModel>::empty() =~= entry_models(entries@));
    }
    Some((entries, pos))
}

impl Archive {
    /// Parses the archive from its bytes: locates the last valid
    /// end-of-central-directory record, resolves ZIP64 overrides, and reads
    /// the whole central directory, in order, into the entry index.
    #[verifier::rlimit(100)]
    pub fn parse(b: &Vec<u8>) -> (r: Result<Archive, ParseError>)
        ensures
            match r {
                Ok(a) => archive_of(b@) == Some(a@),
                Err(_) => archive_of(b@) is None,
            },
    {
        let n = b.len();
        let i = match find_eocd(b) {
            None => {
                proof {
                    assert(forall|j: int| !chosen_eocd(b@, j));
                }
                return Err(ParseError::MalformedArchive(n as u64));
            },
            Some(i) => i,
        };
        proof {
            let j = choose|j: int| chosen_eocd(b@, j);
            lemma_chosen_eocd_unique(b@, i as int, j);
            assert(archive_of(b@) == archive_from(b@, i as int));
        }
        let loc = match locate_dir_exec(b, i) {
            None => {
                return Err(ParseError::MalformedArchive(i as u64));
            },
            Some(l) => l,
        };
        if loc.cd_offset > n as u64 || loc.cd_size > n as u64 - loc.cd_offset {
            return Err(ParseError::MalformedArchive(loc.cd_offset));
        }
        if loc.count > loc.cd_size / 46 {
            return Err(ParseError::MalformedArchive(loc.cd_offset));
        }
        let cd0 = loc.cd_offset as usize;
        let total = loc.count as usize;
        let ghost s = b@;
        let (entries, pos) = match parse_cd_entries(b, cd0, total) {
            None => {
                return Err(ParseError::MalformedArchive(loc.cd_offset));
            },
            Some(ve) => ve,
        };
        if !(pos as u64 == loc.cd_offset + loc.cd_size) {
            return Err(ParseError::MalformedArchive(pos as u64));
        }
        let a = Archive { entries, comment: loc.comment };
        proof {
            match archive_from(s, i as int) {
                Some(am) => {
                    assert(a@ =~= am);
                },
                None => {
                    assert(false);
                },
            }
        }
        Ok(a)
    }
}

} // verus!
