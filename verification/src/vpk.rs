//! The read-only VPK archive directory parser.
//!
//! A VPK directory file opens with a fixed header (version 1 or 2) and a
//! tree of null-terminated strings, three levels deep: extension, folder,
//! file name, each level ended by an empty string. Every file name is
//! followed by a fixed directory-entry record whose terminator field must
//! hold `0xFFFF`. `spec_vpk_load` states what parsing means, byte for
//! byte; `Vpk::from_bytes` is proved against it.

use vstd::prelude::*;
use vstd::utf8::{valid_utf8, decode_utf8};
use crate::strutil::string_from_utf8;
use crate::wire::{le_val, pow256, read_le};

verus! {

/// The VPK header signature.
pub const VPK_SIGNATURE: u32 = 0x55AA1234;

/// The archive-index sentinel meaning "the payload follows the directory".
pub const VPK_DIR_INDEX: u16 = 0x7fff;

/// The required value of every directory entry's terminator field.
pub const VPK_TERMINATOR: u16 = 0xffff;

/// Errors of the VPK parser.
#[derive(Debug, PartialEq, Eq, Structural)]
pub enum VpkError {
    /// The data ended where a header, record or preload block was owed.
    IoError,
    /// The version field holds neither 1 nor 2.
    UnsupportedVersion(u32),
    /// A directory entry's terminator field held this value instead of `0xFFFF`.
    InvalidEntryTerminator(u16),
    /// The signature field held this value instead of `0x55AA1234`.
    InvalidSignature(u32),
    /// The directory file's path has no parent directory.
    NoParentDir,
    /// A tree name could not be decoded as UTF-8.
    FailedReadDirEntry,
    /// An unknown failure.
    Unknown,
}

/// One fixed-size directory entry record.
#[derive(Debug, Clone, Copy, PartialEq, Eq, Structural)]
pub struct VpkDirEntry {
    /// CRC32 of the file's data.
    pub crc: u32,
    /// How many bytes of the file are inlined right after the record.
    pub preload_bytes: u16,
    /// Which numbered archive holds the data; `VPK_DIR_INDEX` means this file.
    pub archive_index: u16,
    /// Offset of the data, relative to the data section when
    /// `archive_index` is `VPK_DIR_INDEX`, else within that archive.
    pub entry_offset: u32,
    /// Length of the out-of-line data in bytes.
    pub entry_length: u32,
    /// Must hold `VPK_TERMINATOR`.
    pub terminator: u16,
}

/// The fixed header shared by both versions.
#[derive(Debug, Clone, Copy, PartialEq, Eq, Structural)]
pub struct VpkHeaderV1 {
    pub signature: u32,
    pub version: u32,
    /// The size, in bytes, of the directory tree.
    pub tree_length: u32,
}

/// The version-2 header: the shared part plus four section sizes.
#[derive(Debug, Clone, Copy, PartialEq, Eq, Structural)]
pub struct VpkHeaderV2 {
    pub v1: VpkHeaderV1,
    pub file_data_section_size: u32,
    pub archive_md5_section_size: u32,
    pub other_md5_section_size: u32,
    pub signature_section_size: u32,
}

/// One indexed file: its composed `folder/name.extension` path and record.
#[derive(Debug)]
pub struct VpkFile {
    pub path: String,
    pub entry: VpkDirEntry,
}

/// The mathematical model of one indexed file.
pub ghost struct VpkFileView {
    pub path: Seq<char>,
    pub entry: VpkDirEntry,
}

/// Reads the bytes of a null-terminated string at `pos`; `None` when the
/// data ends before the null.
pub open spec fn spec_read_nullstr(d: Seq<u8>, pos: int) -> Option<(Seq<u8>, int)>
    decreases d.len() - pos,
{
    if pos < 0 || pos >= d.len() {
        None
    } else if d[pos] == 0 {
        Some((Seq::empty(), pos + 1))
    } else {
        match spec_read_nullstr(d, pos + 1) {
            None => None,
            Some(sp) => Some((seq![d[pos]] + sp.0, sp.1)),
        }
    }
}

pub proof fn lemma_nullstr_advance(d: Seq<u8>, pos: int)
    requires
        0 <= pos,
    ensures
        spec_read_nullstr(d, pos) matches Some(sp) ==> pos < sp.1 <= d.len() && sp.1 == pos
            + sp.0.len() + 1,
    decreases d.len() - pos,
{
    if pos < d.len() && d[pos] != 0 {
        lemma_nullstr_advance(d, pos + 1);
    }
}

/// The value of `spec_read_nullstr` when the terminating null sits at `z`.
pub proof fn lemma_nullstr_value(d: Seq<u8>, pos: int, z: int)
    requires
        0 <= pos <= z < d.len(),
        d[z] == 0,
        forall|j: int| pos <= j < z ==> d[j] != 0,
    ensures
        spec_read_nullstr(d, pos) == Some((d.subrange(pos, z), z + 1)),
    decreases z - pos,
{
    if pos == z {
        assert(d.subrange(pos, z) =~= Seq::<u8>::empty());
    } else {
        lemma_nullstr_value(d, pos + 1, z);
        assert(seq![d[pos]] + d.subrange(pos + 1, z) =~= d.subrange(pos, z));
    }
}

/// `spec_read_nullstr` finds nothing when no null follows `pos`.
pub proof fn lemma_nullstr_none(d: Seq<u8>, pos: int)
    requires
        0 <= pos,
        forall|j: int| pos <= j < d.len() ==> d[j] != 0,
    ensures
        spec_read_nullstr(d, pos) is None,
    decreases d.len() - pos,
{
    if pos < d.len() {
        lemma_nullstr_none(d, pos + 1);
    }
}

/// Parses one directory-entry record at `pos` and skips its preload bytes.
pub open spec fn spec_record(d: Seq<u8>, pos: int) -> Result<(VpkDirEntry, int), VpkError> {
    if pos + 18 > d.len() {
        Err(VpkError::IoError)
    } else {
        let entry = VpkDirEntry {
            crc: le_val(d.subrange(pos, pos + 4)) as u32,
            preload_bytes: le_val(d.subrange(pos + 4, pos + 6)) as u16,
            archive_index: le_val(d.subrange(pos + 6, pos + 8)) as u16,
            entry_offset: le_val(d.subrange(pos + 8, pos + 12)) as u32,
            entry_length: le_val(d.subrange(pos + 12, pos + 16)) as u32,
            terminator: le_val(d.subrange(pos + 16, pos + 18)) as u16,
        };
        if entry.terminator != VPK_TERMINATOR {
            Err(VpkError::InvalidEntryTerminator(entry.terminator))
        } else if pos + 18 + entry.preload_bytes > d.len() {
            Err(VpkError::IoError)
        } else {
            Ok((entry, pos + 18 + entry.preload_bytes))
        }
    }
}

/// The composed logical path of one leaf.
pub open spec fn spec_vpk_path(folder: Seq<char>, name: Seq<char>, ext: Seq<char>) -> Seq<char> {
    folder + seq!['/'] + name + seq!['.'] + ext
}

/// Parses the directory tree from `pos` on. `level` says what the next
/// string is: 0 an extension, 1 a folder, 2 a file name. An empty string
/// (or the end of the data) closes the current level; the names are
/// UTF-8, and one that is not refuses the directory.
pub open spec fn spec_tree(d: Seq<u8>, pos: int, level: int, ext: Seq<char>, folder: Seq<char>) -> Result<
    (Seq<VpkFileView>, int),
    VpkError,
>
    decreases d.len() - pos, level,
    when 0 <= pos && 0 <= level <= 2
    via spec_tree_decreases
{
    match spec_read_nullstr(d, pos) {
        None => {
            if level == 0 {
                Ok((Seq::empty(), pos))
            } else if level == 1 {
                spec_tree(d, pos, 0, ext, folder)
            } else {
                spec_tree(d, pos, 1, ext, folder)
            }
        },
        Some(sp) => {
            if sp.0.len() == 0 {
                if level == 0 {
                    Ok((Seq::empty(), sp.1))
                } else if level == 1 {
                    spec_tree(d, sp.1, 0, ext, folder)
                } else {
                    spec_tree(d, sp.1, 1, ext, folder)
                }
            } else if !valid_utf8(sp.0) {
                Err(VpkError::FailedReadDirEntry)
            } else {
                let s = decode_utf8(sp.0);
                if level == 0 {
                    spec_tree(d, sp.1, 1, s, folder)
                } else if level == 1 {
                    spec_tree(d, sp.1, 2, ext, s)
                } else {
                    match spec_record(d, sp.1) {
                        Err(e) => Err(e),
                        Ok(rp) => match spec_tree(d, rp.1, 2, ext, folder) {
                            Err(e) => Err(e),
                            Ok(fe) => Ok(
                                (
                                    seq![
                                        VpkFileView {
                                            path: spec_vpk_path(folder, s, ext),
                                            entry: rp.0,
                                        },
                                    ] + fe.0,
                                    fe.1,
                                ),
                            ),
                        },
                    }
                }
            }
        },
    }
}

#[via_fn]
proof fn spec_tree_decreases(d: Seq<u8>, pos: int, level: int, ext: Seq<char>, folder: Seq<char>) {
    lemma_nullstr_advance(d, pos);
}

/// The mathematical model of a successfully parsed directory file.
pub ghost struct VpkParsed {
    pub version: u8,
    pub tree_length: u32,
    pub files: Seq<VpkFileView>,
}

/// What parsing a directory file means: validate the signature, dispatch
/// on the version, then walk the tree.
pub open spec fn spec_vpk_load(d: Seq<u8>) -> Result<VpkParsed, VpkError> {
    if d.len() < 12 {
        Err(VpkError::IoError)
    } else {
        let sig = le_val(d.subrange(0, 4));
        if sig != VPK_SIGNATURE {
            Err(VpkError::InvalidSignature(sig as u32))
        } else {
            let ver = le_val(d.subrange(4, 8));
            let tree_length = le_val(d.subrange(8, 12)) as u32;
            if ver == 1 {
                match spec_tree(d, 12, 0, Seq::empty(), Seq::empty()) {
                    Err(e) => Err(e),
                    Ok(fe) => Ok(VpkParsed { version: 1, tree_length, files: fe.0 }),
                }
            } else if ver == 2 {
                if d.len() < 28 {
                    Err(VpkError::IoError)
                } else {
                    match spec_tree(d, 28, 0, Seq::empty(), Seq::empty()) {
                        Err(e) => Err(e),
                        Ok(fe) => Ok(VpkParsed { version: 2, tree_length, files: fe.0 }),
                    }
                }
            } else {
                Err(VpkError::UnsupportedVersion(ver as u32))
            }
        }
    }
}

/// The record a path resolves to: the last record indexed under it, as
/// repeated insertion into a map would leave it.
pub open spec fn spec_vpk_lookup(files: Seq<VpkFileView>, name: Seq<char>) -> Option<VpkDirEntry>
    decreases files.len(),
{
    if files.len() == 0 {
        None
    } else if files.last().path == name {
        Some(files.last().entry)
    } else {
        spec_vpk_lookup(files.drop_last(), name)
    }
}

/// Reads the bytes of one null-terminated string at `pos`, as
/// `spec_read_nullstr` describes.
fn read_nullstr(data: &[u8], pos: usize) -> (r: Option<(Vec<u8>, usize)>)
    ensures
        match r {
            Some(p) => spec_read_nullstr(data@, pos as int) matches Some(sp) && p.0@ == sp.0
                && p.1 == sp.1,
            None => spec_read_nullstr(data@, pos as int) is None,
        },
{
    let len = data.len();
    if pos >= len {
        return None;
    }
    let mut i: usize = pos;
    while i < len && data[i] != 0
        invariant
            pos <= i <= len == data@.len(),
            forall|j: int| pos <= j < i ==> data@[j] != 0,
        decreases len - i,
    {
        i = i + 1;
    }
    if i == len {
        proof {
            lemma_nullstr_none(data@, pos as int);
        }
        return None;
    }
    let buf = vstd::slice::slice_to_vec(vstd::slice::slice_subrange(data, pos, i));
    proof {
        lemma_nullstr_value(data@, pos as int, i as int);
    }
    Some((buf, i + 1))
}

/// Reads one directory-entry record at `pos`, as `spec_record` describes.
fn read_record(data: &[u8], pos: usize) -> (r: Result<(VpkDirEntry, usize), VpkError>)
    ensures
        match r {
            Ok(p) => spec_record(data@, pos as int) matches Ok(sp) && p.0 == sp.0 && p.1 == sp.1,
            Err(e) => spec_record(data@, pos as int) == Err::<(VpkDirEntry, int), VpkError>(e),
        },
{
    let (crc_v, p) = match read_le(data, pos, 4) {
        Some(x) => x,
        None => return Err(VpkError::IoError),
    };
    let (pre_v, p) = match read_le(data, p, 2) {
        Some(x) => x,
        None => return Err(VpkError::IoError),
    };
    let (ai_v, p) = match read_le(data, p, 2) {
        Some(x) => x,
        None => return Err(VpkError::IoError),
    };
    let (off_v, p) = match read_le(data, p, 4) {
        Some(x) => x,
        None => return Err(VpkError::IoError),
    };
    let (len_v, p) = match read_le(data, p, 4) {
        Some(x) => x,
        None => return Err(VpkError::IoError),
    };
    let (term_v, p) = match read_le(data, p, 2) {
        Some(x) => x,
        None => return Err(VpkError::IoError),
    };
    proof {
        crate::wire::lemma_pow256_16();
        crate::wire::lemma_le_val_bound(data@.subrange(pos as int, pos + 4));
        crate::wire::lemma_le_val_bound(data@.subrange(pos + 4, pos + 6));
        crate::wire::lemma_le_val_bound(data@.subrange(pos + 6, pos + 8));
        crate::wire::lemma_le_val_bound(data@.subrange(pos + 8, pos + 12));
        crate::wire::lemma_le_val_bound(data@.subrange(pos + 12, pos + 16));
        crate::wire::lemma_le_val_bound(data@.subrange(pos + 16, pos + 18));
    }
    let entry = VpkDirEntry {
        crc: crc_v as u32,
        preload_bytes: pre_v as u16,
        archive_index: ai_v as u16,
        entry_offset: off_v as u32,
        entry_length: len_v as u32,
        terminator: term_v as u16,
    };
    if entry.terminator != VPK_TERMINATOR {
        return Err(VpkError::InvalidEntryTerminator(entry.terminator));
    }
    let rem = data.len() - p;
    if entry.preload_bytes as usize > rem {
        return Err(VpkError::IoError);
    }
    Ok((entry, p + entry.preload_bytes as usize))
}

/// The mathematical model of a loaded directory file.
pub ghost struct VpkView {
    pub version: u8,
    pub path: Seq<char>,
    pub tree_length: u32,
    pub files: Seq<VpkFileView>,
}

/// A parsed, in-memory VPK directory index.
#[derive(Debug)]
pub struct Vpk {
    version: u8,
    path: String,
    tree_length: u32,
    files: Vec<VpkFile>,
}

impl View for Vpk {
    type V = VpkView;

    closed spec fn view(&self) -> VpkView {
        VpkView {
            version: self.version,
            path: self.path@,
            tree_length: self.tree_length,
            files: Seq::new(
                self.files@.len(),
                |i: int| VpkFileView { path: self.files@[i].path@, entry: self.files@[i].entry },
            ),
        }
    }
}

impl VpkHeaderV1 {
    /// Reads the twelve-byte shared header, when the data holds it.
    pub fn parse(data: &[u8]) -> (r: Option<VpkHeaderV1>)
        ensures
            match r {
                Some(h) => data@.len() >= 12 && h.signature == le_val(data@.subrange(0, 4)) as u32
                    && h.version == le_val(data@.subrange(4, 8)) as u32 && h.tree_length == le_val(
                    data@.subrange(8, 12),
                ) as u32,
                None => data@.len() < 12,
            },
    {
        let (sig, p) = match read_le(data, 0, 4) {
            Some(x) => x,
            None => return None,
        };
        let (ver, p) = match read_le(data, p, 4) {
            Some(x) => x,
            None => return None,
        };
        let (tl, _p) = match read_le(data, p, 4) {
            Some(x) => x,
            None => return None,
        };
        proof {
            crate::wire::lemma_pow256_16();
            crate::wire::lemma_le_val_bound(data@.subrange(0, 4));
            crate::wire::lemma_le_val_bound(data@.subrange(4, 8));
            crate::wire::lemma_le_val_bound(data@.subrange(8, 12));
        }
        Some(VpkHeaderV1 { signature: sig as u32, version: ver as u32, tree_length: tl as u32 })
    }
}

impl VpkHeaderV2 {
    /// Reads the 28-byte version-2 header, when the data holds it.
    pub fn parse(data: &[u8]) -> (r: Option<VpkHeaderV2>)
        ensures
            match r {
                Some(h) => data@.len() >= 28 && h.file_data_section_size == le_val(
                    data@.subrange(12, 16),
                ) as u32 && h.archive_md5_section_size == le_val(data@.subrange(16, 20)) as u32
                    && h.other_md5_section_size == le_val(data@.subrange(20, 24)) as u32
                    && h.signature_section_size == le_val(data@.subrange(24, 28)) as u32,
                None => data@.len() < 28,
            },
    {
        let v1 = match VpkHeaderV1::parse(data) {
            Some(h) => h,
            None => return None,
        };
        let (fd, p) = match read_le(data, 12, 4) {
            Some(x) => x,
            None => return None,
        };
        let (am, p) = match read_le(data, p, 4) {
            Some(x) => x,
            None => return None,
        };
        let (om, p) = match read_le(data, p, 4) {
            Some(x) => x,
            None => return None,
        };
        let (ss, _p) = match read_le(data, p, 4) {
            Some(x) => x,
            None => return None,
        };
        proof {
            crate::wire::lemma_pow256_16();
            crate::wire::lemma_le_val_bound(data@.subrange(12, 16));
            crate::wire::lemma_le_val_bound(data@.subrange(16, 20));
            crate::wire::lemma_le_val_bound(data@.subrange(20, 24));
            crate::wire::lemma_le_val_bound(data@.subrange(24, 28));
        }
        Some(
            VpkHeaderV2 {
                v1,
                file_data_section_size: fd as u32,
                archive_md5_section_size: am as u32,
                other_md5_section_size: om as u32,
                signature_section_size: ss as u32,
            },
        )
    }
}

/// The views of a sequence of indexed files.
pub open spec fn files_view(s: Seq<VpkFile>) -> Seq<VpkFileView> {
    Seq::new(s.len(), |i: int| VpkFileView { path: s[i].path@, entry: s[i].entry })
}

impl Vpk {
    /// Parses a directory file from its raw bytes, exactly as
    /// `spec_vpk_load` describes; `path` records where the bytes came from.
    pub fn from_bytes(data: &[u8], path: String) -> (r: Result<Vpk, VpkError>)
        ensures
            match r {
                Ok(v) => spec_vpk_load(data@) matches Ok(pv) && v@.version == pv.version
                    && v@.tree_length == pv.tree_length && v@.files == pv.files && v@.path
                    == path@,
                Err(e) => spec_vpk_load(data@) == Err::<VpkParsed, VpkError>(e),
            },
    {
        let h1 = match VpkHeaderV1::parse(data) {
            Some(h) => h,
            None => return Err(VpkError::IoError),
        };
        proof {
            crate::wire::lemma_pow256_16();
            crate::wire::lemma_le_val_bound(data@.subrange(0, 4));
            crate::wire::lemma_le_val_bound(data@.subrange(4, 8));
            crate::wire::lemma_le_val_bound(data@.subrange(8, 12));
        }
        if h1.signature != VPK_SIGNATURE {
            return Err(VpkError::InvalidSignature(h1.signature));
        }
        let start: usize = if h1.version == 1 {
            12
        } else if h1.version == 2 {
            if VpkHeaderV2::parse(data).is_none() {
                return Err(VpkError::IoError);
            }
            28
        } else {
            return Err(VpkError::UnsupportedVersion(h1.version));
        };
        let mut files: Vec<VpkFile> = Vec::new();
        let mut pos: usize = start;
        let mut level: u8 = 0;
        let mut ext = String::new();
        let mut folder = String::new();
        let ghost d = data@;
        proof {
            assert(start <= d.len());
        }
        loop
            invariant_except_break
                spec_tree(d, start as int, 0, Seq::empty(), Seq::empty()) == (match spec_tree(
                    d,
                    pos as int,
                    level as int,
                    ext@,
                    folder@,
                ) {
                    Ok(fe) => Ok::<(Seq<VpkFileView>, int), VpkError>(
                        (files_view(files@) + fe.0, fe.1),
                    ),
                    Err(e) => Err::<(Seq<VpkFileView>, int), VpkError>(e),
                }),
            invariant
                0 <= level <= 2,
                pos <= d.len() && d == data@,
                start <= d.len(),
                spec_vpk_load(d) == (match spec_tree(d, start as int, 0, Seq::empty(), Seq::empty()) {
                    Ok(fe) => Ok::<VpkParsed, VpkError>(
                        VpkParsed {
                            version: h1.version as u8,
                            tree_length: h1.tree_length,
                            files: fe.0,
                        },
                    ),
                    Err(e) => Err::<VpkParsed, VpkError>(e),
                }),
            ensures
                spec_tree(d, start as int, 0, Seq::empty(), Seq::empty()) matches Ok(fe) && fe.0
                    == files_view(files@),
            decreases d.len() - pos, level as int,
        {
            let ghost files_old = files@;
            let ghost ext_old = ext@;
            let ghost folder_old = folder@;
            match read_nullstr(data, pos) {
                None => {
                    if level == 0 {
                        proof {
                            assert(files_view(files@) + Seq::<VpkFileView>::empty()
                                =~= files_view(files@));
                        }
                        break;
                    }
                    level = level - 1;
                },
                Some((buf, p2)) => {
                    proof {
                        lemma_nullstr_advance(d, pos as int);
                    }
                    if buf.is_empty() {
                        if level == 0 {
                            proof {
                                assert(files_view(files@) + Seq::<VpkFileView>::empty()
                                    =~= files_view(files@));
                            }
                            break;
                        }
                        pos = p2;
                        level = level - 1;
                    } else {
                        let s = match string_from_utf8(buf) {
                            Some(s) => s,
                            None => {
                                return Err(VpkError::FailedReadDirEntry);
                            },
                        };
                        if level == 0 {
                            ext = s;
                            level = 1;
                            pos = p2;
                        } else if level == 1 {
                            folder = s;
                            level = 2;
                            pos = p2;
                        } else {
                            match read_record(data, p2) {
                                Err(e) => {
                                    return Err(e);
                                },
                                Ok((entry, p3)) => {
                                    let a = crate::strutil::concat3_str(
                                        folder.as_str(),
                                        "/",
                                        s.as_str(),
                                    );
                                    let full = crate::strutil::concat3_str(
                                        a.as_str(),
                                        ".",
                                        ext.as_str(),
                                    );
                                    proof {
                                        reveal_strlit("/");
                                        reveal_strlit(".");
                                        assert("/"@ =~= seq!['/']);
                                        assert("."@ =~= seq!['.']);
                                        assert(full@ =~= spec_vpk_path(folder@, s@, ext@));
                                    }
                                    files.push(VpkFile { path: full, entry });
                                    pos = p3;
                                    proof {
                                        let fe_new = spec_tree(
                                            d,
                                            pos as int,
                                            2,
                                            ext@,
                                            folder@,
                                        );
                                        if fe_new is Ok {
                                            let nf = VpkFileView {
                                                path: spec_vpk_path(folder_old, s@, ext_old),
                                                entry,
                                            };
                                            assert(files_view(files@) =~= files_view(
                                                files_old,
                                            ).push(nf));
                                            assert(files_view(files_old) + (seq![nf]
                                                + fe_new->Ok_0.0) =~= files_view(files@)
                                                + fe_new->Ok_0.0);
                                        }
                                    }
                                },
                            }
                        }
                    }
                },
            }
        }
        let v = Vpk { version: h1.version as u8, path, tree_length: h1.tree_length, files };
        proof {
            assert(v@.files =~= files_view(v.files@));
        }
        Ok(v)
    }

    /// The format version this directory file declared: 1 or 2.
    pub fn version(&self) -> (r: u8)
        ensures
            r == self@.version,
    {
        self.version
    }

    /// The path the directory file was loaded from.
    pub fn get_path(&self) -> (r: &String)
        ensures
            r@ == self@.path,
    {
        &self.path
    }

    /// The declared length of the directory tree in bytes.
    pub fn tree_length(&self) -> (r: u32)
        ensures
            r == self@.tree_length,
    {
        self.tree_length
    }

    /// How many leaf records the directory tree held.
    pub fn file_count(&self) -> (r: usize)
        ensures
            r == self@.files.len(),
    {
        self.files.len()
    }

    /// The indexed file at `i`, in tree order.
    pub fn file_at(&self, i: usize) -> (r: &VpkFile)
        requires
            i < self@.files.len(),
        ensures
            r.path@ == self@.files[i as int].path,
            r.entry == self@.files[i as int].entry,
    {
        &self.files[i]
    }

    /// Whether some record is indexed under `name`.
    pub fn contains_path(&self, name: &str) -> (r: bool)
        ensures
            r == (spec_vpk_lookup(self@.files, name@) is Some),
    {
        self.find(name).is_some()
    }

    /// The record `name` resolves to: the last one indexed under it.
    pub fn find(&self, name: &str) -> (r: Option<&VpkDirEntry>)
        ensures
            match r {
                Some(e) => spec_vpk_lookup(self@.files, name@) == Some(*e),
                None => spec_vpk_lookup(self@.files, name@) is None,
            },
    {
        let n = self.files.len();
        let mut i: usize = n;
        proof {
            assert(self@.files.take(n as int) =~= self@.files);
        }
        while i > 0
            invariant
                i <= n == self.files@.len(),
                spec_vpk_lookup(self@.files, name@) == spec_vpk_lookup(
                    self@.files.take(i as int),
                    name@,
                ),
            decreases i,
        {
            let ghost pre = self@.files.take(i as int);
            i = i - 1;
            proof {
                assert(pre.drop_last() =~= self@.files.take(i as int));
                assert(pre.last() == self@.files[i as int]);
            }
            if crate::strutil::str_eq(self.files[i].path.as_str(), name) {
                assert(self@.files[i as int].path == self.files@[i as int].path@);
                return Some(&self.files[i].entry);
            }
        }
        proof {
            assert(self@.files.take(0) =~= Seq::<VpkFileView>::empty());
        }
        None
    }
}

} // verus!
