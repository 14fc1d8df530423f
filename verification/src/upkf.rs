//! The UPKF archive container codec.
//!
//! An archive is a header (magic, version, origin, aggregate checksum, entry
//! count) followed by framed entries: each entry carries its name, metadata,
//! compression type, the CRC32 and hex SHA-256 of its compressed payload,
//! and the payload itself. `spec_load` states, byte for byte, what loading
//! means; `to_bytes` and `from_bytes` are proved against it.

use vstd::prelude::*;
use vstd::utf8::{valid_utf8, decode_utf8, encode_utf8};
use crate::compression::{CompressionType, unpack_spec, compress, decompress};
use crate::digest::{crc32_of, sha256_hex_of, crc32, sha256_hex};
use crate::strutil::{str_eq, string_from_utf8};
use crate::wire::{le_val, le_bytes, pow256, push_le, read_le};

verus! {

/// The archive magic: ASCII "UPKF" read as a little-endian u32.
pub const UPKF_MAGIC: u32 = 0x464B5055;

/// The single supported format version.
pub const UPKF_VERSION: u8 = 0;

/// Errors of the UPKF codec.
#[derive(Debug)]
pub enum UpkfError {
    /// The magic signature is not `UPKF_MAGIC`.
    NotAnUpkFileError,
    /// The data holds an invalid string or fails to decompress.
    CorruptedDataError,
    /// The version field holds an unsupported value.
    VersionNotSupportedError,
    /// An input/output failure: the caller's read or write failed, or
    /// the data ended before a declared field.
    IoError,
    /// A per-entry CRC32 mismatch, or an aggregate checksum mismatch.
    Crc32CheckFailed,
    /// A per-entry SHA-256 mismatch.
    Sha256CheckFailed,
}

/// The mathematical model of one archive element.
pub ghost struct ElementView {
    pub path: Seq<char>,
    pub meta: Seq<char>,
    pub binary: bool,
    pub compression: CompressionType,
    pub content: Seq<u8>,
    pub crc32: Option<u32>,
    pub sha256: Option<Seq<char>>,
}

/// One logical file stored inside an archive.
#[derive(Debug, Clone)]
pub struct Element {
    path: String,
    meta: String,
    binary: bool,
    compression: CompressionType,
    bytes: Vec<u8>,
    crc32: Option<u32>,
    sha256: Option<String>,
}

impl View for Element {
    type V = ElementView;

    closed spec fn view(&self) -> ElementView {
        ElementView {
            path: self.path@,
            meta: self.meta@,
            binary: self.binary,
            compression: self.compression,
            content: self.bytes@,
            crc32: self.crc32,
            sha256: match self.sha256 {
                Some(s) => Some(s@),
                None => None,
            },
        }
    }
}

impl Element {
    pub fn get_path(&self) -> (r: &String)
        ensures
            r@ == self@.path,
    {
        &self.path
    }

    pub fn get_meta(&self) -> (r: &String)
        ensures
            r@ == self@.meta,
    {
        &self.meta
    }

    pub fn is_bynary(&self) -> (r: &bool)
        ensures
            r == self@.binary,
    {
        &self.binary
    }

    pub fn get_content(&self) -> (r: &Vec<u8>)
        ensures
            r@ == self@.content,
    {
        &self.bytes
    }

    pub fn is_compressed(&self) -> (r: bool)
        ensures
            r == (self@.compression != CompressionType::NONE),
    {
        match self.compression {
            CompressionType::NONE => false,
            _ => true,
        }
    }

    pub fn get_compression(&self) -> (r: &CompressionType)
        ensures
            r == self@.compression,
    {
        &self.compression
    }

    pub fn get_crc32(&self) -> (r: &Option<u32>)
        ensures
            r == self@.crc32,
    {
        &self.crc32
    }

    pub fn get_sha256(&self) -> (r: &Option<String>)
        ensures
            match r {
                Some(s) => self@.sha256 matches Some(v) && v == s@,
                None => self@.sha256 is None,
            },
    {
        &self.sha256
    }
}

/// The mathematical model of a whole archive.
pub ghost struct UpkfView {
    pub origin: Seq<char>,
    pub path: Option<Seq<char>>,
    pub entries: Seq<ElementView>,
}

/// An in-memory UPKF archive: its origin label, the path it was loaded
/// from (absent for archives built in memory), and its elements in order.
pub struct Upkf {
    origin: String,
    path: Option<String>,
    entries: Vec<Element>,
}

impl View for Upkf {
    type V = UpkfView;

    closed spec fn view(&self) -> UpkfView {
        UpkfView {
            origin: self.origin@,
            path: match self.path {
                Some(p) => Some(p@),
                None => None,
            },
            entries: Seq::new(self.entries@.len(), |i: int| self.entries@[i]@),
        }
    }
}

impl Upkf {
    /// A fresh, empty in-memory archive with the given origin label.
    pub fn new(origin: String) -> (r: Self)
        ensures
            r@.origin == origin@,
            r@.path is None,
            r@.entries =~= Seq::<ElementView>::empty(),
    {
        Self { origin, path: None, entries: Vec::new() }
    }

    /// Appends a text element; its content is the UTF-8 encoding of `data`.
    pub fn add_text_file(&mut self, path: String, data: String, compression: CompressionType)
        ensures
            final(self)@.entries =~= old(self)@.entries.push(
                ElementView {
                    path: path@,
                    meta: Seq::<char>::empty(),
                    binary: false,
                    compression,
                    content: encode_utf8(data@),
                    crc32: None,
                    sha256: None,
                },
            ),
            final(self)@.origin == old(self)@.origin,
            final(self)@.path == old(self)@.path,
    {
        let bytes = vstd::string::StrSliceExecFns::as_bytes_vec(data.as_str());
        self.add_file(path, String::new(), bytes, false, compression)
    }

    /// Appends a binary element.
    pub fn add_binary_file(&mut self, path: String, data: Vec<u8>, compression: CompressionType)
        ensures
            final(self)@.entries =~= old(self)@.entries.push(
                ElementView {
                    path: path@,
                    meta: Seq::<char>::empty(),
                    binary: true,
                    compression,
                    content: data@,
                    crc32: None,
                    sha256: None,
                },
            ),
            final(self)@.origin == old(self)@.origin,
            final(self)@.path == old(self)@.path,
    {
        self.add_file(path, String::new(), data, true, compression)
    }

    /// Appends an element with explicit metadata and binary flag.
    pub fn add_file(
        &mut self,
        path: String,
        meta: String,
        data: Vec<u8>,
        binary: bool,
        compression: CompressionType,
    )
        ensures
            final(self)@.entries =~= old(self)@.entries.push(
                ElementView {
                    path: path@,
                    meta: meta@,
                    binary,
                    compression,
                    content: data@,
                    crc32: None,
                    sha256: None,
                },
            ),
            final(self)@.origin == old(self)@.origin,
            final(self)@.path == old(self)@.path,
    {
        self.entries.push(
            Element {
                path,
                meta,
                binary,
                compression,
                bytes: data,
                crc32: None,
                sha256: None,
            },
        );
    }

    pub fn get_path(&self) -> (r: Option<&String>)
        ensures
            match r {
                Some(p) => self@.path matches Some(v) && v == p@,
                None => self@.path is None,
            },
    {
        match &self.path {
            None => None,
            Some(path) => Some(path),
        }
    }

    pub fn get_origin(&self) -> (r: &String)
        ensures
            r@ == self@.origin,
    {
        &self.origin
    }

    /// How many elements the archive holds.
    pub fn count(&self) -> (r: usize)
        ensures
            r == self@.entries.len(),
    {
        self.entries.len()
    }

    /// The element at `i`, in on-disk order.
    pub fn get(&self, i: usize) -> (r: &Element)
        requires
            i < self@.entries.len(),
        ensures
            r@ == self@.entries[i as int],
    {
        &self.entries[i]
    }

    /// Whether some element's path equals `name`.
    pub fn contains_path(&self, name: &str) -> (r: bool)
        ensures
            r == spec_upkf_contains(self@.entries, name@),
    {
        let n = self.entries.len();
        let mut i: usize = 0;
        while i < n
            invariant
                n == self.entries@.len(),
                i <= n,
                forall|j: int| 0 <= j < i ==> self@.entries[j].path != name@,
            decreases n - i,
        {
            assert(self@.entries[i as int] == self.entries@[i as int]@);
            if str_eq(self.entries[i].get_path().as_str(), name) {
                return true;
            }
            i = i + 1;
        }
        false
    }

    /// The first element whose path equals `name`, if any.
    pub fn find(&self, name: &str) -> (r: Option<&Element>)
        ensures
            match r {
                Some(el) => {
                    let k = spec_upkf_first_match(self@.entries, name@);
                    &&& spec_upkf_contains(self@.entries, name@)
                    &&& 0 <= k < self@.entries.len()
                    &&& el@ == self@.entries[k]
                },
                None => !spec_upkf_contains(self@.entries, name@),
            },
    {
        let n = self.entries.len();
        let mut i: usize = 0;
        while i < n
            invariant
                n == self.entries@.len(),
                i <= n,
                forall|j: int| 0 <= j < i ==> self@.entries[j].path != name@,
            decreases n - i,
        {
            assert(self@.entries[i as int] == self.entries@[i as int]@);
            if str_eq(self.entries[i].get_path().as_str(), name) {
                proof {
                    lemma_upkf_first_match(self@.entries, name@, i as int);
                }
                return Some(&self.entries[i]);
            }
            i = i + 1;
        }
        None
    }
}

/// Whether some element of `es` is keyed by `name`.
pub open spec fn spec_upkf_contains(es: Seq<ElementView>, name: Seq<char>) -> bool {
    exists|i: int| 0 <= i < es.len() && es[i].path == name
}

/// The index of the first element of `es` keyed by `name`.
pub open spec fn spec_upkf_first_match(es: Seq<ElementView>, name: Seq<char>) -> int
    decreases es.len(),
{
    if es.len() == 0 {
        0
    } else if es[0].path == name {
        0
    } else {
        1 + spec_upkf_first_match(es.drop_first(), name)
    }
}

proof fn lemma_upkf_first_match(es: Seq<ElementView>, name: Seq<char>, i: int)
    requires
        0 <= i < es.len(),
        es[i].path == name,
        forall|j: int| 0 <= j < i ==> es[j].path != name,
    ensures
        spec_upkf_first_match(es, name) == i,
    decreases es.len(),
{
    if es[0].path != name {
        assert(forall|j: int| 0 <= j < i - 1 ==> es.drop_first()[j].path != name);
        lemma_upkf_first_match(es.drop_first(), name, i - 1);
    }
}

/// The raw framing of one entry: its byte-level fields, before any decoding.
pub ghost struct RawEntry {
    pub name_bytes: Seq<u8>,
    pub binary: bool,
    pub compression: CompressionType,
    pub crc: u32,
    pub sha_bytes: Seq<u8>,
    pub meta_bytes: Seq<u8>,
    pub payload: Seq<u8>,
}

/// Whether each variable-length field of `e` fits its length prefix.
pub open spec fn wf_entry(e: RawEntry) -> bool {
    &&& e.name_bytes.len() < pow256(4)
    &&& e.sha_bytes.len() < pow256(2)
    &&& e.meta_bytes.len() < pow256(4)
    &&& e.payload.len() < pow256(8)
}

/// The on-disk bytes of one framed entry.
pub open spec fn entry_bytes(e: RawEntry) -> Seq<u8> {
    le_bytes(e.payload.len() as int, 8) + le_bytes(e.name_bytes.len() as int, 4) + e.name_bytes
        + le_bytes(if e.binary { 1int } else { 0int }, 1) + le_bytes(
        e.compression.spec_code() as int,
        1,
    ) + le_bytes(e.crc as int, 4) + le_bytes(e.sha_bytes.len() as int, 2) + e.sha_bytes + le_bytes(
        e.meta_bytes.len() as int,
        4,
    ) + e.meta_bytes + e.payload
}

/// The concatenated framing of a sequence of entries.
pub open spec fn entries_bytes(es: Seq<RawEntry>) -> Seq<u8>
    decreases es.len(),
{
    if es.len() == 0 {
        Seq::empty()
    } else {
        entry_bytes(es[0]) + entries_bytes(es.drop_first())
    }
}

pub proof fn lemma_entries_bytes_push(es: Seq<RawEntry>, e: RawEntry)
    ensures
        entries_bytes(es.push(e)) == entries_bytes(es) + entry_bytes(e),
    decreases es.len(),
{
    if es.len() == 0 {
        assert(es.push(e)[0] == e);
        assert(es.push(e).drop_first() =~= Seq::<RawEntry>::empty());
        assert(entries_bytes(es.push(e)) == entry_bytes(e) + entries_bytes(
            Seq::<RawEntry>::empty(),
        ));
        assert(entry_bytes(e) + Seq::<u8>::empty() =~= entry_bytes(e));
        assert(entries_bytes(es) + entry_bytes(e) =~= entry_bytes(e));
    } else {
        lemma_entries_bytes_push(es.drop_first(), e);
        assert(es.push(e).drop_first() =~= es.drop_first().push(e));
        assert(es.push(e)[0] == es[0]);
        assert(entry_bytes(es[0]) + (entries_bytes(es.drop_first()) + entry_bytes(e)) =~= (
        entry_bytes(es[0]) + entries_bytes(es.drop_first())) + entry_bytes(e));
    }
}

/// The wrapping 128-bit sum of the entries' stored CRC32 values: the
/// archive's aggregate checksum. It is a weak corruption detector, not a
/// digest: it is kept exactly as the format defines it.
pub open spec fn agg_checksum(es: Seq<RawEntry>) -> u128
    decreases es.len(),
{
    if es.len() == 0 {
        0u128
    } else {
        ((agg_checksum(es.drop_last()) + es.last().crc) % pow256(16)) as u128
    }
}

/// The mathematical model of a parsed file header.
pub ghost struct HeaderView {
    pub recompressed: bool,
    pub origin_bytes: Seq<u8>,
    pub chksum: u128,
    pub count: u64,
}

/// The on-disk bytes of a file header.
pub open spec fn header_bytes(h: HeaderView) -> Seq<u8> {
    le_bytes(UPKF_MAGIC as int, 4) + le_bytes(UPKF_VERSION as int, 1) + le_bytes(
        if h.recompressed {
            1int
        } else {
            0int
        },
        1,
    ) + le_bytes(h.origin_bytes.len() as int, 2) + h.origin_bytes + le_bytes(h.chksum as int, 16)
        + le_bytes(h.count as int, 8)
}

/// A whole archive image: the header, with the checksum and count the
/// entries determine, followed by the framed entries.
pub open spec fn file_bytes(origin_bytes: Seq<u8>, recompressed: bool, es: Seq<RawEntry>) -> Seq<
    u8,
> {
    header_bytes(
        HeaderView {
            recompressed,
            origin_bytes,
            chksum: agg_checksum(es),
            count: es.len() as u64,
        },
    ) + entries_bytes(es)
}

/// Parses the fixed file header; on success the returned offset is where
/// the entry stream begins.
pub open spec fn spec_parse_header(d: Seq<u8>) -> Result<(HeaderView, int), UpkfError> {
    if d.len() < 4 {
        Err(UpkfError::IoError)
    } else if le_val(d.subrange(0, 4)) != UPKF_MAGIC {
        Err(UpkfError::NotAnUpkFileError)
    } else if d.len() < 5 {
        Err(UpkfError::IoError)
    } else if le_val(d.subrange(4, 5)) != UPKF_VERSION {
        Err(UpkfError::VersionNotSupportedError)
    } else if d.len() < 8 {
        Err(UpkfError::IoError)
    } else {
        let recompressed = le_val(d.subrange(5, 6)) != 0;
        let osz = le_val(d.subrange(6, 8));
        if d.len() < 32 + osz {
            Err(UpkfError::IoError)
        } else {
            Ok(
                (
                    HeaderView {
                        recompressed,
                        origin_bytes: d.subrange(8, 8 + osz),
                        chksum: le_val(d.subrange(8 + osz, 24 + osz)) as u128,
                        count: le_val(d.subrange(24 + osz, 32 + osz)) as u64,
                    },
                    32 + osz,
                ),
            )
        }
    }
}

/// Parses one framed entry at `pos`.
pub open spec fn spec_parse_entry(d: Seq<u8>, pos: int) -> Result<(RawEntry, int), UpkfError> {
    if d.len() < pos + 12 {
        Err(UpkfError::IoError)
    } else {
        let size = le_val(d.subrange(pos, pos + 8));
        let nsz = le_val(d.subrange(pos + 8, pos + 12));
        let p1 = pos + 12 + nsz;
        if d.len() < p1 + 8 {
            Err(UpkfError::IoError)
        } else {
            let binary = le_val(d.subrange(p1, p1 + 1)) != 0;
            let comp = match CompressionType::spec_from_code(
                le_val(d.subrange(p1 + 1, p1 + 2)) as u8,
            ) {
                Some(c) => c,
                None => CompressionType::NONE,
            };
            let crc = le_val(d.subrange(p1 + 2, p1 + 6)) as u32;
            let ssz = le_val(d.subrange(p1 + 6, p1 + 8));
            let p2 = p1 + 8 + ssz;
            if d.len() < p2 + 4 {
                Err(UpkfError::IoError)
            } else {
                let msz = le_val(d.subrange(p2, p2 + 4));
                let p3 = p2 + 4 + msz;
                if d.len() < p3 + size {
                    Err(UpkfError::IoError)
                } else {
                    Ok(
                        (
                            RawEntry {
                                name_bytes: d.subrange(pos + 12, pos + 12 + nsz),
                                binary,
                                compression: comp,
                                crc,
                                sha_bytes: d.subrange(p1 + 8, p1 + 8 + ssz),
                                meta_bytes: d.subrange(p2 + 4, p2 + 4 + msz),
                                payload: d.subrange(p3, p3 + size),
                            },
                            p3 + size,
                        ),
                    )
                }
            }
        }
    }
}

/// What one parsed entry becomes: its strings decoded, its integrity
/// checked when asked, its payload decompressed. The stored digests are
/// recorded on the element only when they were verified.
pub open spec fn spec_element_of(e: RawEntry, check: bool) -> Result<ElementView, UpkfError> {
    if !(valid_utf8(e.name_bytes) && valid_utf8(e.sha_bytes) && valid_utf8(e.meta_bytes)) {
        Err(UpkfError::CorruptedDataError)
    } else if check && e.crc != crc32_of(e.payload) {
        Err(UpkfError::Crc32CheckFailed)
    } else if check && decode_utf8(e.sha_bytes) != sha256_hex_of(e.payload) {
        Err(UpkfError::Sha256CheckFailed)
    } else {
        match unpack_spec(e.compression, e.payload) {
            None => Err(UpkfError::CorruptedDataError),
            Some(content) => Ok(
                ElementView {
                    path: decode_utf8(e.name_bytes),
                    meta: decode_utf8(e.meta_bytes),
                    binary: e.binary,
                    compression: e.compression,
                    content,
                    crc32: if check {
                        Some(e.crc)
                    } else {
                        None
                    },
                    sha256: if check {
                        Some(decode_utf8(e.sha_bytes))
                    } else {
                        None
                    },
                },
            ),
        }
    }
}

/// The result of loading an entry stream: the raw frames, the elements
/// they became, and the offset after the last entry.
pub ghost struct LoadedEntries {
    pub raws: Seq<RawEntry>,
    pub elems: Seq<ElementView>,
    pub end: int,
}

/// Loads `n` entries starting at `pos`, checking and decoding each in turn.
pub open spec fn spec_load_entries(d: Seq<u8>, pos: int, n: nat, check: bool) -> Result<
    LoadedEntries,
    UpkfError,
>
    decreases n,
{
    if n == 0 {
        Ok(LoadedEntries { raws: Seq::empty(), elems: Seq::empty(), end: pos })
    } else {
        match spec_parse_entry(d, pos) {
            Err(e) => Err(e),
            Ok(rp) => match spec_element_of(rp.0, check) {
                Err(e) => Err(e),
                Ok(el) => match spec_load_entries(d, rp.1, (n - 1) as nat, check) {
                    Err(e) => Err(e),
                    Ok(rest) => Ok(
                        LoadedEntries {
                            raws: seq![rp.0] + rest.raws,
                            elems: seq![el] + rest.elems,
                            end: rest.end,
                        },
                    ),
                },
            },
        }
    }
}

/// The mathematical model of a successfully loaded archive.
pub ghost struct LoadedView {
    pub origin: Seq<char>,
    pub entries: Seq<ElementView>,
}

/// What loading an archive image means, byte for byte: parse and validate
/// the header, load each entry, then compare the aggregate checksum
/// against the wrapping sum of the entries' stored CRC32 values.
pub open spec fn spec_load(d: Seq<u8>, check: bool) -> Result<LoadedView, UpkfError> {
    match spec_parse_header(d) {
        Err(e) => Err(e),
        Ok(hp) => {
            if !valid_utf8(hp.0.origin_bytes) {
                Err(UpkfError::CorruptedDataError)
            } else {
                match spec_load_entries(d, hp.1, hp.0.count as nat, check) {
                    Err(e) => Err(e),
                    Ok(le) => {
                        if agg_checksum(le.raws) != hp.0.chksum {
                            Err(UpkfError::Crc32CheckFailed)
                        } else {
                            Ok(LoadedView { origin: decode_utf8(hp.0.origin_bytes), entries: le.elems })
                        }
                    },
                }
            }
        },
    }
}

/// The views of a sequence of elements.
pub open spec fn elems_vw(s: Seq<Element>) -> Seq<ElementView> {
    Seq::new(s.len(), |i: int| s[i]@)
}

/// The view of an optional owned string.
pub open spec fn opt_str_view(p: Option<String>) -> Option<Seq<char>> {
    match p {
        Some(s) => Some(s@),
        None => None,
    }
}

/// Copies the `n` bytes starting at `pos` out of `data`, when they are there.
fn take_region(data: &[u8], pos: usize, n: u128) -> (r: Option<(Vec<u8>, usize)>)
    requires
        pos <= data@.len(),
    ensures
        match r {
            Some(p) => pos + n <= data@.len() && p.1 == pos + n && p.0@ == data@.subrange(
                pos as int,
                pos + n,
            ),
            None => pos + n > data@.len(),
        },
{
    let rem: u128 = (data.len() - pos) as u128;
    if n > rem {
        return None;
    }
    let nn = n as usize;
    let out = vstd::slice::slice_to_vec(vstd::slice::slice_subrange(data, pos, pos + nn));
    Some((out, pos + nn))
}

/// Parses and decodes one entry at `pos`, exactly as `spec_parse_entry`
/// and then `spec_element_of` describe; also hands back the stored CRC32.
fn parse_entry(data: &[u8], pos: usize, check: bool) -> (r: Result<(Element, u32, usize), UpkfError>)
    ensures
        match spec_parse_entry(data@, pos as int) {
            Ok(rp) => match spec_element_of(rp.0, check) {
                Ok(el) => r matches Ok(p) && p.0@ == el && p.1 == rp.0.crc && p.2 == rp.1,
                Err(e) => r == Err::<(Element, u32, usize), UpkfError>(e),
            },
            Err(e) => r == Err::<(Element, u32, usize), UpkfError>(e),
        },
{
    let (size, p) = match read_le(data, pos, 8) {
        Some(x) => x,
        None => return Err(UpkfError::IoError),
    };
    let (nsz, p) = match read_le(data, p, 4) {
        Some(x) => x,
        None => return Err(UpkfError::IoError),
    };
    let (name_b, p) = match take_region(data, p, nsz) {
        Some(x) => x,
        None => return Err(UpkfError::IoError),
    };
    let (binary_v, p) = match read_le(data, p, 1) {
        Some(x) => x,
        None => return Err(UpkfError::IoError),
    };
    let (code_v, p) = match read_le(data, p, 1) {
        Some(x) => x,
        None => return Err(UpkfError::IoError),
    };
    let (crc_v, p) = match read_le(data, p, 4) {
        Some(x) => x,
        None => return Err(UpkfError::IoError),
    };
    let (ssz, p) = match read_le(data, p, 2) {
        Some(x) => x,
        None => return Err(UpkfError::IoError),
    };
    let (sha_b, p) = match take_region(data, p, ssz) {
        Some(x) => x,
        None => return Err(UpkfError::IoError),
    };
    let (msz, p) = match read_le(data, p, 4) {
        Some(x) => x,
        None => return Err(UpkfError::IoError),
    };
    let (meta_b, p) = match take_region(data, p, msz) {
        Some(x) => x,
        None => return Err(UpkfError::IoError),
    };
    let (payload, p) = match take_region(data, p, size) {
        Some(x) => x,
        None => return Err(UpkfError::IoError),
    };
    proof {
        crate::wire::lemma_le_val_bound(data@.subrange(pos + 12 + nsz + 1, pos + 12 + nsz + 2));
        crate::wire::lemma_le_val_bound(data@.subrange(pos + 12 + nsz + 2, pos + 12 + nsz + 6));
        crate::wire::lemma_pow256_16();
        reveal_with_fuel(pow256, 5);
    }
    let binary = binary_v != 0;
    let comp = match CompressionType::from_code(code_v as u8) {
        Some(c) => c,
        None => CompressionType::NONE,
    };
    let crc_u = crc_v as u32;
    let ghost raw = RawEntry {
        name_bytes: name_b@,
        binary,
        compression: comp,
        crc: crc_u,
        sha_bytes: sha_b@,
        meta_bytes: meta_b@,
        payload: payload@,
    };
    proof {
        assert(spec_parse_entry(data@, pos as int) == Ok::<(RawEntry, int), UpkfError>(
            (raw, p as int),
        ));
    }
    let path_s = match string_from_utf8(name_b) {
        Some(s) => s,
        None => return Err(UpkfError::CorruptedDataError),
    };
    let sha_s = match string_from_utf8(sha_b) {
        Some(s) => s,
        None => return Err(UpkfError::CorruptedDataError),
    };
    let meta_s = match string_from_utf8(meta_b) {
        Some(s) => s,
        None => return Err(UpkfError::CorruptedDataError),
    };
    if check {
        let c = crc32(payload.as_slice());
        if c != crc_u {
            return Err(UpkfError::Crc32CheckFailed);
        }
        let sh = sha256_hex(payload.as_slice());
        if !str_eq(sha_s.as_str(), sh.as_str()) {
            return Err(UpkfError::Sha256CheckFailed);
        }
    }
    let content = match decompress(payload.as_slice(), comp) {
        Some(v) => v,
        None => return Err(UpkfError::CorruptedDataError),
    };
    let el = Element {
        path: path_s,
        meta: meta_s,
        binary,
        compression: comp,
        bytes: content,
        crc32: if check {
            Some(crc_u)
        } else {
            None
        },
        sha256: if check {
            Some(sha_s)
        } else {
            None
        },
    };
    Ok((el, crc_u, p))
}

impl Upkf {
    /// Loads an archive from its raw bytes, exactly as `spec_load`
    /// describes; `path` records where the bytes came from, if anywhere.
    /// With `check_content` set, every element's CRC32 and SHA-256 are
    /// recomputed and compared against the stored values.
    pub fn from_bytes(data: &[u8], path: Option<String>, check_content: bool) -> (r: Result<
        Upkf,
        UpkfError,
    >)
        ensures
            match r {
                Ok(u) => spec_load(data@, check_content) matches Ok(lv) && u@.origin == lv.origin
                    && u@.entries == lv.entries && u@.path == opt_str_view(path),
                Err(e) => spec_load(data@, check_content) == Err::<LoadedView, UpkfError>(e),
            },
    {
        let (magic, p) = match read_le(data, 0, 4) {
            Some(x) => x,
            None => return Err(UpkfError::IoError),
        };
        if magic != UPKF_MAGIC as u128 {
            return Err(UpkfError::NotAnUpkFileError);
        }
        let (ver, p) = match read_le(data, p, 1) {
            Some(x) => x,
            None => return Err(UpkfError::IoError),
        };
        if ver != UPKF_VERSION as u128 {
            return Err(UpkfError::VersionNotSupportedError);
        }
        let (rec, p) = match read_le(data, p, 1) {
            Some(x) => x,
            None => return Err(UpkfError::IoError),
        };
        let (osz, p) = match read_le(data, p, 2) {
            Some(x) => x,
            None => return Err(UpkfError::IoError),
        };
        let (origin_b, p) = match take_region(data, p, osz) {
            Some(x) => x,
            None => return Err(UpkfError::IoError),
        };
        let (ck, p) = match read_le(data, p, 16) {
            Some(x) => x,
            None => return Err(UpkfError::IoError),
        };
        let (cnt, p) = match read_le(data, p, 8) {
            Some(x) => x,
            None => return Err(UpkfError::IoError),
        };
        proof {
            crate::wire::lemma_le_val_bound(data@.subrange(p - 8, p as int));
            crate::wire::lemma_pow256_16();
        }
        let count = cnt as u64;
        let ghost hdr = HeaderView {
            recompressed: rec != 0,
            origin_bytes: origin_b@,
            chksum: ck,
            count,
        };
        proof {
            assert(spec_parse_header(data@) == Ok::<(HeaderView, int), UpkfError>(
                (hdr, p as int),
            ));
        }
        let origin_s = match string_from_utf8(origin_b) {
            Some(s) => s,
            None => return Err(UpkfError::CorruptedDataError),
        };
        let ghost p0 = p as int;
        let mut entries: Vec<Element> = Vec::new();
        let ghost mut raws: Seq<RawEntry> = Seq::empty();
        let mut chksum: u128 = 0;
        let mut pos: usize = p;
        let mut i: u64 = 0;
        proof {
            if spec_load_entries(data@, p0, count as nat, check_content) is Ok {
                let le0 = spec_load_entries(data@, p0, count as nat, check_content)->Ok_0;
                assert(raws + le0.raws =~= le0.raws);
                assert(elems_vw(entries@) + le0.elems =~= le0.elems);
            }
        }
        while i < count
            invariant
                i <= count,
                raws.len() == i as nat,
                entries@.len() == i as nat,
                chksum == agg_checksum(raws),
                pos <= data@.len(),
                spec_parse_header(data@) == Ok::<(HeaderView, int), UpkfError>((hdr, p0)),
                valid_utf8(hdr.origin_bytes),
                hdr.count == count,
                spec_load_entries(data@, p0, count as nat, check_content) == (match spec_load_entries(
                    data@,
                    pos as int,
                    (count - i) as nat,
                    check_content,
                ) {
                    Ok(rest) => Ok::<LoadedEntries, UpkfError>(
                        LoadedEntries {
                            raws: raws + rest.raws,
                            elems: elems_vw(entries@) + rest.elems,
                            end: rest.end,
                        },
                    ),
                    Err(e) => Err::<LoadedEntries, UpkfError>(e),
                }),
            decreases count - i,
        {
            let ghost n_rem = (count - i) as nat;
            let ghost raws_old = raws;
            let ghost entries_old = entries@;
            let ghost pos_old = pos as int;
            match parse_entry(data, pos, check_content) {
                Err(e) => {
                    proof {
                        assert(spec_load_entries(data@, pos_old, n_rem, check_content) == Err::<
                            LoadedEntries,
                            UpkfError,
                        >(e));
                    }
                    return Err(e);
                },
                Ok((el, crc_u, p2)) => {
                    let ghost rp = spec_parse_entry(data@, pos_old)->Ok_0;
                    let ghost raw = rp.0;
                    entries.push(el);
                    proof {
                        raws = raws.push(raw);
                    }
                    chksum = chksum.wrapping_add(crc_u as u128);
                    pos = p2;
                    i = i + 1;
                    proof {
                        assert(raws.drop_last() =~= raws_old);
                        assert(raws.last() == raw);
                        assert(chksum == agg_checksum(raws)) by {
                            crate::wire::lemma_pow256_16();
                        }
                        let rest_new = spec_load_entries(
                            data@,
                            pos as int,
                            (count - i) as nat,
                            check_content,
                        );
                        assert(spec_load_entries(data@, pos_old, n_rem, check_content) == (
                        match rest_new {
                            Ok(r2) => Ok::<LoadedEntries, UpkfError>(
                                LoadedEntries {
                                    raws: seq![raw] + r2.raws,
                                    elems: seq![el@] + r2.elems,
                                    end: r2.end,
                                },
                            ),
                            Err(e) => Err::<LoadedEntries, UpkfError>(e),
                        }));
                        if rest_new is Ok {
                            let r2 = rest_new->Ok_0;
                            assert(raws_old + (seq![raw] + r2.raws) =~= raws + r2.raws);
                            assert(elems_vw(entries_old) + (seq![el@] + r2.elems) =~= elems_vw(
                                entries@,
                            ) + r2.elems) by {
                                assert(elems_vw(entries@) =~= elems_vw(entries_old).push(el@));
                            }
                        }
                    }
                },
            }
        }
        proof {
            assert(spec_load_entries(data@, pos as int, 0, check_content) == Ok::<
                LoadedEntries,
                UpkfError,
            >(LoadedEntries { raws: Seq::empty(), elems: Seq::empty(), end: pos as int }));
            assert(raws + Seq::<RawEntry>::empty() =~= raws);
            assert(elems_vw(entries@) + Seq::<ElementView>::empty() =~= elems_vw(entries@));
        }
        if chksum != ck {
            return Err(UpkfError::Crc32CheckFailed);
        }
        let u = Upkf { origin: origin_s, path, entries };
        proof {
            assert(u@.entries =~= elems_vw(u.entries@));
        }
        Ok(u)
    }
}

/// Whether an element's strings fit the format's length prefixes.
pub open spec fn wf_element(el: ElementView) -> bool {
    &&& encode_utf8(el.path).len() < pow256(4)
    &&& encode_utf8(el.meta).len() < pow256(4)
}

/// Whether a whole archive fits the format's length prefixes.
pub open spec fn wf_upkf(u: UpkfView) -> bool {
    &&& encode_utf8(u.origin).len() < pow256(2)
    &&& u.entries.len() < pow256(8)
    &&& forall|i: int| 0 <= i < u.entries.len() ==> wf_element(#[trigger] u.entries[i])
}

/// Whether `raw` is a faithful frame for `el`: its strings are `el`'s,
/// its digests are those of its payload, and its payload decompresses
/// to `el`'s content.
pub open spec fn raw_matches(raw: RawEntry, el: ElementView) -> bool {
    &&& raw.name_bytes == encode_utf8(el.path)
    &&& raw.meta_bytes == encode_utf8(el.meta)
    &&& raw.binary == el.binary
    &&& raw.compression == el.compression
    &&& raw.crc == crc32_of(raw.payload)
    &&& raw.sha_bytes == encode_utf8(sha256_hex_of(raw.payload))
    &&& unpack_spec(el.compression, raw.payload) == Some(el.content)
    &&& wf_entry(raw)
}

/// Pointwise `raw_matches` over two sequences of equal length.
pub open spec fn raws_match(raws: Seq<RawEntry>, els: Seq<ElementView>) -> bool {
    &&& raws.len() == els.len()
    &&& forall|i: int| 0 <= i < raws.len() ==> raw_matches(#[trigger] raws[i], els[i])
}

/// Compresses one element and appends its frame to `out`; hands back the
/// payload CRC32 and the frame it wrote.
fn write_entry(out: &mut Vec<u8>, el: &Element) -> (r: (u32, Ghost<RawEntry>))
    requires
        wf_element(el@),
    ensures
        raw_matches(r.1@, el@) && r.0 == r.1@.crc && final(out)@ == old(out)@ + entry_bytes(
            r.1@,
        ),
{
    let packed = compress(el.get_content().as_slice(), *el.get_compression());
    let crc_u = crc32(packed.as_slice());
    let sha_s = sha256_hex(packed.as_slice());
    let name_b = vstd::string::StrSliceExecFns::as_bytes_vec(el.get_path().as_str());
    let sha_b = vstd::string::StrSliceExecFns::as_bytes_vec(sha_s.as_str());
    let meta_b = vstd::string::StrSliceExecFns::as_bytes_vec(el.get_meta().as_str());
    let ghost raw = RawEntry {
        name_bytes: name_b@,
        binary: el.binary,
        compression: el.compression,
        crc: crc_u,
        sha_bytes: sha_b@,
        meta_bytes: meta_b@,
        payload: packed@,
    };
    let plen = packed.len();
    proof {
        crate::wire::lemma_pow256_16();
        assert(sha_b@.len() == 64) by {
            vstd::utf8::is_ascii_chars_encode_utf8(sha_s@);
        }
        assert(raw.payload.len() == plen && plen <= usize::MAX);
        assert(wf_entry(raw));
    }
    push_le(out, packed.len() as u128, 8);
    push_le(out, name_b.len() as u128, 4);
    out.extend_from_slice(name_b.as_slice());
    push_le(out, if el.binary { 1 } else { 0 }, 1);
    proof {
        reveal_with_fuel(pow256, 3);
    }
    push_le(out, el.compression.code() as u128, 1);
    push_le(out, crc_u as u128, 4);
    push_le(out, sha_b.len() as u128, 2);
    out.extend_from_slice(sha_b.as_slice());
    push_le(out, meta_b.len() as u128, 4);
    out.extend_from_slice(meta_b.as_slice());
    out.extend_from_slice(packed.as_slice());
    proof {
        assert(out@ =~= old(out)@ + entry_bytes(raw));
    }
    (crc_u, Ghost(raw))
}

impl Upkf {
    /// Serializes the archive: for each element in order, compress, digest
    /// and frame it; then prepend the header carrying the origin, the
    /// wrapping sum of the entry CRC32 values, and the entry count.
    /// Serialization always succeeds: the codecs cannot fail into memory,
    /// and the length limits are this function's precondition.
    pub fn to_bytes(&self) -> (r: Result<Vec<u8>, UpkfError>)
        requires
            wf_upkf(self@),
        ensures
            r is Ok,
            r matches Ok(b) ==> exists|raws: Seq<RawEntry>|
                raws_match(raws, self@.entries) && b@ == file_bytes(
                    encode_utf8(self@.origin),
                    false,
                    raws,
                ),
    {
        let mut body: Vec<u8> = Vec::new();
        let ghost mut raws: Seq<RawEntry> = Seq::empty();
        let mut chksum: u128 = 0;
        let n = self.entries.len();
        let mut i: usize = 0;
        while i < n
            invariant
                wf_upkf(self@),
                n == self.entries@.len(),
                i <= n,
                raws.len() == i as nat,
                raws_match(raws, self@.entries.take(i as int)),
                chksum == agg_checksum(raws),
                body@ == entries_bytes(raws),
            decreases n - i,
        {
            let ghost raws_old = raws;
            assert(self@.entries[i as int] == self.entries@[i as int]@);
            let (crc_u, graw) = write_entry(&mut body, &self.entries[i]);
            proof {
                raws = raws.push(graw@);
            }
            chksum = chksum.wrapping_add(crc_u as u128);
            i = i + 1;
            proof {
                lemma_entries_bytes_push(raws_old, graw@);
                assert(raws.drop_last() =~= raws_old);
                assert(chksum == agg_checksum(raws)) by {
                    crate::wire::lemma_pow256_16();
                }
                assert(raws_match(raws, self@.entries.take(i as int))) by {
                    assert(forall|j: int| 0 <= j < i ==> self@.entries.take(i as int)[j]
                        == self@.entries[j]);
                }
            }
        }
        proof {
            assert(self@.entries.take(n as int) =~= self@.entries);
        }
        let origin_b = vstd::string::StrSliceExecFns::as_bytes_vec(self.origin.as_str());
        let mut out: Vec<u8> = Vec::new();
        proof {
            crate::wire::lemma_pow256_16();
        }
        push_le(&mut out, UPKF_MAGIC as u128, 4);
        push_le(&mut out, UPKF_VERSION as u128, 1);
        push_le(&mut out, 0, 1);
        push_le(&mut out, origin_b.len() as u128, 2);
        out.extend_from_slice(origin_b.as_slice());
        push_le(&mut out, chksum, 16);
        push_le(&mut out, n as u128, 8);
        out.extend_from_slice(body.as_slice());
        proof {
            assert(out@ =~= file_bytes(encode_utf8(self@.origin), false, raws));
        }
        Ok(out)
    }
}

/// Magic rejection: an image whose first four bytes are not the UPKF
/// magic never loads; it fails with `NotAnUpkFileError`, whether or not
/// content checking was asked for.
pub proof fn lemma_magic_rejection(d: Seq<u8>, check: bool)
    requires
        d.len() >= 4,
        le_val(d.subrange(0, 4)) != UPKF_MAGIC,
    ensures
        spec_load(d, check) == Err::<LoadedView, UpkfError>(UpkfError::NotAnUpkFileError),
{
}

proof fn lemma_element_of_matching(raw: RawEntry, el: ElementView, check: bool)
    requires
        raw_matches(raw, el),
    ensures
        spec_element_of(raw, check) matches Ok(lv) && lv.path == el.path && lv.meta == el.meta
            && lv.binary == el.binary && lv.compression == el.compression && lv.content
            == el.content,
{
    broadcast use vstd::utf8::encode_utf8_valid_utf8, vstd::utf8::encode_utf8_decode_utf8;

}

#[verifier::rlimit(60)]
proof fn lemma_parse_entry_round(d: Seq<u8>, pos: int, raw: RawEntry)
    requires
        wf_entry(raw),
        0 <= pos,
        pos + entry_bytes(raw).len() <= d.len(),
        d.subrange(pos, pos + entry_bytes(raw).len()) == entry_bytes(raw),
    ensures
        spec_parse_entry(d, pos) == Ok::<(RawEntry, int), UpkfError>(
            (raw, pos + entry_bytes(raw).len()),
        ),
{
    let eb = entry_bytes(raw);
    let nl = raw.name_bytes.len() as int;
    let sl = raw.sha_bytes.len() as int;
    let ml = raw.meta_bytes.len() as int;
    let pl = raw.payload.len() as int;
    crate::wire::lemma_pow256_16();
    reveal_with_fuel(pow256, 3);
    assert forall|v: int, n: nat| le_bytes(v, n).len() == n by {
        crate::wire::lemma_le_bytes_len(v, n);
    }
    assert(eb.len() == 24 + nl + sl + ml + pl);
    assert forall|a: int, b: int| 0 <= a <= b <= eb.len() implies d.subrange(pos + a, pos + b)
        =~= eb.subrange(a, b) by {
        assert forall|k: int| 0 <= k < eb.len() implies d[pos + k] == eb[k] by {
            assert(d.subrange(pos, pos + eb.len())[k] == d[pos + k]);
        }
    }
    let p1 = 12 + nl;
    let p2 = p1 + 8 + sl;
    let p3 = p2 + 4 + ml;
    assert(eb.subrange(0, 8) =~= le_bytes(pl, 8));
    assert(eb.subrange(8, 12) =~= le_bytes(nl, 4));
    assert(eb.subrange(12, p1) =~= raw.name_bytes);
    assert(eb.subrange(p1, p1 + 1) =~= le_bytes(
        if raw.binary {
            1int
        } else {
            0int
        },
        1,
    ));
    assert(eb.subrange(p1 + 1, p1 + 2) =~= le_bytes(raw.compression.spec_code() as int, 1));
    assert(eb.subrange(p1 + 2, p1 + 6) =~= le_bytes(raw.crc as int, 4));
    assert(eb.subrange(p1 + 6, p1 + 8) =~= le_bytes(sl, 2));
    assert(eb.subrange(p1 + 8, p2) =~= raw.sha_bytes);
    assert(eb.subrange(p2, p2 + 4) =~= le_bytes(ml, 4));
    assert(eb.subrange(p2 + 4, p3) =~= raw.meta_bytes);
    assert(eb.subrange(p3, p3 + pl) =~= raw.payload);
    crate::wire::lemma_le_val_le_bytes(pl, 8);
    crate::wire::lemma_le_val_le_bytes(nl, 4);
    crate::wire::lemma_le_val_le_bytes(
        if raw.binary {
            1int
        } else {
            0int
        },
        1,
    );
    crate::wire::lemma_le_val_le_bytes(raw.compression.spec_code() as int, 1);
    crate::wire::lemma_le_val_le_bytes(raw.crc as int, 4);
    crate::wire::lemma_le_val_le_bytes(sl, 2);
    crate::wire::lemma_le_val_le_bytes(ml, 4);
    assert(CompressionType::spec_from_code(raw.compression.spec_code())
        == Some(raw.compression));
}

/// The elements that a sequence of raw frames loads to, frame by frame.
pub open spec fn expected_elems(raws: Seq<RawEntry>, check: bool) -> Seq<ElementView> {
    Seq::new(raws.len(), |i: int| spec_element_of(raws[i], check)->Ok_0)
}

#[verifier::rlimit(100)]
proof fn lemma_parse_entries_round(
    d: Seq<u8>,
    pos: int,
    raws: Seq<RawEntry>,
    els: Seq<ElementView>,
    check: bool,
)
    requires
        raws_match(raws, els),
        0 <= pos,
        pos + entries_bytes(raws).len() <= d.len(),
        d.subrange(pos, pos + entries_bytes(raws).len()) == entries_bytes(raws),
    ensures
        spec_load_entries(d, pos, raws.len(), check) matches Ok(le) && le.raws == raws && le.end
            == pos + entries_bytes(raws).len() && le.elems == expected_elems(raws, check),
    decreases raws.len(),
{
    if raws.len() == 0 {
        assert(spec_load_entries(d, pos, 0, check) == Ok::<LoadedEntries, UpkfError>(
            LoadedEntries { raws: Seq::empty(), elems: Seq::empty(), end: pos },
        ));
        assert(Seq::<RawEntry>::empty() =~= raws);
        assert(Seq::<ElementView>::empty() =~= expected_elems(raws, check));
    } else {
        let r0 = raws[0];
        let l0 = entry_bytes(r0).len() as int;
        let rest = raws.drop_first();
        let lrest = entries_bytes(rest).len() as int;
        assert(entries_bytes(raws) == entry_bytes(r0) + entries_bytes(rest));
        assert(d.subrange(pos, pos + l0) == entry_bytes(r0) && d.subrange(
            pos + l0,
            pos + l0 + lrest,
        ) == entries_bytes(rest)) by {
            assert forall|k: int| 0 <= k < l0 + lrest implies d[pos + k] == entries_bytes(
                raws,
            )[k] by {
                assert(d.subrange(pos, pos + entries_bytes(raws).len())[k] == d[pos + k]);
            }
            assert(d.subrange(pos, pos + l0) =~= entry_bytes(r0));
            assert forall|i: int| 0 <= i < lrest implies d[pos + l0 + i] == entries_bytes(
                rest,
            )[i] by {
                assert(d[pos + (l0 + i)] == entries_bytes(raws)[l0 + i]);
                assert(entries_bytes(raws)[l0 + i] == entries_bytes(rest)[i]);
            }
            assert(d.subrange(pos + l0, pos + l0 + lrest) =~= entries_bytes(rest));
        }
        assert(raw_matches(r0, els[0]));
        lemma_parse_entry_round(d, pos, r0);
        lemma_element_of_matching(r0, els[0], check);
        assert(raws_match(rest, els.drop_first())) by {
            assert(forall|i: int| 0 <= i < rest.len() ==> rest[i] == raws[i + 1]
                && els.drop_first()[i] == els[i + 1]);
        }
        lemma_parse_entries_round(d, pos + l0, rest, els.drop_first(), check);
        let le_rest = spec_load_entries(d, pos + l0, rest.len(), check)->Ok_0;
        let el0 = spec_element_of(r0, check)->Ok_0;
        assert(spec_load_entries(d, pos, raws.len(), check) == Ok::<LoadedEntries, UpkfError>(
            LoadedEntries {
                raws: seq![r0] + le_rest.raws,
                elems: seq![el0] + le_rest.elems,
                end: le_rest.end,
            },
        )) by {
            assert((raws.len() - 1) as nat == rest.len());
        }
        assert(seq![r0] + le_rest.raws =~= raws);
        assert(seq![el0] + le_rest.elems =~= expected_elems(raws, check)) by {
            assert(forall|i: int| 1 <= i < raws.len() ==> expected_elems(rest, check)[i - 1]
                == expected_elems(raws, check)[i]);
        }
    }
}

proof fn lemma_parse_header_round(h: HeaderView, tail: Seq<u8>)
    requires
        h.origin_bytes.len() < pow256(2),
    ensures
        spec_parse_header(header_bytes(h) + tail) == Ok::<(HeaderView, int), UpkfError>(
            (h, 32 + h.origin_bytes.len() as int),
        ),
{
    let hb = header_bytes(h);
    let d = hb + tail;
    let ol = h.origin_bytes.len() as int;
    crate::wire::lemma_pow256_16();
    reveal_with_fuel(pow256, 3);
    assert forall|v: int, n: nat| le_bytes(v, n).len() == n by {
        crate::wire::lemma_le_bytes_len(v, n);
    }
    assert(hb.len() == 32 + ol);
    assert forall|a: int, b: int| 0 <= a <= b <= hb.len() implies d.subrange(a, b)
        =~= hb.subrange(a, b) by {
        assert(forall|k: int| 0 <= k < hb.len() ==> d[k] == hb[k]);
    }
    assert(hb.subrange(0, 4) =~= le_bytes(UPKF_MAGIC as int, 4));
    assert(hb.subrange(4, 5) =~= le_bytes(UPKF_VERSION as int, 1));
    assert(hb.subrange(5, 6) =~= le_bytes(
        if h.recompressed {
            1int
        } else {
            0int
        },
        1,
    ));
    assert(hb.subrange(6, 8) =~= le_bytes(ol, 2));
    assert(hb.subrange(8, 8 + ol) =~= h.origin_bytes);
    assert(hb.subrange(8 + ol, 24 + ol) =~= le_bytes(h.chksum as int, 16));
    assert(hb.subrange(24 + ol, 32 + ol) =~= le_bytes(h.count as int, 8));
    crate::wire::lemma_le_val_le_bytes(UPKF_MAGIC as int, 4);
    crate::wire::lemma_le_val_le_bytes(UPKF_VERSION as int, 1);
    crate::wire::lemma_le_val_le_bytes(
        if h.recompressed {
            1int
        } else {
            0int
        },
        1,
    );
    crate::wire::lemma_le_val_le_bytes(ol, 2);
    crate::wire::lemma_le_val_le_bytes(h.chksum as int, 16);
    crate::wire::lemma_le_val_le_bytes(h.count as int, 8);
}

/// Round trip: loading the exact image that serialization produces yields
/// the original origin and, for every element, the original path,
/// metadata, binary flag, compression type and content — with or without
/// content checking, since the stored digests are those of the payloads.
#[verifier::rlimit(60)]
pub proof fn lemma_round_trip(
    origin_bytes: Seq<u8>,
    recompressed: bool,
    raws: Seq<RawEntry>,
    els: Seq<ElementView>,
    check: bool,
)
    requires
        valid_utf8(origin_bytes),
        origin_bytes.len() < pow256(2),
        raws.len() < pow256(8),
        raws_match(raws, els),
    ensures
        spec_load(file_bytes(origin_bytes, recompressed, raws), check) matches Ok(lv)
            && lv.origin == decode_utf8(origin_bytes) && lv.entries.len() == els.len() && forall|
            i: int,
        |
            0 <= i < els.len() ==> {
                &&& (#[trigger] lv.entries[i]).path == els[i].path
                &&& lv.entries[i].meta == els[i].meta
                &&& lv.entries[i].binary == els[i].binary
                &&& lv.entries[i].compression == els[i].compression
                &&& lv.entries[i].content == els[i].content
            },
{
    crate::wire::lemma_pow256_16();
    reveal_with_fuel(pow256, 3);
    assert forall|v: int, n: nat| le_bytes(v, n).len() == n by {
        crate::wire::lemma_le_bytes_len(v, n);
    }
    let h = HeaderView {
        recompressed,
        origin_bytes,
        chksum: agg_checksum(raws),
        count: raws.len() as u64,
    };
    let d = file_bytes(origin_bytes, recompressed, raws);
    assert(d == header_bytes(h) + entries_bytes(raws));
    lemma_parse_header_round(h, entries_bytes(raws));
    let pos = 32 + origin_bytes.len() as int;
    assert(header_bytes(h).len() == pos);
    assert(d.len() == pos + entries_bytes(raws).len());
    assert(d.subrange(pos, pos + entries_bytes(raws).len()) =~= entries_bytes(raws));
    assert(h.count as nat == raws.len());
    lemma_parse_entries_round(d, pos, raws, els, check);
    let le = spec_load_entries(d, pos, raws.len(), check)->Ok_0;
    assert(agg_checksum(le.raws) == h.chksum);
    let lv = spec_load(d, check)->Ok_0;
    assert(lv.entries == expected_elems(raws, check));
    assert forall|i: int| 0 <= i < els.len() implies {
        &&& (#[trigger] lv.entries[i]).path == els[i].path
        &&& lv.entries[i].meta == els[i].meta
        &&& lv.entries[i].binary == els[i].binary
        &&& lv.entries[i].compression == els[i].compression
        &&& lv.entries[i].content == els[i].content
    } by {
        lemma_element_of_matching(raws[i], els[i], check);
        assert(lv.entries[i] == spec_element_of(raws[i], check)->Ok_0);
    }
}

/// The recognized fields of a sidecar metadata document, reduced to
/// plain values: the `compression` key as a number or as text, the
/// `binary` key, and the `metadata` object rendered back to text.
#[derive(Debug)]
pub struct MetaFields {
    pub compression_num: Option<u8>,
    pub compression_name: Option<String>,
    pub binary: Option<bool>,
    pub metadata_obj: Option<String>,
}

/// The mathematical model of reduced sidecar fields.
pub ghost struct MetaFieldsView {
    pub compression_num: Option<u8>,
    pub compression_name: Option<Seq<char>>,
    pub binary: Option<bool>,
    pub metadata_obj: Option<Seq<char>>,
}

impl View for MetaFields {
    type V = MetaFieldsView;

    closed spec fn view(&self) -> MetaFieldsView {
        MetaFieldsView {
            compression_num: self.compression_num,
            compression_name: match self.compression_name {
                Some(s) => Some(s@),
                None => None,
            },
            binary: self.binary,
            metadata_obj: match self.metadata_obj {
                Some(s) => Some(s@),
                None => None,
            },
        }
    }
}

/// What reducing a sidecar document yields: a pure function of the text.
pub uninterp spec fn meta_fields_of(s: Seq<char>) -> Option<MetaFields>;

/// Relies on json::parse and the JsonValue accessors: reduces the three
/// recognized keys of a sidecar document to plain values, `None` when
/// the text is not JSON; the result depends on the text alone.
#[verifier::external_body]
fn parse_meta_json(src: &str) -> (r: Option<MetaFields>)
    ensures
        r == meta_fields_of(src@),
{
    let v = match json::parse(src) {
        Ok(v) => v,
        Err(_) => return None,
    };
    Some(MetaFields {
        compression_num: v["compression"].as_u8(),
        compression_name: v["compression"].as_str().map(|s| s.to_string()),
        binary: v["binary"].as_bool(),
        metadata_obj: if v["metadata"].is_object() { Some(v["metadata"].dump()) } else { None },
    })
}

/// Relies on json::stringify_pretty: renders the three sidecar keys as
/// an indented JSON document. The key order follows a hash map's
/// iteration order, so the exact text is open; but in every order the
/// document parses back to a map holding `compression` as this name and
/// `binary` and `metadata` as plain strings, which reduce to fields with
/// only the compression name set.
#[verifier::external_body]
fn render_meta_json(compression_name: &str, meta: &str, binary: bool) -> (r: String)
    ensures
        meta_fields_of(r@) is Some,
        meta_fields_of(r@)->Some_0@.compression_num is None,
        meta_fields_of(r@)->Some_0@.compression_name == Some(compression_name@),
        meta_fields_of(r@)->Some_0@.binary is None,
        meta_fields_of(r@)->Some_0@.metadata_obj is None,
{
    let mut map: std::collections::HashMap<&str, &str> = std::collections::HashMap::new();
    map.insert("compression", compression_name);
    map.insert("metadata", meta);
    let b = if binary { "true" } else { "false" };
    map.insert("binary", b);
    json::stringify_pretty(map, 4)
}

/// The mathematical model of element-building metadata.
pub ghost struct UpkfMetaView {
    pub compression: CompressionType,
    pub string_meta: Seq<char>,
    pub binary: bool,
}

/// Metadata guiding how one file is stored in an archive, conventionally
/// read from a sidecar document next to it.
pub struct UpkfMeta {
    compression: CompressionType,
    string_meta: String,
    binary: bool,
}

impl View for UpkfMeta {
    type V = UpkfMetaView;

    closed spec fn view(&self) -> UpkfMetaView {
        UpkfMetaView {
            compression: self.compression,
            string_meta: self.string_meta@,
            binary: self.binary,
        }
    }
}

/// The metadata a reduced sidecar document denotes: the `compression`
/// key read as a numeric code first, then as an algorithm name, falling
/// back to `d`; the `binary` key falling back to true; the `metadata`
/// object falling back to empty text.
pub open spec fn spec_meta_from_fields(f: MetaFieldsView, d: CompressionType) -> UpkfMetaView {
    UpkfMetaView {
        compression: match f.compression_num {
            Some(n) => match CompressionType::spec_from_code(n) {
                Some(c) => c,
                None => d,
            },
            None => match f.compression_name {
                Some(s) => match CompressionType::spec_from_name(s) {
                    Some(c) => c,
                    None => d,
                },
                None => d,
            },
        },
        string_meta: match f.metadata_obj {
            Some(s) => s,
            None => Seq::empty(),
        },
        binary: match f.binary {
            Some(b) => b,
            None => true,
        },
    }
}

impl UpkfMeta {
    /// The metadata used when no sidecar document says otherwise:
    /// the given compression, no extra metadata, binary content.
    pub fn default(compression: CompressionType) -> (r: UpkfMeta)
        ensures
            r@.compression == compression,
            r@.string_meta == Seq::<char>::empty(),
            r@.binary == true,
    {
        UpkfMeta { compression, string_meta: String::new(), binary: true }
    }

    pub fn get_string_meta(&self) -> (r: String)
        ensures
            r@ == self@.string_meta,
    {
        self.string_meta.clone()
    }

    pub fn is_binary(&self) -> (r: bool)
        ensures
            r == self@.binary,
    {
        self.binary
    }

    pub fn get_compression(&self) -> (r: CompressionType)
        ensures
            r == self@.compression,
    {
        self.compression
    }

    /// Builds the metadata a reduced sidecar document denotes, exactly
    /// as `spec_meta_from_fields` describes.
    pub fn from_fields(f: &MetaFields, default_compression: CompressionType) -> (r: UpkfMeta)
        ensures
            r@ == spec_meta_from_fields(f@, default_compression),
    {
        let compression = match f.compression_num {
            Some(n) => match CompressionType::from_code(n) {
                Some(c) => c,
                None => default_compression,
            },
            None => match &f.compression_name {
                Some(s) => match CompressionType::from_name(s.as_str()) {
                    Some(c) => c,
                    None => default_compression,
                },
                None => default_compression,
            },
        };
        let string_meta = match &f.metadata_obj {
            Some(s) => s.clone(),
            None => String::new(),
        };
        let binary = match f.binary {
            Some(b) => b,
            None => true,
        };
        UpkfMeta { compression, string_meta, binary }
    }

    /// Reads a sidecar document: reduce its recognized keys, then decide
    /// the metadata as `spec_meta_from_fields` describes; `Err` when the
    /// text is not JSON.
    pub fn deserialize(src: &str, default_compression: CompressionType) -> (r: Result<
        UpkfMeta,
        (),
    >)
        ensures
            match meta_fields_of(src@) {
                Some(f) => r matches Ok(m) && m@ == spec_meta_from_fields(
                    f@,
                    default_compression,
                ),
                None => r is Err,
            },
    {
        match parse_meta_json(src) {
            Some(f) => Ok(UpkfMeta::from_fields(&f, default_compression)),
            None => Err(()),
        }
    }

    /// Renders the metadata as a sidecar JSON document; the caller
    /// writes it next to the file it describes. The rendered text reduces
    /// back to fields carrying exactly this metadata's compression name.
    pub fn serialize_string(&self) -> (r: String)
        ensures
            meta_fields_of(r@) matches Some(f) && f@.compression_num is None
                && f@.compression_name == Some(self@.compression.spec_name()) && f@.binary is None
                && f@.metadata_obj is None,
    {
        render_meta_json(self.compression.name(), self.string_meta.as_str(), self.binary)
    }
}

} // verus!
