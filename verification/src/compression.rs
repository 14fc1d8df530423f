//! The compression adapter: one entry point over {None, LZMA, LZMA2, GZIP}.
//!
//! The stream codecs come from outside crates. Only their decompression
//! results are given names; of compression the library states no more than
//! that the output decompresses back to the input (the codecs are lossless),
//! since a gzip stream also embeds a timestamp.

use vstd::prelude::*;

verus! {

/// What lzma_rs::lzma_decompress yields on a byte stream, or `None` when it rejects it.
pub uninterp spec fn lzma_unpack_of(b: Seq<u8>) -> Option<Seq<u8>>;

/// What lzma_rs::lzma2_decompress yields on a byte stream, or `None` when it rejects it.
pub uninterp spec fn lzma2_unpack_of(b: Seq<u8>) -> Option<Seq<u8>>;

/// What libflate's gzip decoder yields on a byte stream, or `None` when it rejects it.
pub uninterp spec fn gzip_unpack_of(b: Seq<u8>) -> Option<Seq<u8>>;

/// The per-element compression algorithm of an archive entry.
#[derive(Debug, Copy, Clone, PartialEq, Eq, Structural)]
#[allow(non_camel_case_types)]
pub enum CompressionType {
    NONE,
    LZMA,
    LZMA2,
    GZIP,
}

impl CompressionType {
    /// The display name of the algorithm.
    pub open spec fn spec_name(self) -> Seq<char> {
        match self {
            CompressionType::NONE => "NONE"@,
            CompressionType::LZMA => "LZMA"@,
            CompressionType::LZMA2 => "LZMA2"@,
            CompressionType::GZIP => "GZIP"@,
        }
    }

    pub fn name(&self) -> (r: &'static str)
        ensures
            r@ == self.spec_name(),
    {
        match self {
            CompressionType::NONE => "NONE",
            CompressionType::LZMA => "LZMA",
            CompressionType::LZMA2 => "LZMA2",
            CompressionType::GZIP => "GZIP",
        }
    }

    /// The one-byte code that the archive format stores for this algorithm.
    pub open spec fn spec_code(self) -> u8 {
        match self {
            CompressionType::NONE => 0,
            CompressionType::LZMA => 1,
            CompressionType::LZMA2 => 2,
            CompressionType::GZIP => 3,
        }
    }

    pub fn code(&self) -> (r: u8)
        ensures
            r == self.spec_code(),
    {
        match self {
            CompressionType::NONE => 0,
            CompressionType::LZMA => 1,
            CompressionType::LZMA2 => 2,
            CompressionType::GZIP => 3,
        }
    }

    /// The algorithm a stored one-byte code denotes, if any.
    pub open spec fn spec_from_code(v: u8) -> Option<CompressionType> {
        if v == 0 {
            Some(CompressionType::NONE)
        } else if v == 1 {
            Some(CompressionType::LZMA)
        } else if v == 2 {
            Some(CompressionType::LZMA2)
        } else if v == 3 {
            Some(CompressionType::GZIP)
        } else {
            None
        }
    }

    pub fn from_code(v: u8) -> (r: Option<CompressionType>)
        ensures
            r == Self::spec_from_code(v),
    {
        match v {
            0 => Some(CompressionType::NONE),
            1 => Some(CompressionType::LZMA),
            2 => Some(CompressionType::LZMA2),
            3 => Some(CompressionType::GZIP),
            _ => None,
        }
    }

    /// The algorithm a display name denotes, if any.
    pub open spec fn spec_from_name(s: Seq<char>) -> Option<CompressionType> {
        if s == "NONE"@ {
            Some(CompressionType::NONE)
        } else if s == "LZMA"@ {
            Some(CompressionType::LZMA)
        } else if s == "LZMA2"@ {
            Some(CompressionType::LZMA2)
        } else if s == "GZIP"@ {
            Some(CompressionType::GZIP)
        } else {
            None
        }
    }

    pub fn from_name(s: &str) -> (r: Option<CompressionType>)
        ensures
            r == Self::spec_from_name(s@),
    {
        if crate::strutil::str_eq(s, "NONE") {
            Some(CompressionType::NONE)
        } else if crate::strutil::str_eq(s, "LZMA") {
            Some(CompressionType::LZMA)
        } else if crate::strutil::str_eq(s, "LZMA2") {
            Some(CompressionType::LZMA2)
        } else if crate::strutil::str_eq(s, "GZIP") {
            Some(CompressionType::GZIP)
        } else {
            None
        }
    }
}

/// What decompressing `b` under algorithm `t` yields: the identity for
/// `NONE`, the named outside decoder's result otherwise.
pub open spec fn unpack_spec(t: CompressionType, b: Seq<u8>) -> Option<Seq<u8>> {
    match t {
        CompressionType::NONE => Some(b),
        CompressionType::LZMA => lzma_unpack_of(b),
        CompressionType::LZMA2 => lzma2_unpack_of(b),
        CompressionType::GZIP => gzip_unpack_of(b),
    }
}

/// Relies on lzma_rs::lzma_compress: its output decompresses back to its
/// input (the codec is lossless). Its only failure paths are io errors of
/// the source and sink; a byte slice and a `Vec` raise none, so the call
/// succeeds.
#[verifier::external_body]
fn lzma_pack(data: &[u8]) -> (r: Option<Vec<u8>>)
    ensures
        r is Some,
        r matches Some(c) ==> lzma_unpack_of(c@) == Some(data@),
{
    let mut input: &[u8] = data;
    let mut out: Vec<u8> = Vec::new();
    match lzma_rs::lzma_compress(&mut input, &mut out) {
        Ok(()) => Some(out),
        Err(_) => None,
    }
}

/// Relies on lzma_rs::lzma_decompress: the decompressed stream, a pure
/// function of the input bytes; `None` when the stream is rejected.
#[verifier::external_body]
fn lzma_unpack(data: &[u8]) -> (r: Option<Vec<u8>>)
    ensures
        r matches Some(d) ==> lzma_unpack_of(data@) == Some(d@),
        r is None ==> lzma_unpack_of(data@) is None,
{
    let mut input: &[u8] = data;
    let mut out: Vec<u8> = Vec::new();
    match lzma_rs::lzma_decompress(&mut input, &mut out) {
        Ok(()) => Some(out),
        Err(_) => None,
    }
}

/// Relies on lzma_rs::lzma2_compress: its output decompresses back to its
/// input (the codec is lossless). Its only failure paths are io errors of
/// the source and sink; a byte slice and a `Vec` raise none, so the call
/// succeeds.
#[verifier::external_body]
fn lzma2_pack(data: &[u8]) -> (r: Option<Vec<u8>>)
    ensures
        r is Some,
        r matches Some(c) ==> lzma2_unpack_of(c@) == Some(data@),
{
    let mut input: &[u8] = data;
    let mut out: Vec<u8> = Vec::new();
    match lzma_rs::lzma2_compress(&mut input, &mut out) {
        Ok(()) => Some(out),
        Err(_) => None,
    }
}

/// Relies on lzma_rs::lzma2_decompress: the decompressed stream, a pure
/// function of the input bytes; `None` when the stream is rejected.
#[verifier::external_body]
fn lzma2_unpack(data: &[u8]) -> (r: Option<Vec<u8>>)
    ensures
        r matches Some(d) ==> lzma2_unpack_of(data@) == Some(d@),
        r is None ==> lzma2_unpack_of(data@) is None,
{
    let mut input: &[u8] = data;
    let mut out: Vec<u8> = Vec::new();
    match lzma_rs::lzma2_decompress(&mut input, &mut out) {
        Ok(()) => Some(out),
        Err(_) => None,
    }
}

/// Relies on libflate::gzip::Encoder: the finished stream decompresses back
/// to what was written (gzip is lossless, whatever header time it embeds).
/// Its only failure paths are io errors of the sink; a `Vec` raises none,
/// so the call succeeds.
#[verifier::external_body]
fn gzip_pack(data: &[u8]) -> (r: Option<Vec<u8>>)
    ensures
        r is Some,
        r matches Some(c) ==> gzip_unpack_of(c@) == Some(data@),
{
    let mut enc = match libflate::gzip::Encoder::new(Vec::new()) {
        Ok(e) => e,
        Err(_) => return None,
    };
    if std::io::Write::write_all(&mut enc, data).is_err() {
        return None;
    }
    enc.finish().into_result().ok()
}

/// Relies on libflate::gzip::Decoder: the decompressed stream, a pure
/// function of the input bytes; `None` when the stream is rejected.
#[verifier::external_body]
fn gzip_unpack(data: &[u8]) -> (r: Option<Vec<u8>>)
    ensures
        r matches Some(d) ==> gzip_unpack_of(data@) == Some(d@),
        r is None ==> gzip_unpack_of(data@) is None,
{
    let mut dec = match libflate::gzip::Decoder::new(data) {
        Ok(d) => d,
        Err(_) => return None,
    };
    let mut out: Vec<u8> = Vec::new();
    match std::io::Read::read_to_end(&mut dec, &mut out) {
        Ok(_) => Some(out),
        Err(_) => None,
    }
}

/// Compresses `data` under `t`; the output decompresses back to `data`.
pub fn compress(data: &[u8], t: CompressionType) -> (r: Vec<u8>)
    ensures
        unpack_spec(t, r@) == Some(data@),
{
    let packed = match t {
        CompressionType::NONE => Some(vstd::slice::slice_to_vec(data)),
        CompressionType::LZMA => lzma_pack(data),
        CompressionType::LZMA2 => lzma2_pack(data),
        CompressionType::GZIP => gzip_pack(data),
    };
    match packed {
        Some(c) => c,
        None => unreached(),
    }
}

/// Decompresses `data` under `t`: exactly `unpack_spec(t, data)`.
pub fn decompress(data: &[u8], t: CompressionType) -> (r: Option<Vec<u8>>)
    ensures
        r matches Some(d) ==> unpack_spec(t, data@) == Some(d@),
        r is None ==> unpack_spec(t, data@) is None,
{
    match t {
        CompressionType::NONE => {
            let out = vstd::slice::slice_to_vec(data);
            Some(out)
        },
        CompressionType::LZMA => lzma_unpack(data),
        CompressionType::LZMA2 => lzma2_unpack(data),
        CompressionType::GZIP => gzip_unpack(data),
    }
}

} // verus!
