//! Response compression: which encoding the client accepts, which responses
//! are worth compressing, and the compression itself (gzip or zstd).
use std::io::Write;
use vstd::prelude::*;

use crate::error::AppError;
use crate::headers::{value_text, value_to_text, HeaderList};
use crate::text::{has_prefix, has_substring, str_contains, str_starts_with};

verus! {

/// An encoding the gateway can compress with.
#[derive(Debug, Clone, Copy, PartialEq, Eq)]
pub enum CompressionType {
    Gzip,
    Zstd,
    Both,
}

impl Default for CompressionType {
    fn default() -> (r: Self)
        ensures
            r == CompressionType::Gzip,
    {
        CompressionType::Gzip
    }
}

/// The compression settings of a route.
#[derive(Debug, Clone, PartialEq, Eq)]
pub struct Compression {
    pub compression_type: CompressionType,
    pub level: i32,
    pub min_size: usize,
    pub excluded_content_types: Vec<String>,
    pub enabled: bool,
}

/// The content-type prefixes that are not compressed by default.
pub open spec fn default_excluded() -> Seq<Seq<char>> {
    seq![
        "image/png"@,
        "image/jpeg"@,
        "image/gif"@,
        "image/webp"@,
        "image/svg+xml"@,
        "video/"@,
        "audio/"@,
        "application/zip"@,
        "application/gzip"@,
        "application/x-gzip"@,
        "application/x-zip-compressed"@,
        "application/wasm"@,
    ]
}

/// The compression level used when none is given.
pub fn default_level() -> (r: i32)
    ensures
        r == 6,
{
    6
}

/// The smallest body size, in bytes, worth compressing when none is given.
pub fn default_min_size() -> (r: usize)
    ensures
        r == 1024,
{
    1024
}

/// The content-type prefixes that are not compressed when none are given.
pub fn default_excluded_types() -> (r: Vec<String>)
    ensures
        r@.map_values(|s: String| s@) == default_excluded(),
{
    let r = vec![
        "image/png".to_owned(),
        "image/jpeg".to_owned(),
        "image/gif".to_owned(),
        "image/webp".to_owned(),
        "image/svg+xml".to_owned(),
        "video/".to_owned(),
        "audio/".to_owned(),
        "application/zip".to_owned(),
        "application/gzip".to_owned(),
        "application/x-gzip".to_owned(),
        "application/x-zip-compressed".to_owned(),
        "application/wasm".to_owned(),
    ];
    assert(r@.map_values(|s: String| s@) =~= default_excluded());
    r
}

impl Default for Compression {
    fn default() -> (r: Self)
        ensures
            r.compression_type == CompressionType::Gzip,
            r.level == 6,
            r.min_size == 1024,
            r.excluded_content_types@.map_values(|s: String| s@) == default_excluded(),
            r.enabled,
    {
        Compression {
            compression_type: CompressionType::default(),
            level: default_level(),
            min_size: default_min_size(),
            excluded_content_types: default_excluded_types(),
            enabled: true,
        }
    }
}

/// What gzip produces from `data` at compression `level`.
pub uninterp spec fn gzip_compressed(data: Seq<u8>, level: u32) -> Seq<u8>;

/// What zstd produces from `data` at compression `level`.
pub uninterp spec fn zstd_compressed(data: Seq<u8>, level: i32) -> Seq<u8>;

/// `flate2::write::GzEncoder` over a `Vec`, at `flate2::Compression::new(level)`:
/// writes `data` and finishes. Writing into a `Vec` never fails and a fresh
/// deflate stream reports no error, so this succeeds with the gzip stream,
/// which is named.
#[verifier::external_body]
fn gzip_encode(data: &[u8], level: u32) -> (r: Result<Vec<u8>, String>)
    requires
        level <= 9,
    ensures
        r is Ok,
        r matches Ok(v) ==> v@ == gzip_compressed(data@, level),
{
    let mut encoder = flate2::write::GzEncoder::new(Vec::new(), flate2::Compression::new(level));
    encoder.write_all(data).map_err(|e| format!("Gzip compression failed: {}", e))?;
    encoder.finish().map_err(|e| format!("Gzip finish failed: {}", e))
}

/// `zstd::stream::write::Encoder` over a `Vec` at `level`: writes `data` and
/// finishes. With a level in zstd's range and a `Vec` to write into this
/// succeeds with the zstd frame, which is named.
#[verifier::external_body]
fn zstd_encode(data: &[u8], level: i32) -> (r: Result<Vec<u8>, String>)
    requires
        1 <= level <= 22,
    ensures
        r is Ok,
        r matches Ok(v) ==> v@ == zstd_compressed(data@, level),
{
    let mut encoder = zstd::stream::write::Encoder::new(Vec::new(), level).map_err(
        |e| format!("Zstd encoder creation failed: {}", e),
    )?;
    encoder.write_all(data).map_err(|e| format!("Zstd compression failed: {}", e))?;
    encoder.finish().map_err(|e| format!("Zstd finish failed: {}", e))
}

/// `level` limited to the range `lo..=hi`.
pub open spec fn clamp(level: i32, lo: i32, hi: i32) -> i32 {
    if level < lo {
        lo
    } else if level > hi {
        hi
    } else {
        level
    }
}

/// No excluded prefix starts the content type.
pub open spec fn not_excluded(excluded: Seq<String>, content_type: Seq<char>) -> bool {
    forall|i: int| 0 <= i < excluded.len() ==> !has_prefix(content_type, #[trigger] excluded[i]@)
}

/// Whether the client accepts gzip: it names gzip or the wildcard.
pub open spec fn accepts_gzip(accept: Seq<char>) -> bool {
    has_substring(accept, "gzip"@) || has_substring(accept, "*"@)
}

/// Whether the client accepts zstd: it names zstd or the wildcard.
pub open spec fn accepts_zstd(accept: Seq<char>) -> bool {
    has_substring(accept, "zstd"@) || has_substring(accept, "*"@)
}

impl Compression {
    /// Whether a response of this content type may be compressed.
    pub open spec fn spec_should_compress(self, content_type: Option<Seq<char>>) -> bool {
        self.enabled && match content_type {
            None => true,
            Some(ct) => not_excluded(self.excluded_content_types@, ct),
        }
    }

    /// The encoding chosen for a client whose Accept-Encoding is `accept`.
    pub open spec fn choice(self, accept: Seq<char>) -> Option<CompressionType> {
        match self.compression_type {
            CompressionType::Gzip => if accepts_gzip(accept) {
                Some(CompressionType::Gzip)
            } else if accepts_zstd(accept) {
                Some(CompressionType::Zstd)
            } else {
                None
            },
            CompressionType::Zstd => if accepts_zstd(accept) {
                Some(CompressionType::Zstd)
            } else {
                None
            },
            CompressionType::Both => if accepts_zstd(accept) {
                Some(CompressionType::Zstd)
            } else if accepts_gzip(accept) {
                Some(CompressionType::Gzip)
            } else {
                None
            },
        }
    }

    /// The encoding chosen for a request: none without a readable Accept-Encoding header.
    pub open spec fn spec_accept_encoding(self, headers: HeaderList) -> Option<CompressionType> {
        match headers.spec_get("accept-encoding"@) {
            None => None,
            Some(v) => match value_text(v) {
                None => None,
                Some(accept) => self.choice(accept),
            },
        }
    }

    /// Whether a response of this content type may be compressed: compression
    /// is on and no excluded prefix starts the content type.
    pub fn should_compress(&self, content_type: Option<&str>) -> (r: bool)
        ensures
            r == self.spec_should_compress(
                match content_type {
                    Some(ct) => Some(ct@),
                    None => None,
                },
            ),
    {
        if !self.enabled {
            return false;
        }
        if let Some(ct) = content_type {
            let mut i: usize = 0;
            while i < self.excluded_content_types.len()
                invariant
                    i <= self.excluded_content_types@.len(),
                    content_type == Some(ct),
                    self.enabled,
                    forall|j: int| 0 <= j < i ==> !has_prefix(
                        ct@,
                        #[trigger] self.excluded_content_types@[j]@,
                    ),
                decreases self.excluded_content_types@.len() - i,
            {
                if str_starts_with(ct, self.excluded_content_types[i].as_str()) {
                    assert(has_prefix(ct@, self.excluded_content_types@[i as int]@));
                    return false;
                }
                i = i + 1;
            }
        }
        true
    }

    /// The encoding to use for a request, from its Accept-Encoding header: the
    /// configured type when the client accepts it; a gzip route also serves a
    /// client that accepts only zstd; `Both` prefers zstd.
    pub fn parse_accept_encoding(&self, headers: &HeaderList) -> (r: Option<CompressionType>)
        ensures
            r == self.spec_accept_encoding(*headers),
    {
        let raw = match headers.get("accept-encoding") {
            Some(v) => v,
            None => {
                return None;
            },
        };
        let accept = match value_to_text(raw.as_slice()) {
            Some(t) => t,
            None => {
                return None;
            },
        };
        let supports_gzip = str_contains(accept.as_str(), "gzip") || str_contains(
            accept.as_str(),
            "*",
        );
        let supports_zstd = str_contains(accept.as_str(), "zstd") || str_contains(
            accept.as_str(),
            "*",
        );
        proof {
            reveal_strlit("accept-encoding");
            assert(crate::text::lower_text("accept-encoding"@) =~= "accept-encoding"@);
        }
        match self.compression_type {
            CompressionType::Gzip => if supports_gzip {
                Some(CompressionType::Gzip)
            } else if supports_zstd {
                Some(CompressionType::Zstd)
            } else {
                None
            },
            CompressionType::Zstd => if supports_zstd {
                Some(CompressionType::Zstd)
            } else {
                None
            },
            CompressionType::Both => {
                if supports_zstd {
                    Some(CompressionType::Zstd)
                } else if supports_gzip {
                    Some(CompressionType::Gzip)
                } else {
                    None
                }
            },
        }
    }

    /// Compresses `data` with the given encoding: gzip at the level limited to
    /// 0..=9, zstd at the level limited to 1..=22; `Both` leaves the data as it is.
    pub fn compress_data(&self, data: &[u8], compression_type: &CompressionType) -> (r: Result<
        Vec<u8>,
        AppError,
    >)
        ensures
            match *compression_type {
                CompressionType::Gzip => r matches Ok(v) && v@ == gzip_compressed(
                    data@,
                    clamp(self.level, 0, 9) as u32,
                ),
                CompressionType::Zstd => r matches Ok(v) && v@ == zstd_compressed(
                    data@,
                    clamp(self.level, 1, 22),
                ),
                CompressionType::Both => r matches Ok(v) && v@ == data@,
            },
    {
        match compression_type {
            CompressionType::Gzip => {
                let level: i32 = if self.level < 0 {
                    0
                } else if self.level > 9 {
                    9
                } else {
                    self.level
                };
                match gzip_encode(data, level as u32) {
                    Ok(v) => Ok(v),
                    Err(m) => Err(AppError(m)),
                }
            },
            CompressionType::Zstd => {
                let level: i32 = if self.level < 1 {
                    1
                } else if self.level > 22 {
                    22
                } else {
                    self.level
                };
                match zstd_encode(data, level) {
                    Ok(v) => Ok(v),
                    Err(m) => Err(AppError(m)),
                }
            },
            CompressionType::Both => Ok(vstd::slice::slice_to_vec(data)),
        }
    }

    /// The Content-Encoding value of an encoding; `Both` reads as gzip.
    pub fn get_encoding_value(&self, compression_type: &CompressionType) -> (r: &'static str)
        ensures
            r@ == match *compression_type {
                CompressionType::Zstd => "zstd"@,
                _ => "gzip"@,
            },
    {
        match compression_type {
            CompressionType::Gzip => "gzip",
            CompressionType::Zstd => "zstd",
            CompressionType::Both => "gzip",
        }
    }

    /// The encoding to compress a response with, if any: compression is on, the
    /// client accepts an encoding, the response is not already encoded, and its
    /// content type is not excluded.
    pub fn should_compress_response(
        &self,
        response_headers: &HeaderList,
        request_headers: &HeaderList,
    ) -> (r: Option<CompressionType>)
        ensures
            r == if !self.enabled {
                None
            } else {
                match self.spec_accept_encoding(*request_headers) {
                    None => None,
                    Some(t) => if response_headers.spec_get("content-encoding"@) is Some {
                        None
                    } else if self.spec_should_compress(
                        match response_headers.spec_get("content-type"@) {
                            None => None,
                            Some(v) => value_text(v),
                        },
                    ) {
                        Some(t)
                    } else {
                        None
                    },
                }
            },
    {
        if !self.enabled {
            return None;
        }
        let compression_type = match self.parse_accept_encoding(request_headers) {
            Some(t) => t,
            None => {
                return None;
            },
        };
        if response_headers.contains_key("content-encoding") {
            return None;
        }
        let content_type: Option<String> = match response_headers.get("content-type") {
            None => None,
            Some(v) => value_to_text(v.as_slice()),
        };
        let ok = match &content_type {
            None => self.should_compress(None),
            Some(s) => self.should_compress(Some(s.as_str())),
        };
        if !ok {
            return None;
        }
        Some(compression_type)
    }
}

} // verus!
