//! File type detection: magic bytes, extensions and a printable-text
//! heuristic, driving the compression policy of the pipeline.

use vstd::prelude::*;
use vstd::string::StringSliceAdditionalSpecFns;

verus! {

/// A detected file type.
#[derive(Debug, Clone, Copy, PartialEq, Eq, Structural)]
pub enum FileType {
    /// Already compressed: archives and similar.
    Compressed,
    /// Image formats.
    Image,
    /// Video formats.
    Video,
    /// Audio formats.
    Audio,
    /// Text.
    Text,
    /// Executables and libraries.
    Binary,
    /// Anything else.
    Unknown,
}

/// The compression level used for a type: none for already-compressed
/// material, the most for text.
pub open spec fn spec_level_for(t: FileType) -> int {
    match t {
        FileType::Compressed => 0,
        FileType::Image => 1,
        FileType::Video => 0,
        FileType::Audio => 1,
        FileType::Text => 9,
        FileType::Binary => 6,
        FileType::Unknown => 3,
    }
}

/// Whether compression is skipped entirely for a type.
pub open spec fn spec_skip_compression(t: FileType) -> bool {
    t == FileType::Compressed || t == FileType::Video
}

impl FileType {
    /// The compression level recommended for this type.
    pub fn recommended_compression_level(&self) -> (r: i32)
        ensures
            r == spec_level_for(*self),
    {
        match self {
            FileType::Compressed => 0,
            FileType::Image => 1,
            FileType::Video => 0,
            FileType::Audio => 1,
            FileType::Text => 9,
            FileType::Binary => 6,
            FileType::Unknown => 3,
        }
    }

    /// Whether compression is skipped entirely for this type.
    pub fn skip_compression(&self) -> (r: bool)
        ensures
            r == spec_skip_compression(*self),
    {
        match self {
            FileType::Compressed => true,
            FileType::Video => true,
            _ => false,
        }
    }

    /// A display name for this type.
    pub fn name(&self) -> (r: &'static str)
        ensures
            r@ == spec_type_name(*self),
    {
        match self {
            FileType::Compressed => "Compressed Archive",
            FileType::Image => "Image",
            FileType::Video => "Video",
            FileType::Audio => "Audio",
            FileType::Text => "Text",
            FileType::Binary => "Binary",
            FileType::Unknown => "Unknown",
        }
    }
}

/// The display name of a type.
pub open spec fn spec_type_name(t: FileType) -> Seq<char> {
    match t {
        FileType::Compressed => "Compressed Archive"@,
        FileType::Image => "Image"@,
        FileType::Video => "Video"@,
        FileType::Audio => "Audio"@,
        FileType::Text => "Text"@,
        FileType::Binary => "Binary"@,
        FileType::Unknown => "Unknown"@,
    }
}

/// A byte lowered to its ASCII lowercase.
pub open spec fn lower_byte(b: u8) -> u8 {
    if 0x41 <= b && b <= 0x5a {
        (b + 0x20) as u8
    } else {
        b
    }
}

/// A byte string lowered bytewise.
pub open spec fn lower_bytes(s: Seq<u8>) -> Seq<u8> {
    Seq::new(s.len(), |i: int| lower_byte(s[i]))
}

/// The type assigned to a file-name extension, compared case-insensitively
/// over its bytes.
pub open spec fn spec_ext_class(e: Seq<u8>) -> FileType {
    let l = lower_bytes(e);
    if false {
        FileType::Unknown
    } else if l == seq![0x7au8, 0x69u8, 0x70u8] || l == seq![0x67u8, 0x7au8] || l == seq![0x62u8, 0x7au8, 0x32u8] || l == seq![0x78u8, 0x7au8] || l == seq![0x37u8, 0x7au8] || l == seq![0x74u8, 0x61u8, 0x72u8] || l == seq![0x72u8, 0x61u8, 0x72u8] || l == seq![0x7au8, 0x73u8, 0x74u8] || l == seq![0x6cu8, 0x7au8, 0x34u8] {
        FileType::Compressed
    } else if l == seq![0x6au8, 0x70u8, 0x67u8] || l == seq![0x6au8, 0x70u8, 0x65u8, 0x67u8] || l == seq![0x70u8, 0x6eu8, 0x67u8] || l == seq![0x67u8, 0x69u8, 0x66u8] || l == seq![0x62u8, 0x6du8, 0x70u8] || l == seq![0x74u8, 0x69u8, 0x66u8, 0x66u8] || l == seq![0x77u8, 0x65u8, 0x62u8, 0x70u8] || l == seq![0x73u8, 0x76u8, 0x67u8] || l == seq![0x69u8, 0x63u8, 0x6fu8] {
        FileType::Image
    } else if l == seq![0x6du8, 0x70u8, 0x34u8] || l == seq![0x61u8, 0x76u8, 0x69u8] || l == seq![0x6du8, 0x6bu8, 0x76u8] || l == seq![0x6du8, 0x6fu8, 0x76u8] || l == seq![0x77u8, 0x6du8, 0x76u8] || l == seq![0x66u8, 0x6cu8, 0x76u8] || l == seq![0x77u8, 0x65u8, 0x62u8, 0x6du8] || l == seq![0x6du8, 0x34u8, 0x76u8] || l == seq![0x6du8, 0x70u8, 0x67u8] || l == seq![0x6du8, 0x70u8, 0x65u8, 0x67u8] {
        FileType::Video
    } else if l == seq![0x6du8, 0x70u8, 0x33u8] || l == seq![0x77u8, 0x61u8, 0x76u8] || l == seq![0x66u8, 0x6cu8, 0x61u8, 0x63u8] || l == seq![0x61u8, 0x61u8, 0x63u8] || l == seq![0x6fu8, 0x67u8, 0x67u8] || l == seq![0x77u8, 0x6du8, 0x61u8] || l == seq![0x6du8, 0x34u8, 0x61u8] || l == seq![0x6fu8, 0x70u8, 0x75u8, 0x73u8] {
        FileType::Audio
    } else if l == seq![0x74u8, 0x78u8, 0x74u8] || l == seq![0x6cu8, 0x6fu8, 0x67u8] || l == seq![0x6au8, 0x73u8, 0x6fu8, 0x6eu8] || l == seq![0x78u8, 0x6du8, 0x6cu8] || l == seq![0x79u8, 0x61u8, 0x6du8, 0x6cu8] || l == seq![0x79u8, 0x6du8, 0x6cu8] || l == seq![0x74u8, 0x6fu8, 0x6du8, 0x6cu8] || l == seq![0x69u8, 0x6eu8, 0x69u8] || l == seq![0x6du8, 0x64u8] || l == seq![0x72u8, 0x73u8, 0x74u8] || l == seq![0x63u8, 0x73u8, 0x76u8] || l == seq![0x74u8, 0x73u8, 0x76u8] || l == seq![0x68u8, 0x74u8, 0x6du8, 0x6cu8] || l == seq![0x68u8, 0x74u8, 0x6du8] || l == seq![0x63u8, 0x73u8, 0x73u8] || l == seq![0x6au8, 0x73u8] || l == seq![0x70u8, 0x79u8] || l == seq![0x72u8, 0x73u8] || l == seq![0x67u8, 0x6fu8] || l == seq![0x63u8] || l == seq![0x63u8, 0x70u8, 0x70u8] || l == seq![0x68u8] || l == seq![0x6au8, 0x61u8, 0x76u8, 0x61u8] || l == seq![0x73u8, 0x68u8] || l == seq![0x62u8, 0x61u8, 0x73u8, 0x68u8] {
        FileType::Text
    } else if l == seq![0x65u8, 0x78u8, 0x65u8] || l == seq![0x64u8, 0x6cu8, 0x6cu8] || l == seq![0x73u8, 0x6fu8] || l == seq![0x64u8, 0x79u8, 0x6cu8, 0x69u8, 0x62u8] || l == seq![0x6fu8] || l == seq![0x61u8] || l == seq![0x6cu8, 0x69u8, 0x62u8] || l == seq![0x62u8, 0x69u8, 0x6eu8] || l == seq![0x64u8, 0x61u8, 0x74u8] {
        FileType::Binary
    } else {
        FileType::Unknown
    }
}

/// Compare two byte strings.
pub fn bytes_eq(a: &[u8], b: &[u8]) -> (r: bool)
    ensures
        r == (a@ == b@),
{
    if a.len() != b.len() {
        proof {
            assert(a@.len() != b@.len());
        }
        return false;
    }
    let mut i: usize = 0;
    while i < a.len()
        invariant
            i <= a@.len(),
            a@.len() == b@.len(),
            forall|j: int| 0 <= j < i ==> a@[j] == b@[j],
        decreases a@.len() - i,
    {
        if a[i] != b[i] {
            return false;
        }
        i = i + 1;
    }
    proof {
        assert(a@ =~= b@);
    }
    true
}

/// The file-type detector.
pub struct FileDetector;

impl FileDetector {
    /// Classify a file-name extension, case-insensitively.
    pub fn detect_from_extension(ext: &str) -> (r: FileType)
        ensures
            r == spec_ext_class(ext.spec_bytes()),
    {
        classify_ext_bytes(ext.as_bytes())
    }
}

/// Classify an extension given as bytes, case-insensitively.
fn classify_ext_bytes(bytes: &[u8]) -> (r: FileType)
    ensures
        r == spec_ext_class(bytes@),
{
    {
        let mut low: Vec<u8> = Vec::new();
        let mut i: usize = 0;
        while i < bytes.len()
            invariant
                i <= bytes@.len(),
                low@ =~= lower_bytes(bytes@.take(i as int)),
            decreases bytes@.len() - i,
        {
            let b = bytes[i];
            let lb: u8 = if 0x41 <= b && b <= 0x5a {
                b + 0x20
            } else {
                b
            };
            low.push(lb);
            i = i + 1;
            proof {
                assert(low@ =~= lower_bytes(bytes@.take(i as int)));
            }
        }
        proof {
            assert(bytes@.take(bytes@.len() as int) =~= bytes@);
            assert(low@ =~= lower_bytes(bytes@));
        }
        let pat: Vec<u8> = vec![0x7au8, 0x69u8, 0x70u8];
        proof {
            assert(pat@ =~= seq![0x7au8, 0x69u8, 0x70u8]);
        }
        if bytes_eq(low.as_slice(), pat.as_slice()) {
            return FileType::Compressed;
        }
        let pat: Vec<u8> = vec![0x67u8, 0x7au8];
        proof {
            assert(pat@ =~= seq![0x67u8, 0x7au8]);
        }
        if bytes_eq(low.as_slice(), pat.as_slice()) {
            return FileType::Compressed;
        }
        let pat: Vec<u8> = vec![0x62u8, 0x7au8, 0x32u8];
        proof {
            assert(pat@ =~= seq![0x62u8, 0x7au8, 0x32u8]);
        }
        if bytes_eq(low.as_slice(), pat.as_slice()) {
            return FileType::Compressed;
        }
        let pat: Vec<u8> = vec![0x78u8, 0x7au8];
        proof {
            assert(pat@ =~= seq![0x78u8, 0x7au8]);
        }
        if bytes_eq(low.as_slice(), pat.as_slice()) {
            return FileType::Compressed;
        }
        let pat: Vec<u8> = vec![0x37u8, 0x7au8];
        proof {
            assert(pat@ =~= seq![0x37u8, 0x7au8]);
        }
        if bytes_eq(low.as_slice(), pat.as_slice()) {
            return FileType::Compressed;
        }
        let pat: Vec<u8> = vec![0x74u8, 0x61u8, 0x72u8];
        proof {
            assert(pat@ =~= seq![0x74u8, 0x61u8, 0x72u8]);
        }
        if bytes_eq(low.as_slice(), pat.as_slice()) {
            return FileType::Compressed;
        }
        let pat: Vec<u8> = vec![0x72u8, 0x61u8, 0x72u8];
        proof {
            assert(pat@ =~= seq![0x72u8, 0x61u8, 0x72u8]);
        }
        if bytes_eq(low.as_slice(), pat.as_slice()) {
            return FileType::Compressed;
        }
        let pat: Vec<u8> = vec![0x7au8, 0x73u8, 0x74u8];
        proof {
            assert(pat@ =~= seq![0x7au8, 0x73u8, 0x74u8]);
        }
        if bytes_eq(low.as_slice(), pat.as_slice()) {
            return FileType::Compressed;
        }
        let pat: Vec<u8> = vec![0x6cu8, 0x7au8, 0x34u8];
        proof {
            assert(pat@ =~= seq![0x6cu8, 0x7au8, 0x34u8]);
        }
        if bytes_eq(low.as_slice(), pat.as_slice()) {
            return FileType::Compressed;
        }
        let pat: Vec<u8> = vec![0x6au8, 0x70u8, 0x67u8];
        proof {
            assert(pat@ =~= seq![0x6au8, 0x70u8, 0x67u8]);
        }
        if bytes_eq(low.as_slice(), pat.as_slice()) {
            return FileType::Image;
        }
        let pat: Vec<u8> = vec![0x6au8, 0x70u8, 0x65u8, 0x67u8];
        proof {
            assert(pat@ =~= seq![0x6au8, 0x70u8, 0x65u8, 0x67u8]);
        }
        if bytes_eq(low.as_slice(), pat.as_slice()) {
            return FileType::Image;
        }
        let pat: Vec<u8> = vec![0x70u8, 0x6eu8, 0x67u8];
        proof {
            assert(pat@ =~= seq![0x70u8, 0x6eu8, 0x67u8]);
        }
        if bytes_eq(low.as_slice(), pat.as_slice()) {
            return FileType::Image;
        }
        let pat: Vec<u8> = vec![0x67u8, 0x69u8, 0x66u8];
        proof {
            assert(pat@ =~= seq![0x67u8, 0x69u8, 0x66u8]);
        }
        if bytes_eq(low.as_slice(), pat.as_slice()) {
            return FileType::Image;
        }
        let pat: Vec<u8> = vec![0x62u8, 0x6du8, 0x70u8];
        proof {
            assert(pat@ =~= seq![0x62u8, 0x6du8, 0x70u8]);
        }
        if bytes_eq(low.as_slice(), pat.as_slice()) {
            return FileType::Image;
        }
        let pat: Vec<u8> = vec![0x74u8, 0x69u8, 0x66u8, 0x66u8];
        proof {
            assert(pat@ =~= seq![0x74u8, 0x69u8, 0x66u8, 0x66u8]);
        }
        if bytes_eq(low.as_slice(), pat.as_slice()) {
            return FileType::Image;
        }
        let pat: Vec<u8> = vec![0x77u8, 0x65u8, 0x62u8, 0x70u8];
        proof {
            assert(pat@ =~= seq![0x77u8, 0x65u8, 0x62u8, 0x70u8]);
        }
        if bytes_eq(low.as_slice(), pat.as_slice()) {
            return FileType::Image;
        }
        let pat: Vec<u8> = vec![0x73u8, 0x76u8, 0x67u8];
        proof {
            assert(pat@ =~= seq![0x73u8, 0x76u8, 0x67u8]);
        }
        if bytes_eq(low.as_slice(), pat.as_slice()) {
            return FileType::Image;
        }
        let pat: Vec<u8> = vec![0x69u8, 0x63u8, 0x6fu8];
        proof {
            assert(pat@ =~= seq![0x69u8, 0x63u8, 0x6fu8]);
        }
        if bytes_eq(low.as_slice(), pat.as_slice()) {
            return FileType::Image;
        }
        let pat: Vec<u8> = vec![0x6du8, 0x70u8, 0x34u8];
        proof {
            assert(pat@ =~= seq![0x6du8, 0x70u8, 0x34u8]);
        }
        if bytes_eq(low.as_slice(), pat.as_slice()) {
            return FileType::Video;
        }
        let pat: Vec<u8> = vec![0x61u8, 0x76u8, 0x69u8];
        proof {
            assert(pat@ =~= seq![0x61u8, 0x76u8, 0x69u8]);
        }
        if bytes_eq(low.as_slice(), pat.as_slice()) {
            return FileType::Video;
        }
        let pat: Vec<u8> = vec![0x6du8, 0x6bu8, 0x76u8];
        proof {
            assert(pat@ =~= seq![0x6du8, 0x6bu8, 0x76u8]);
        }
        if bytes_eq(low.as_slice(), pat.as_slice()) {
            return FileType::Video;
        }
        let pat: Vec<u8> = vec![0x6du8, 0x6fu8, 0x76u8];
        proof {
            assert(pat@ =~= seq![0x6du8, 0x6fu8, 0x76u8]);
        }
        if bytes_eq(low.as_slice(), pat.as_slice()) {
            return FileType::Video;
        }
        let pat: Vec<u8> = vec![0x77u8, 0x6du8, 0x76u8];
        proof {
            assert(pat@ =~= seq![0x77u8, 0x6du8, 0x76u8]);
        }
        if bytes_eq(low.as_slice(), pat.as_slice()) {
            return FileType::Video;
        }
        let pat: Vec<u8> = vec![0x66u8, 0x6cu8, 0x76u8];
        proof {
            assert(pat@ =~= seq![0x66u8, 0x6cu8, 0x76u8]);
        }
        if bytes_eq(low.as_slice(), pat.as_slice()) {
            return FileType::Video;
        }
        let pat: Vec<u8> = vec![0x77u8, 0x65u8, 0x62u8, 0x6du8];
        proof {
            assert(pat@ =~= seq![0x77u8, 0x65u8, 0x62u8, 0x6du8]);
        }
        if bytes_eq(low.as_slice(), pat.as_slice()) {
            return FileType::Video;
        }
        let pat: Vec<u8> = vec![0x6du8, 0x34u8, 0x76u8];
        proof {
            assert(pat@ =~= seq![0x6du8, 0x34u8, 0x76u8]);
        }
        if bytes_eq(low.as_slice(), pat.as_slice()) {
            return FileType::Video;
        }
        let pat: Vec<u8> = vec![0x6du8, 0x70u8, 0x67u8];
        proof {
            assert(pat@ =~= seq![0x6du8, 0x70u8, 0x67u8]);
        }
        if bytes_eq(low.as_slice(), pat.as_slice()) {
            return FileType::Video;
        }
        let pat: Vec<u8> = vec![0x6du8, 0x70u8, 0x65u8, 0x67u8];
        proof {
            assert(pat@ =~= seq![0x6du8, 0x70u8, 0x65u8, 0x67u8]);
        }
        if bytes_eq(low.as_slice(), pat.as_slice()) {
            return FileType::Video;
        }
        let pat: Vec<u8> = vec![0x6du8, 0x70u8, 0x33u8];
        proof {
            assert(pat@ =~= seq![0x6du8, 0x70u8, 0x33u8]);
        }
        if bytes_eq(low.as_slice(), pat.as_slice()) {
            return FileType::Audio;
        }
        let pat: Vec<u8> = vec![0x77u8, 0x61u8, 0x76u8];
        proof {
            assert(pat@ =~= seq![0x77u8, 0x61u8, 0x76u8]);
        }
        if bytes_eq(low.as_slice(), pat.as_slice()) {
            return FileType::Audio;
        }
        let pat: Vec<u8> = vec![0x66u8, 0x6cu8, 0x61u8, 0x63u8];
        proof {
            assert(pat@ =~= seq![0x66u8, 0x6cu8, 0x61u8, 0x63u8]);
        }
        if bytes_eq(low.as_slice(), pat.as_slice()) {
            return FileType::Audio;
        }
        let pat: Vec<u8> = vec![0x61u8, 0x61u8, 0x63u8];
        proof {
            assert(pat@ =~= seq![0x61u8, 0x61u8, 0x63u8]);
        }
        if bytes_eq(low.as_slice(), pat.as_slice()) {
            return FileType::Audio;
        }
        let pat: Vec<u8> = vec![0x6fu8, 0x67u8, 0x67u8];
        proof {
            assert(pat@ =~= seq![0x6fu8, 0x67u8, 0x67u8]);
        }
        if bytes_eq(low.as_slice(), pat.as_slice()) {
            return FileType::Audio;
        }
        let pat: Vec<u8> = vec![0x77u8, 0x6du8, 0x61u8];
        proof {
            assert(pat@ =~= seq![0x77u8, 0x6du8, 0x61u8]);
        }
        if bytes_eq(low.as_slice(), pat.as_slice()) {
            return FileType::Audio;
        }
        let pat: Vec<u8> = vec![0x6du8, 0x34u8, 0x61u8];
        proof {
            assert(pat@ =~= seq![0x6du8, 0x34u8, 0x61u8]);
        }
        if bytes_eq(low.as_slice(), pat.as_slice()) {
            return FileType::Audio;
        }
        let pat: Vec<u8> = vec![0x6fu8, 0x70u8, 0x75u8, 0x73u8];
        proof {
            assert(pat@ =~= seq![0x6fu8, 0x70u8, 0x75u8, 0x73u8]);
        }
        if bytes_eq(low.as_slice(), pat.as_slice()) {
            return FileType::Audio;
        }
        let pat: Vec<u8> = vec![0x74u8, 0x78u8, 0x74u8];
        proof {
            assert(pat@ =~= seq![0x74u8, 0x78u8, 0x74u8]);
        }
        if bytes_eq(low.as_slice(), pat.as_slice()) {
            return FileType::Text;
        }
        let pat: Vec<u8> = vec![0x6cu8, 0x6fu8, 0x67u8];
        proof {
            assert(pat@ =~= seq![0x6cu8, 0x6fu8, 0x67u8]);
        }
        if bytes_eq(low.as_slice(), pat.as_slice()) {
            return FileType::Text;
        }
        let pat: Vec<u8> = vec![0x6au8, 0x73u8, 0x6fu8, 0x6eu8];
        proof {
            assert(pat@ =~= seq![0x6au8, 0x73u8, 0x6fu8, 0x6eu8]);
        }
        if bytes_eq(low.as_slice(), pat.as_slice()) {
            return FileType::Text;
        }
        let pat: Vec<u8> = vec![0x78u8, 0x6du8, 0x6cu8];
        proof {
            assert(pat@ =~= seq![0x78u8, 0x6du8, 0x6cu8]);
        }
        if bytes_eq(low.as_slice(), pat.as_slice()) {
            return FileType::Text;
        }
        let pat: Vec<u8> = vec![0x79u8, 0x61u8, 0x6du8, 0x6cu8];
        proof {
            assert(pat@ =~= seq![0x79u8, 0x61u8, 0x6du8, 0x6cu8]);
        }
        if bytes_eq(low.as_slice(), pat.as_slice()) {
            return FileType::Text;
        }
        let pat: Vec<u8> = vec![0x79u8, 0x6du8, 0x6cu8];
        proof {
            assert(pat@ =~= seq![0x79u8, 0x6du8, 0x6cu8]);
        }
        if bytes_eq(low.as_slice(), pat.as_slice()) {
            return FileType::Text;
        }
        let pat: Vec<u8> = vec![0x74u8, 0x6fu8, 0x6du8, 0x6cu8];
        proof {
            assert(pat@ =~= seq![0x74u8, 0x6fu8, 0x6du8, 0x6cu8]);
        }
        if bytes_eq(low.as_slice(), pat.as_slice()) {
            return FileType::Text;
        }
        let pat: Vec<u8> = vec![0x69u8, 0x6eu8, 0x69u8];
        proof {
            assert(pat@ =~= seq![0x69u8, 0x6eu8, 0x69u8]);
        }
        if bytes_eq(low.as_slice(), pat.as_slice()) {
            return FileType::Text;
        }
        let pat: Vec<u8> = vec![0x6du8, 0x64u8];
        proof {
            assert(pat@ =~= seq![0x6du8, 0x64u8]);
        }
        if bytes_eq(low.as_slice(), pat.as_slice()) {
            return FileType::Text;
        }
        let pat: Vec<u8> = vec![0x72u8, 0x73u8, 0x74u8];
        proof {
            assert(pat@ =~= seq![0x72u8, 0x73u8, 0x74u8]);
        }
        if bytes_eq(low.as_slice(), pat.as_slice()) {
            return FileType::Text;
        }
        let pat: Vec<u8> = vec![0x63u8, 0x73u8, 0x76u8];
        proof {
            assert(pat@ =~= seq![0x63u8, 0x73u8, 0x76u8]);
        }
        if bytes_eq(low.as_slice(), pat.as_slice()) {
            return FileType::Text;
        }
        let pat: Vec<u8> = vec![0x74u8, 0x73u8, 0x76u8];
        proof {
            assert(pat@ =~= seq![0x74u8, 0x73u8, 0x76u8]);
        }
        if bytes_eq(low.as_slice(), pat.as_slice()) {
            return FileType::Text;
        }
        let pat: Vec<u8> = vec![0x68u8, 0x74u8, 0x6du8, 0x6cu8];
        proof {
            assert(pat@ =~= seq![0x68u8, 0x74u8, 0x6du8, 0x6cu8]);
        }
        if bytes_eq(low.as_slice(), pat.as_slice()) {
            return FileType::Text;
        }
        let pat: Vec<u8> = vec![0x68u8, 0x74u8, 0x6du8];
        proof {
            assert(pat@ =~= seq![0x68u8, 0x74u8, 0x6du8]);
        }
        if bytes_eq(low.as_slice(), pat.as_slice()) {
            return FileType::Text;
        }
        let pat: Vec<u8> = vec![0x63u8, 0x73u8, 0x73u8];
        proof {
            assert(pat@ =~= seq![0x63u8, 0x73u8, 0x73u8]);
        }
        if bytes_eq(low.as_slice(), pat.as_slice()) {
            return FileType::Text;
        }
        let pat: Vec<u8> = vec![0x6au8, 0x73u8];
        proof {
            assert(pat@ =~= seq![0x6au8, 0x73u8]);
        }
        if bytes_eq(low.as_slice(), pat.as_slice()) {
            return FileType::Text;
        }
        let pat: Vec<u8> = vec![0x70u8, 0x79u8];
        proof {
            assert(pat@ =~= seq![0x70u8, 0x79u8]);
        }
        if bytes_eq(low.as_slice(), pat.as_slice()) {
            return FileType::Text;
        }
        let pat: Vec<u8> = vec![0x72u8, 0x73u8];
        proof {
            assert(pat@ =~= seq![0x72u8, 0x73u8]);
        }
        if bytes_eq(low.as_slice(), pat.as_slice()) {
            return FileType::Text;
        }
        let pat: Vec<u8> = vec![0x67u8, 0x6fu8];
        proof {
            assert(pat@ =~= seq![0x67u8, 0x6fu8]);
        }
        if bytes_eq(low.as_slice(), pat.as_slice()) {
            return FileType::Text;
        }
        let pat: Vec<u8> = vec![0x63u8];
        proof {
            assert(pat@ =~= seq![0x63u8]);
        }
        if bytes_eq(low.as_slice(), pat.as_slice()) {
            return FileType::Text;
        }
        let pat: Vec<u8> = vec![0x63u8, 0x70u8, 0x70u8];
        proof {
            assert(pat@ =~= seq![0x63u8, 0x70u8, 0x70u8]);
        }
        if bytes_eq(low.as_slice(), pat.as_slice()) {
            return FileType::Text;
        }
        let pat: Vec<u8> = vec![0x68u8];
        proof {
            assert(pat@ =~= seq![0x68u8]);
        }
        if bytes_eq(low.as_slice(), pat.as_slice()) {
            return FileType::Text;
        }
        let pat: Vec<u8> = vec![0x6au8, 0x61u8, 0x76u8, 0x61u8];
        proof {
            assert(pat@ =~= seq![0x6au8, 0x61u8, 0x76u8, 0x61u8]);
        }
        if bytes_eq(low.as_slice(), pat.as_slice()) {
            return FileType::Text;
        }
        let pat: Vec<u8> = vec![0x73u8, 0x68u8];
        proof {
            assert(pat@ =~= seq![0x73u8, 0x68u8]);
        }
        if bytes_eq(low.as_slice(), pat.as_slice()) {
            return FileType::Text;
        }
        let pat: Vec<u8> = vec![0x62u8, 0x61u8, 0x73u8, 0x68u8];
        proof {
            assert(pat@ =~= seq![0x62u8, 0x61u8, 0x73u8, 0x68u8]);
        }
        if bytes_eq(low.as_slice(), pat.as_slice()) {
            return FileType::Text;
        }
        let pat: Vec<u8> = vec![0x65u8, 0x78u8, 0x65u8];
        proof {
            assert(pat@ =~= seq![0x65u8, 0x78u8, 0x65u8]);
        }
        if bytes_eq(low.as_slice(), pat.as_slice()) {
            return FileType::Binary;
        }
        let pat: Vec<u8> = vec![0x64u8, 0x6cu8, 0x6cu8];
        proof {
            assert(pat@ =~= seq![0x64u8, 0x6cu8, 0x6cu8]);
        }
        if bytes_eq(low.as_slice(), pat.as_slice()) {
            return FileType::Binary;
        }
        let pat: Vec<u8> = vec![0x73u8, 0x6fu8];
        proof {
            assert(pat@ =~= seq![0x73u8, 0x6fu8]);
        }
        if bytes_eq(low.as_slice(), pat.as_slice()) {
            return FileType::Binary;
        }
        let pat: Vec<u8> = vec![0x64u8, 0x79u8, 0x6cu8, 0x69u8, 0x62u8];
        proof {
            assert(pat@ =~= seq![0x64u8, 0x79u8, 0x6cu8, 0x69u8, 0x62u8]);
        }
        if bytes_eq(low.as_slice(), pat.as_slice()) {
            return FileType::Binary;
        }
        let pat: Vec<u8> = vec![0x6fu8];
        proof {
            assert(pat@ =~= seq![0x6fu8]);
        }
        if bytes_eq(low.as_slice(), pat.as_slice()) {
            return FileType::Binary;
        }
        let pat: Vec<u8> = vec![0x61u8];
        proof {
            assert(pat@ =~= seq![0x61u8]);
        }
        if bytes_eq(low.as_slice(), pat.as_slice()) {
            return FileType::Binary;
        }
        let pat: Vec<u8> = vec![0x6cu8, 0x69u8, 0x62u8];
        proof {
            assert(pat@ =~= seq![0x6cu8, 0x69u8, 0x62u8]);
        }
        if bytes_eq(low.as_slice(), pat.as_slice()) {
            return FileType::Binary;
        }
        let pat: Vec<u8> = vec![0x62u8, 0x69u8, 0x6eu8];
        proof {
            assert(pat@ =~= seq![0x62u8, 0x69u8, 0x6eu8]);
        }
        if bytes_eq(low.as_slice(), pat.as_slice()) {
            return FileType::Binary;
        }
        let pat: Vec<u8> = vec![0x64u8, 0x61u8, 0x74u8];
        proof {
            assert(pat@ =~= seq![0x64u8, 0x61u8, 0x74u8]);
        }
        if bytes_eq(low.as_slice(), pat.as_slice()) {
            return FileType::Binary;
        }
        FileType::Unknown
    }
}

/// Whether a byte is printable ASCII or ASCII whitespace.
pub open spec fn spec_printable(b: u8) -> bool {
    (0x21 <= b && b <= 0x7e) || b == 0x20 || b == 0x09 || b == 0x0a || b == 0x0c || b == 0x0d
}

/// The number of printable bytes.
pub open spec fn spec_printable_count(s: Seq<u8>) -> nat
    decreases s.len(),
{
    if s.len() == 0 {
        0
    } else {
        spec_printable_count(s.drop_last()) + if spec_printable(s.last()) {
            1nat
        } else {
            0nat
        }
    }
}

/// The printable-text heuristic: more than nine in ten of the first 512
/// bytes are printable.
pub open spec fn spec_text_like(data: Seq<u8>) -> bool {
    let n: nat = if data.len() <= 512 {
        data.len()
    } else {
        512
    };
    spec_printable_count(data.take(n as int)) * 10 > n * 9
}

/// The type read from a blob's magic bytes, with the text heuristic as a
/// fallback.
pub open spec fn spec_content_class(data: Seq<u8>) -> FileType {
    if data.len() < 4 {
        FileType::Unknown
    } else if data[0] == 0x50 && data[1] == 0x4b && data[2] == 0x03 && data[3] == 0x04 {
        FileType::Compressed
    } else if data[0] == 0x1f && data[1] == 0x8b {
        FileType::Compressed
    } else if data[0] == 0x89 && data[1] == 0x50 && data[2] == 0x4e && data[3] == 0x47 {
        FileType::Image
    } else if data[0] == 0xff && data[1] == 0xd8 && data[2] == 0xff {
        FileType::Image
    } else if data[0] == 0x47 && data[1] == 0x49 && data[2] == 0x46 && data[3] == 0x38 {
        FileType::Image
    } else if data.len() >= 12 && data[4] == 0x66 && data[5] == 0x74 && data[6] == 0x79 && data[7]
        == 0x70 {
        FileType::Video
    } else if data[0] == 0x52 && data[1] == 0x49 && data[2] == 0x46 && data[3] == 0x46
        && data.len() >= 12 && data[8] == 0x41 && data[9] == 0x56 && data[10] == 0x49 && data[11]
        == 0x20 {
        FileType::Video
    } else if data[0] == 0xff && data[1] >= 0xf0 && (data[1] & 0xe0) == 0xe0 {
        FileType::Audio
    } else if data[0] == 0x66 && data[1] == 0x4c && data[2] == 0x61 && data[3] == 0x43 {
        FileType::Audio
    } else if data[0] == 0x52 && data[1] == 0x49 && data[2] == 0x46 && data[3] == 0x46
        && data.len() >= 12 && data[8] == 0x57 && data[9] == 0x41 && data[10] == 0x56 && data[11]
        == 0x45 {
        FileType::Audio
    } else if data[0] == 0x7f && data[1] == 0x45 && data[2] == 0x4c && data[3] == 0x46 {
        FileType::Binary
    } else if data[0] == 0x4d && data[1] == 0x5a {
        FileType::Binary
    } else if spec_text_like(data) {
        FileType::Text
    } else {
        FileType::Unknown
    }
}

/// The extension of a path: the bytes after the last dot of the file
/// name, provided the dot is neither its first nor its last byte.
pub open spec fn spec_path_extension(p: Seq<u8>) -> Option<Seq<u8>> {
    let name_start: int = last_byte_at(p, 0x2f) + 1;
    let dot: int = last_byte_from(p, 0x2e, name_start);
    if dot > name_start && dot < p.len() - 1 {
        Some(p.skip(dot + 1))
    } else {
        None
    }
}

/// The position of the last occurrence of `b`, or -1.
pub open spec fn last_byte_at(p: Seq<u8>, b: u8) -> int
    decreases p.len(),
{
    if p.len() == 0 {
        -1
    } else if p.last() == b {
        p.len() - 1
    } else {
        last_byte_at(p.drop_last(), b)
    }
}

/// The position of the last occurrence of `b` at or after `from`, or -1.
pub open spec fn last_byte_from(p: Seq<u8>, b: u8, from: int) -> int
    decreases p.len(),
{
    if p.len() <= from || p.len() == 0 {
        -1
    } else if p.last() == b {
        p.len() - 1
    } else {
        last_byte_from(p.drop_last(), b, from)
    }
}

impl FileDetector {
    /// Whether a blob looks like text.
    pub fn is_likely_text(data: &[u8]) -> (r: bool)
        ensures
            r == spec_text_like(data@),
    {
        let n: usize = if data.len() <= 512 {
            data.len()
        } else {
            512
        };
        let mut count: usize = 0;
        let mut i: usize = 0;
        while i < n
            invariant
                i <= n,
                n <= data@.len(),
                count == spec_printable_count(data@.take(n as int).take(i as int)),
                count <= i,
            decreases n - i,
        {
            let b = data[i];
            if (0x21 <= b && b <= 0x7e) || b == 0x20 || b == 0x09 || b == 0x0a || b == 0x0c || b
                == 0x0d {
                count = count + 1;
            }
            i = i + 1;
            proof {
                let pref = data@.take(n as int).take(i as int);
                assert(pref.drop_last() =~= data@.take(n as int).take(i - 1));
                assert(pref.last() == data@[i - 1]);
            }
        }
        proof {
            assert(data@.take(n as int).take(n as int) =~= data@.take(n as int));
        }
        count * 10 > n * 9
    }

    /// Classify a blob from its magic bytes.
    pub fn detect_from_content(data: &[u8]) -> (r: FileType)
        ensures
            r == spec_content_class(data@),
    {
        if data.len() < 4 {
            return FileType::Unknown;
        }
        if data[0] == 0x50 && data[1] == 0x4b && data[2] == 0x03 && data[3] == 0x04 {
            return FileType::Compressed;
        }
        if data[0] == 0x1f && data[1] == 0x8b {
            return FileType::Compressed;
        }
        if data[0] == 0x89 && data[1] == 0x50 && data[2] == 0x4e && data[3] == 0x47 {
            return FileType::Image;
        }
        if data[0] == 0xff && data[1] == 0xd8 && data[2] == 0xff {
            return FileType::Image;
        }
        if data[0] == 0x47 && data[1] == 0x49 && data[2] == 0x46 && data[3] == 0x38 {
            return FileType::Image;
        }
        if data.len() >= 12 && data[4] == 0x66 && data[5] == 0x74 && data[6] == 0x79 && data[7]
            == 0x70 {
            return FileType::Video;
        }
        if data[0] == 0x52 && data[1] == 0x49 && data[2] == 0x46 && data[3] == 0x46 && data.len()
            >= 12 && data[8] == 0x41 && data[9] == 0x56 && data[10] == 0x49 && data[11] == 0x20 {
            return FileType::Video;
        }
        if data[0] == 0xff && data[1] >= 0xf0 && (data[1] & 0xe0) == 0xe0 {
            return FileType::Audio;
        }
        if data[0] == 0x66 && data[1] == 0x4c && data[2] == 0x61 && data[3] == 0x43 {
            return FileType::Audio;
        }
        if data[0] == 0x52 && data[1] == 0x49 && data[2] == 0x46 && data[3] == 0x46 && data.len()
            >= 12 && data[8] == 0x57 && data[9] == 0x41 && data[10] == 0x56 && data[11] == 0x45 {
            return FileType::Audio;
        }
        if data[0] == 0x7f && data[1] == 0x45 && data[2] == 0x4c && data[3] == 0x46 {
            return FileType::Binary;
        }
        if data[0] == 0x4d && data[1] == 0x5a {
            return FileType::Binary;
        }
        if FileDetector::is_likely_text(data) {
            return FileType::Text;
        }
        FileType::Unknown
    }

    /// Classify a path by its file-name extension.
    pub fn detect_from_path(path: &str) -> (r: FileType)
        ensures
            r == match spec_path_extension(path.spec_bytes()) {
                Some(e) => spec_ext_class(e),
                None => FileType::Unknown,
            },
    {
        let bytes = path.as_bytes();
        let mut name_start: usize = 0;
        let mut dot: Option<usize> = None;
        let mut i: usize = 0;
        while i < bytes.len()
            invariant
                i <= bytes@.len(),
                name_start as int == last_byte_at(bytes@.take(i as int), 0x2f) + 1,
                name_start <= i,
            decreases bytes@.len() - i,
        {
            if bytes[i] == 0x2f {
                name_start = i + 1;
            }
            i = i + 1;
            proof {
                assert(bytes@.take(i as int).drop_last() =~= bytes@.take(i - 1));
                assert(bytes@.take(i as int).last() == bytes@[i - 1]);
            }
        }
        proof {
            assert(bytes@.take(bytes@.len() as int) =~= bytes@);
        }
        let mut j: usize = 0;
        while j < bytes.len()
            invariant
                j <= bytes@.len(),
                name_start as int == last_byte_at(bytes@, 0x2f) + 1,
                match dot {
                    Some(d) => last_byte_from(bytes@.take(j as int), 0x2e, name_start as int)
                        == d && d < j,
                    None => last_byte_from(bytes@.take(j as int), 0x2e, name_start as int) == -1,
                },
            decreases bytes@.len() - j,
        {
            if bytes[j] == 0x2e && j >= name_start {
                dot = Some(j);
            }
            j = j + 1;
            proof {
                assert(bytes@.take(j as int).drop_last() =~= bytes@.take(j - 1));
                assert(bytes@.take(j as int).last() == bytes@[j - 1]);
            }
        }
        proof {
            assert(bytes@.take(bytes@.len() as int) =~= bytes@);
        }
        match dot {
            Some(d) => {
                if d > name_start && d < bytes.len() - 1 {
                    let ext_slice: &[u8] = &bytes[d + 1..bytes.len()];
                    proof {
                        assert(ext_slice@ =~= bytes@.skip(d + 1));
                    }
                    classify_ext_bytes(ext_slice)
                } else {
                    FileType::Unknown
                }
            },
            None => FileType::Unknown,
        }
    }

    /// Classify a path and a blob together: a typed extension wins unless
    /// the content detection disagrees with a type of its own.
    pub fn detect(path: &str, data: &[u8]) -> (r: FileType)
        ensures
            ({
                let from_path = match spec_path_extension(path.spec_bytes()) {
                    Some(e) => spec_ext_class(e),
                    None => FileType::Unknown,
                };
                let from_content = spec_content_class(data@);
                if from_path != FileType::Unknown {
                    if from_content != FileType::Unknown && from_content != from_path {
                        r == from_content
                    } else {
                        r == from_path
                    }
                } else {
                    r == from_content
                }
            }),
    {
        let from_path = FileDetector::detect_from_path(path);
        if !matches!(from_path, FileType::Unknown) {
            let from_content = FileDetector::detect_from_content(data);
            if !matches!(from_content, FileType::Unknown) {
                let same: bool = match (from_content, from_path) {
                    (FileType::Compressed, FileType::Compressed) => true,
                    (FileType::Image, FileType::Image) => true,
                    (FileType::Video, FileType::Video) => true,
                    (FileType::Audio, FileType::Audio) => true,
                    (FileType::Text, FileType::Text) => true,
                    (FileType::Binary, FileType::Binary) => true,
                    _ => false,
                };
                if !same {
                    return from_content;
                }
            }
            return from_path;
        }
        FileDetector::detect_from_content(data)
    }
}

} // verus!
