//! Response handling: response formats, image-format detection from
//! magic bytes, storage paths and URL minting. The file writes
//! themselves happen outside the library.

use vstd::prelude::*;
use vstd::string::*;

use crate::text::{lower_seq, rfind_char, str_eq, to_ascii_lowercase};
use crate::types::GeneratedImage;

verus! {

/// Response format options.
#[derive(Debug, Clone, Copy, PartialEq, Eq, Structural)]
pub enum ResponseFormat {
    /// Base64 encoded JSON.
    Base64Json,
    /// URL to the generated image.
    Url,
    /// Direct file path (internal use).
    File,
}

/// The format a caller's string names, after case folding; unknown
/// strings default to `Url`.
pub open spec fn parse_format(s: Seq<char>) -> ResponseFormat {
    let l = lower_seq(s);
    if l == "b64_json"@ || l == "base64"@ {
        ResponseFormat::Base64Json
    } else if l == "url"@ {
        ResponseFormat::Url
    } else if l == "file"@ {
        ResponseFormat::File
    } else {
        ResponseFormat::Url
    }
}

impl ResponseFormat {
    /// Parse a response format name, case-insensitively; unknown
    /// names default to `Url`.
    pub fn from_str(s: &str) -> (r: Self)
        ensures
            r == parse_format(s@),
    {
        let l = to_ascii_lowercase(s);
        if str_eq(l.as_str(), "b64_json") || str_eq(l.as_str(), "base64") {
            ResponseFormat::Base64Json
        } else if str_eq(l.as_str(), "url") {
            ResponseFormat::Url
        } else if str_eq(l.as_str(), "file") {
            ResponseFormat::File
        } else {
            ResponseFormat::Url
        }
    }
}

/// Image format read off a payload's magic bytes.
pub open spec fn spec_detect_format(d: Seq<u8>) -> Option<Seq<char>> {
    if d.len() < 8 {
        None
    } else if d[0] == 0x89 && d[1] == 0x50 && d[2] == 0x4E && d[3] == 0x47 && d[4] == 0x0D && d[5]
        == 0x0A && d[6] == 0x1A && d[7] == 0x0A {
        Some("png"@)
    } else if d[0] == 0xFF && d[1] == 0xD8 && d[2] == 0xFF {
        Some("jpg"@)
    } else if d[0] == 0x47 && d[1] == 0x49 && d[2] == 0x46 && d[3] == 0x38 && (d[4] == 0x37 || d[4]
        == 0x39) && d[5] == 0x61 {
        Some("gif"@)
    } else if d.len() >= 12 && d[0] == 0x52 && d[1] == 0x49 && d[2] == 0x46 && d[3] == 0x46 && d[8]
        == 0x57 && d[9] == 0x45 && d[10] == 0x42 && d[11] == 0x50 {
        Some("webp"@)
    } else if d[0] == 0x42 && d[1] == 0x4D {
        Some("bmp"@)
    } else {
        None
    }
}

/// Detect the image format of binary data from its magic bytes.
pub fn detect_image_format(data: &[u8]) -> (r: Option<&'static str>)
    ensures
        match r {
            Some(f) => spec_detect_format(data@) == Some(f@),
            None => spec_detect_format(data@) is None,
        },
{
    let n: usize = data.len();
    if n < 8 {
        return None;
    }
    let b0 = *vstd::slice::slice_index_get(data, 0);
    let b1 = *vstd::slice::slice_index_get(data, 1);
    let b2 = *vstd::slice::slice_index_get(data, 2);
    let b3 = *vstd::slice::slice_index_get(data, 3);
    let b4 = *vstd::slice::slice_index_get(data, 4);
    let b5 = *vstd::slice::slice_index_get(data, 5);
    let b6 = *vstd::slice::slice_index_get(data, 6);
    let b7 = *vstd::slice::slice_index_get(data, 7);
    if b0 == 0x89 && b1 == 0x50 && b2 == 0x4E && b3 == 0x47 && b4 == 0x0D && b5 == 0x0A && b6
        == 0x1A && b7 == 0x0A {
        return Some("png");
    }
    if b0 == 0xFF && b1 == 0xD8 && b2 == 0xFF {
        return Some("jpg");
    }
    if b0 == 0x47 && b1 == 0x49 && b2 == 0x46 && b3 == 0x38 && (b4 == 0x37 || b4 == 0x39) && b5
        == 0x61 {
        return Some("gif");
    }
    if n >= 12 && b0 == 0x52 && b1 == 0x49 && b2 == 0x46 && b3 == 0x46 {
        let b8 = *vstd::slice::slice_index_get(data, 8);
        let b9 = *vstd::slice::slice_index_get(data, 9);
        let b10 = *vstd::slice::slice_index_get(data, 10);
        let b11 = *vstd::slice::slice_index_get(data, 11);
        if b8 == 0x57 && b9 == 0x45 && b10 == 0x42 && b11 == 0x50 {
            return Some("webp");
        }
        if b0 == 0x42 && b1 == 0x4D {
            return Some("bmp");
        }
        return None;
    }
    if b0 == 0x42 && b1 == 0x4D {
        return Some("bmp");
    }
    None
}

/// A storage path joined with a file name: a single separator stands
/// between them.
pub open spec fn spec_joined_path(base: Seq<char>, name: Seq<char>) -> Seq<char> {
    if base.len() > 0 && base.last() == '/' {
        base + name
    } else {
        base + "/"@ + name
    }
}

/// Handler for file storage locations. Reads and writes happen
/// outside the library against the paths minted here.
#[derive(Debug)]
pub struct FileHandler {
    storage_path: String,
}

impl FileHandler {
    /// The storage directory.
    pub closed spec fn spec_storage_path(&self) -> Seq<char> {
        self.storage_path@
    }

    /// A handler rooted at a storage directory.
    pub fn new(storage_path: String) -> (r: Self)
        ensures
            r.spec_storage_path() == storage_path@,
    {
        FileHandler { storage_path }
    }

    /// The full path of a file name under the storage directory.
    pub fn get_path(&self, filename: &str) -> (r: String)
        ensures
            r@ == spec_joined_path(self.spec_storage_path(), filename@),
    {
        let blen: usize = self.storage_path.as_str().unicode_len();
        let mut out = String::from_str(self.storage_path.as_str());
        if blen == 0 || self.storage_path.as_str().get_char(blen - 1) != '/' {
            out.append("/");
        }
        out.append(filename);
        out
    }
}

/// The file name at the end of a path: everything after the last
/// separator, or the whole path when it has none.
pub open spec fn spec_basename(path: Seq<char>) -> Seq<char> {
    crate::text::after_last(path, '/')
}

/// Response handler: decides how a generated image is returned and
/// mints the URLs of stored files.
#[derive(Debug)]
pub struct ResponseHandler {
    file_handler: FileHandler,
    url_prefix: String,
}

impl ResponseHandler {
    /// The storage directory in use.
    pub closed spec fn spec_storage_path(&self) -> Seq<char> {
        self.file_handler.spec_storage_path()
    }

    /// The URL prefix served files appear under.
    pub closed spec fn spec_url_prefix(&self) -> Seq<char> {
        self.url_prefix@
    }

    /// A handler writing under a storage path and serving under a URL
    /// prefix.
    pub fn new(storage_path: String, url_prefix: String) -> (r: Self)
        ensures
            r.spec_storage_path() == storage_path@,
            r.spec_url_prefix() == url_prefix@,
    {
        ResponseHandler { file_handler: FileHandler::new(storage_path), url_prefix }
    }

    /// The URL of a stored file: the prefix, a separator, and the
    /// file's base name.
    pub fn generate_url(&self, file_path: &str) -> (r: String)
        ensures
            r@ == spec_joined_path(self.spec_url_prefix(), spec_basename(file_path@)),
    {
        let len: usize = file_path.unicode_len();
        let base: &str = match rfind_char(file_path, '/') {
            Some(i) => {
                let sub = file_path.substring_char(i + 1, len);
                proof {
                    crate::text::lemma_after_last_at(file_path@, '/', i as int);
                    assert(sub@ =~= spec_basename(file_path@));
                }
                sub
            },
            None => {
                proof {
                    crate::text::lemma_after_last_none(file_path@, '/');
                }
                file_path
            },
        };
        let plen: usize = self.url_prefix.as_str().unicode_len();
        let mut out = String::from_str(self.url_prefix.as_str());
        if plen == 0 || self.url_prefix.as_str().get_char(plen - 1) != '/' {
            out.append("/");
        }
        out.append(base);
        out
    }

    /// Whether this image must be written to storage before it can be
    /// returned in the requested format.
    pub fn needs_save(&self, image: &GeneratedImage, format: ResponseFormat) -> (r: bool)
        ensures
            r == (!(format is Base64Json) && image.b64_json is Some),
    {
        match format {
            ResponseFormat::Base64Json => false,
            _ => image.b64_json.is_some(),
        }
    }

    /// Finish processing a saved image: the payload moves out and the
    /// stored location takes its place.
    pub fn finish_saved(&self, image: GeneratedImage, location: String) -> (r: GeneratedImage)
        ensures
            r.b64_json is None,
            r.url == Some(location),
            r.revised_prompt == image.revised_prompt,
            r.seed == image.seed,
    {
        GeneratedImage {
            b64_json: None,
            url: Some(location),
            revised_prompt: image.revised_prompt,
            seed: image.seed,
        }
    }
}

} // verus!
