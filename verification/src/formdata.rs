//! Form-data values and file-type detection.
//!
//! A form field holds text, one file, or several files; the builder
//! collects fields in order.  The MIME type of a file is guessed from
//! the lower-cased extension of its name.

use vstd::prelude::*;
use crate::cookie::rfind_before_exec;
use crate::strutil::{push_char, str_eq};

verus! {

/// Represents a file to be uploaded.
#[derive(Debug, Clone)]
pub struct FileData {
    /// The file name.
    pub name: String,
    /// The file content as bytes.
    pub data: Vec<u8>,
    /// The MIME type of the file.
    pub mime_type: Option<String>,
}

impl FileData {
    /// A file from its parts.
    pub fn new(name: &str, data: Vec<u8>, mime_type: Option<&str>) -> (r: Self)
        ensures
            r.name@ == name@,
            r.data == data,
            match (r.mime_type, mime_type) {
                (Option::Some(a), Option::Some(b)) => a@ == b@,
                (Option::None, Option::None) => true,
                _ => false,
            },
    {
        FileData {
            name: name.to_owned(),
            data,
            mime_type: match mime_type {
                Option::Some(s) => Option::Some(s.to_owned()),
                Option::None => Option::None,
            },
        }
    }
}

/// A form field value: text, one file, or several files.
#[derive(Debug, Clone)]
pub enum FormValue {
    /// A simple text value.
    Text(String),
    /// A file to upload.
    File(FileData),
    /// Multiple files to upload.
    Files(Vec<FileData>),
}

/// Whether a form value carries a file.
pub open spec fn is_file_value(v: FormValue) -> bool {
    v is File || v is Files
}

/// A builder for multipart form data.
#[derive(Debug, Default)]
pub struct FormDataBuilder {
    fields: Vec<(String, FormValue)>,
}

impl FormDataBuilder {
    /// The fields collected so far.
    pub closed spec fn model(&self) -> Seq<(Seq<char>, FormValue)> {
        self.fields@.map_values(|p: (String, FormValue)| (p.0@, p.1))
    }

    /// An empty form.
    pub fn new() -> (r: Self)
        ensures
            r.model() =~= Seq::<(Seq<char>, FormValue)>::empty(),
    {
        FormDataBuilder { fields: Vec::new() }
    }

    /// Adds a text field.
    pub fn text(self, name: &str, value: &str) -> (r: Self)
        ensures
            r.model().len() == self.model().len() + 1,
            r.model().subrange(0, self.model().len() as int) == self.model(),
            r.model().last().0 == name@,
            r.model().last().1 matches FormValue::Text(t) && t@ == value@,
    {
        let ghost m0 = self.model();
        let mut fields = self.fields;
        fields.push((name.to_owned(), FormValue::Text(value.to_owned())));
        let r = FormDataBuilder { fields };
        proof {
            assert(r.model().subrange(0, m0.len() as int) =~= m0);
        }
        r
    }

    /// Adds a file field.
    pub fn file(self, name: &str, file: FileData) -> (r: Self)
        ensures
            r.model() == self.model().push((name@, FormValue::File(file))),
    {
        let ghost m0 = self.model();
        let ghost fv = FormValue::File(file);
        let mut fields = self.fields;
        fields.push((name.to_owned(), FormValue::File(file)));
        let r = FormDataBuilder { fields };
        proof {
            assert(r.model() =~= m0.push((name@, fv)));
        }
        r
    }

    /// Adds multiple files under one field.
    pub fn files(self, name: &str, files: Vec<FileData>) -> (r: Self)
        ensures
            r.model() == self.model().push((name@, FormValue::Files(files))),
    {
        let ghost m0 = self.model();
        let ghost fv = FormValue::Files(files);
        let mut fields = self.fields;
        fields.push((name.to_owned(), FormValue::Files(files)));
        let r = FormDataBuilder { fields };
        proof {
            assert(r.model() =~= m0.push((name@, fv)));
        }
        r
    }

    /// The collected fields, for building a multipart request.
    pub fn build(self) -> (r: Vec<(String, FormValue)>)
        ensures
            r@.map_values(|p: (String, FormValue)| (p.0@, p.1)) == self.model(),
    {
        self.fields
    }

    /// Whether any field carries a file.
    pub fn has_files(&self) -> (r: bool)
        ensures
            r == exists|i: int| 0 <= i < self.model().len() && is_file_value(self.model()[i].1),
    {
        let mut i: usize = 0;
        let n = self.fields.len();
        #[verifier::loop_isolation(false)]
        while i < n
            invariant
                i <= n,
                n == self.fields@.len(),
                forall|j: int| 0 <= j < i ==> !is_file_value(self.model()[j].1),
            decreases n - i,
        {
            let is_file = match &self.fields[i].1 {
                FormValue::File(_) => true,
                FormValue::Files(_) => true,
                FormValue::Text(_) => false,
            };
            if is_file {
                proof {
                    assert(is_file_value(self.model()[i as int].1));
                }
                return true;
            }
            i += 1;
        }
        false
    }
}

/// ASCII lower-casing of one character.
pub open spec fn ascii_lower(c: char) -> char {
    if 'A' <= c && c <= 'Z' {
        ((c as u32 + 32) as u8) as char
    } else {
        c
    }
}

/// ASCII lower-casing of a character sequence.
pub open spec fn ascii_lower_seq(s: Seq<char>) -> Seq<char> {
    s.map_values(|c: char| ascii_lower(c))
}

/// The extension of a file name: what follows the last dot of the last
/// path component, unless that component starts with its only dot.
pub open spec fn ext_of(filename: Seq<char>) -> Option<Seq<char>> {
    let start = crate::cookie::rfind_before(filename, '/', filename.len() as int) + 1;
    let name = filename.subrange(start, filename.len() as int);
    let dot = crate::cookie::rfind_before(name, '.', name.len() as int);
    if dot <= 0 {
        Option::None
    } else {
        Option::Some(name.subrange(dot + 1, name.len() as int))
    }
}

/// The MIME type for a lower-cased extension.
pub open spec fn mime_for_ext(e: Seq<char>) -> Seq<char> {
    if e == "jpg"@ || e == "jpeg"@ {
        "image/jpeg"@
    } else if e == "png"@ {
        "image/png"@
    } else if e == "gif"@ {
        "image/gif"@
    } else if e == "webp"@ {
        "image/webp"@
    } else if e == "svg"@ {
        "image/svg+xml"@
    } else if e == "ico"@ {
        "image/x-icon"@
    } else if e == "bmp"@ {
        "image/bmp"@
    } else if e == "tiff"@ || e == "tif"@ {
        "image/tiff"@
    } else if e == "avif"@ {
        "image/avif"@
    } else if e == "pdf"@ {
        "application/pdf"@
    } else if e == "doc"@ {
        "application/msword"@
    } else if e == "docx"@ {
        "application/vnd.openxmlformats-officedocument.wordprocessingml.document"@
    } else if e == "xls"@ {
        "application/vnd.ms-excel"@
    } else if e == "xlsx"@ {
        "application/vnd.openxmlformats-officedocument.spreadsheetml.sheet"@
    } else if e == "ppt"@ {
        "application/vnd.ms-powerpoint"@
    } else if e == "pptx"@ {
        "application/vnd.openxmlformats-officedocument.presentationml.presentation"@
    } else if e == "txt"@ {
        "text/plain"@
    } else if e == "html"@ || e == "htm"@ {
        "text/html"@
    } else if e == "css"@ {
        "text/css"@
    } else if e == "js"@ {
        "text/javascript"@
    } else if e == "json"@ {
        "application/json"@
    } else if e == "xml"@ {
        "application/xml"@
    } else if e == "csv"@ {
        "text/csv"@
    } else if e == "md"@ {
        "text/markdown"@
    } else if e == "zip"@ {
        "application/zip"@
    } else if e == "tar"@ {
        "application/x-tar"@
    } else if e == "gz"@ || e == "gzip"@ {
        "application/gzip"@
    } else if e == "rar"@ {
        "application/vnd.rar"@
    } else if e == "7z"@ {
        "application/x-7z-compressed"@
    } else if e == "mp3"@ {
        "audio/mpeg"@
    } else if e == "wav"@ {
        "audio/wav"@
    } else if e == "ogg"@ {
        "audio/ogg"@
    } else if e == "m4a"@ {
        "audio/mp4"@
    } else if e == "flac"@ {
        "audio/flac"@
    } else if e == "mp4"@ {
        "video/mp4"@
    } else if e == "webm"@ {
        "video/webm"@
    } else if e == "avi"@ {
        "video/x-msvideo"@
    } else if e == "mov"@ {
        "video/quicktime"@
    } else if e == "mkv"@ {
        "video/x-matroska"@
    } else {
        "application/octet-stream"@
    }
}

/// The guessed MIME type for a file name.
pub open spec fn spec_guess_mime(filename: Seq<char>) -> Seq<char> {
    match ext_of(filename) {
        Option::None => "application/octet-stream"@,
        Option::Some(e) => mime_for_ext(ascii_lower_seq(e)),
    }
}

/// The ASCII lower-casing of a string.
#[verifier::loop_isolation(false)]
fn ascii_lower_exec(s: &str) -> (r: String)
    ensures
        r@ == ascii_lower_seq(s@),
{
    let n = s.unicode_len();
    let mut out = String::new();
    let mut i: usize = 0;
    proof {
        assert(out@ =~= ascii_lower_seq(s@.subrange(0, 0)));
    }
    while i < n
        invariant
            i <= n,
            n == s@.len(),
            out@ == ascii_lower_seq(s@.subrange(0, i as int)),
        decreases n - i,
    {
        let c = s.get_char(i);
        if 'A' <= c && c <= 'Z' {
            push_char(&mut out, ((c as u32 + 32) as u8) as char);
        } else {
            push_char(&mut out, c);
        }
        proof {
            assert(out@ =~= ascii_lower_seq(s@.subrange(0, i + 1)));
        }
        i += 1;
    }
    proof {
        assert(s@.subrange(0, n as int) =~= s@);
    }
    out
}

/// Guesses the MIME type from the file name's extension; a name without
/// one, or with an unknown one, falls back to the generic byte-stream
/// type.
pub fn guess_mime_type(filename: &str) -> (r: Option<String>)
    ensures
        r matches Option::Some(s) && s@ == spec_guess_mime(filename@),
{
    let n = filename.unicode_len();
    proof {
        crate::cookie::lemma_rfind_before(filename@, '/', n as int);
    }
    let start = match rfind_before_exec(filename, '/', n) {
        Option::Some(k) => k + 1,
        Option::None => 0,
    };
    let name = crate::cookie::str_range(filename, start, n);
    let name_len = name.as_str().unicode_len();
    proof {
        crate::cookie::lemma_rfind_before(name@, '.', name_len as int);
    }
    let ext = match rfind_before_exec(name.as_str(), '.', name_len) {
        Option::Some(dot) if dot > 0 => crate::cookie::str_range(name.as_str(), dot + 1, name_len),
        _ => {
            return Option::Some("application/octet-stream".to_owned());
        },
    };
    let e = ascii_lower_exec(ext.as_str());
    let el = e.as_str();
    let m: &str = if str_eq(el, "jpg") || str_eq(el, "jpeg") {
        "image/jpeg"
    } else if str_eq(el, "png") {
        "image/png"
    } else if str_eq(el, "gif") {
        "image/gif"
    } else if str_eq(el, "webp") {
        "image/webp"
    } else if str_eq(el, "svg") {
        "image/svg+xml"
    } else if str_eq(el, "ico") {
        "image/x-icon"
    } else if str_eq(el, "bmp") {
        "image/bmp"
    } else if str_eq(el, "tiff") || str_eq(el, "tif") {
        "image/tiff"
    } else if str_eq(el, "avif") {
        "image/avif"
    } else if str_eq(el, "pdf") {
        "application/pdf"
    } else if str_eq(el, "doc") {
        "application/msword"
    } else if str_eq(el, "docx") {
        "application/vnd.openxmlformats-officedocument.wordprocessingml.document"
    } else if str_eq(el, "xls") {
        "application/vnd.ms-excel"
    } else if str_eq(el, "xlsx") {
        "application/vnd.openxmlformats-officedocument.spreadsheetml.sheet"
    } else if str_eq(el, "ppt") {
        "application/vnd.ms-powerpoint"
    } else if str_eq(el, "pptx") {
        "application/vnd.openxmlformats-officedocument.presentationml.presentation"
    } else if str_eq(el, "txt") {
        "text/plain"
    } else if str_eq(el, "html") || str_eq(el, "htm") {
        "text/html"
    } else if str_eq(el, "css") {
        "text/css"
    } else if str_eq(el, "js") {
        "text/javascript"
    } else if str_eq(el, "json") {
        "application/json"
    } else if str_eq(el, "xml") {
        "application/xml"
    } else if str_eq(el, "csv") {
        "text/csv"
    } else if str_eq(el, "md") {
        "text/markdown"
    } else if str_eq(el, "zip") {
        "application/zip"
    } else if str_eq(el, "tar") {
        "application/x-tar"
    } else if str_eq(el, "gz") || str_eq(el, "gzip") {
        "application/gzip"
    } else if str_eq(el, "rar") {
        "application/vnd.rar"
    } else if str_eq(el, "7z") {
        "application/x-7z-compressed"
    } else if str_eq(el, "mp3") {
        "audio/mpeg"
    } else if str_eq(el, "wav") {
        "audio/wav"
    } else if str_eq(el, "ogg") {
        "audio/ogg"
    } else if str_eq(el, "m4a") {
        "audio/mp4"
    } else if str_eq(el, "flac") {
        "audio/flac"
    } else if str_eq(el, "mp4") {
        "video/mp4"
    } else if str_eq(el, "webm") {
        "video/webm"
    } else if str_eq(el, "avi") {
        "video/x-msvideo"
    } else if str_eq(el, "mov") {
        "video/quicktime"
    } else if str_eq(el, "mkv") {
        "video/x-matroska"
    } else {
        "application/octet-stream"
    };
    Option::Some(m.to_owned())
}

} // verus!
