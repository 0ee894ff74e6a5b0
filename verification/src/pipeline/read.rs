//! Reading the files the walk found.
use vstd::prelude::*;
use vstd::utf8::valid_utf8;
use crate::model::{canon_spec, CanonicalPath};
use crate::diagnostic::{Warning, WarningCode};
use crate::pipeline::walk::{decimal, decimal_spec, relative_to, FileEntry};
use crate::syntax::utf8_decode;
use crate::text::{chars_of, string_of};

verus! {

/// A file read for parsing.
#[derive(Clone, Debug)]
pub struct FileContent {
    /// The path relative to the project root.
    pub path: CanonicalPath,
    pub bytes: Vec<u8>,
    /// The number of line feeds.
    pub lines: u32,
}

/// Why a file was passed over.
#[derive(Debug)]
pub enum FileSkipReason {
    ReadError { path: String, reason: String },
    TooLarge { path: String, size: u64 },
    BinaryFile { path: String },
    EncodingError { path: String },
}

/// Reading one file.
pub trait FileReader {
    /// The content of the file `entry` names, or why it is passed over.
    fn read(&self, entry: &FileEntry, project_root: &str, max_file_size: u64) -> Result<FileContent, FileSkipReason>;
}

/// The number of bytes the binary check looks at.
pub const BINARY_CHECK_LEN: usize = 8192;

/// A NUL byte among the first [`BINARY_CHECK_LEN`] bytes.
pub open spec fn looks_binary(b: Seq<u8>) -> bool {
    exists|i: int| 0 <= i < b.len() && i < BINARY_CHECK_LEN && b[i] == 0
}

/// The number of line feeds.
pub open spec fn newline_count(b: Seq<u8>) -> nat
    decreases b.len(),
{
    if b.len() == 0 {
        0
    } else {
        newline_count(b.drop_last()) + if b.last() == 10 {
            1nat
        } else {
            0nat
        }
    }
}

/// A file larger than the limit is passed over.
pub fn check_size(entry: &FileEntry, size: u64, max_file_size: u64) -> (r: Option<FileSkipReason>)
    ensures
        size > max_file_size ==> (r matches Some(FileSkipReason::TooLarge { path, size: s }) && path@ == entry.path@ && s == size),
        size <= max_file_size ==> r is None,
{
    if size > max_file_size {
        Some(FileSkipReason::TooLarge { path: string_of(&chars_of(entry.path.as_str())), size })
    } else {
        None
    }
}

/// The content read for `entry` from its bytes: passed over when a NUL
/// byte shows it is binary, or when it is not UTF-8; otherwise its path
/// relative to `project_root`, its bytes and its line count (as a `u32`).
pub fn content_of(entry: &FileEntry, project_root: &str, bytes: Vec<u8>) -> (r: Result<FileContent, FileSkipReason>)
    ensures
        looks_binary(bytes@) ==> (r matches Err(FileSkipReason::BinaryFile { path }) && path@ == entry.path@),
        !looks_binary(bytes@) && !valid_utf8(bytes@) ==> (r matches Err(FileSkipReason::EncodingError { path })
            && path@ == entry.path@),
        !looks_binary(bytes@) && valid_utf8(bytes@) ==> (r matches Ok(c) && c.path@ == canon_spec(
            relative_to(entry.path@, project_root@),
        ) && c.bytes@ == bytes@ && c.lines == newline_count(bytes@) as u32),
{
    let check = if bytes.len() < BINARY_CHECK_LEN {
        bytes.len()
    } else {
        BINARY_CHECK_LEN
    };
    let mut i: usize = 0;
    while i < check
        invariant
            i <= check <= bytes@.len(),
            check <= BINARY_CHECK_LEN,
            check == bytes@.len() || check == BINARY_CHECK_LEN,
            forall|m: int| 0 <= m < i ==> bytes@[m] != 0,
        decreases check - i,
    {
        if bytes[i] == 0 {
            return Err(FileSkipReason::BinaryFile { path: string_of(&chars_of(entry.path.as_str())) });
        }
        i += 1;
    }
    assert(!looks_binary(bytes@));
    if utf8_decode(bytes.as_slice()).is_none() {
        return Err(FileSkipReason::EncodingError { path: string_of(&chars_of(entry.path.as_str())) });
    }
    let mut n: usize = 0;
    let mut j: usize = 0;
    while j < bytes.len()
        invariant
            j <= bytes@.len(),
            n == newline_count(bytes@.take(j as int)),
            n <= j,
        decreases bytes.len() - j,
    {
        assert(bytes@.take(j + 1).drop_last() =~= bytes@.take(j as int));
        if bytes[j] == 10 {
            n += 1;
        }
        j += 1;
    }
    assert(bytes@.take(bytes@.len() as int) =~= bytes@);
    let rel = crate::pipeline::walk::relative_to_exec(&chars_of(entry.path.as_str()), &chars_of(project_root));
    let path = CanonicalPath::new(string_of(&rel).as_str());
    Ok(FileContent { path, bytes, lines: #[verifier::truncate] (n as u32) })
}

/// The warning for a file passed over: its code, its path and what happened.
pub fn skip_reason_to_warning(reason: &FileSkipReason) -> (w: Warning)
    ensures
        match reason {
            FileSkipReason::ReadError { path, reason: why } => w.code == WarningCode::W002ReadFailed
                && w.path@ == canon_spec(path@) && w.message@ == "cannot read: "@ + why@,
            FileSkipReason::TooLarge { path, size } => w.code == WarningCode::W003FileTooLarge
                && w.path@ == canon_spec(path@) && w.message@ == "file too large: "@ + decimal_spec(size as nat) + " bytes"@,
            FileSkipReason::BinaryFile { path } => w.code == WarningCode::W004BinaryFile && w.path@ == canon_spec(path@)
                && w.message@ == "binary file"@,
            FileSkipReason::EncodingError { path } => w.code == WarningCode::W009EncodingError
                && w.path@ == canon_spec(path@) && w.message@ == "not valid UTF-8"@,
        },
        w.detail is None,
{
    match reason {
        FileSkipReason::ReadError { path, reason } => Warning {
            code: WarningCode::W002ReadFailed,
            path: CanonicalPath::new(path.as_str()),
            message: string_of(&crate::text::concat(&chars_of("cannot read: "), &chars_of(reason.as_str()))),
            detail: None,
        },
        FileSkipReason::TooLarge { path, size } => {
            let mut m = chars_of("file too large: ");
            crate::text::push_all(&mut m, &decimal(*size));
            crate::text::push_all(&mut m, &chars_of(" bytes"));
            Warning { code: WarningCode::W003FileTooLarge, path: CanonicalPath::new(path.as_str()), message: string_of(&m), detail: None }
        },
        FileSkipReason::BinaryFile { path } => Warning {
            code: WarningCode::W004BinaryFile,
            path: CanonicalPath::new(path.as_str()),
            message: string_of(&chars_of("binary file")),
            detail: None,
        },
        FileSkipReason::EncodingError { path } => Warning {
            code: WarningCode::W009EncodingError,
            path: CanonicalPath::new(path.as_str()),
            message: string_of(&chars_of("not valid UTF-8")),
            detail: None,
        },
    }
}

} // verus!
