use vstd::prelude::*;
use crate::bytes::{eof_error, error_is, fits, le64, read_u64_le, ParseFail};
use crate::error::Error;
use crate::sorting::{sort_by_name, sorted_by_name, Named};
use crate::text::{decimal, push_decimal, push_str};

verus! {

/// The largest JSON header that a Safetensors file may declare, in bytes.
pub const MAX_HEADER_SIZE: u64 = 104857600;

/// One tensor of a Safetensors header.
#[derive(Debug, Clone)]
pub struct SafetensorEntry {
    pub dtype: String,
    pub shape: Vec<u64>,
    pub data_offsets: [u64; 2],
}

/// A parsed Safetensors header.
#[derive(Debug, Clone)]
pub struct SafetensorsFile {
    pub path: String,
    pub file_size: u64,
    pub header_size: u64,
    pub tensors: Vec<(String, SafetensorEntry)>,
}

impl SafetensorsFile {
    pub fn tensor_count(&self) -> (n: usize)
        ensures
            n == self.tensors@.len(),
    {
        self.tensors.len()
    }
}

impl Named for (String, SafetensorEntry) {
    open spec fn name_view(&self) -> Seq<char> {
        self.0@
    }

    fn name_str(&self) -> (s: &str) {
        self.0.as_str()
    }
}

/// Reads the header of Safetensors files.
#[derive(Default)]
pub struct SafetensorsReader;

/// The message for a declared header larger than the limit.
pub open spec fn header_too_large_message(h: u64) -> Seq<char> {
    "safetensors header size "@ + decimal(h as nat) + " exceeds safety limit 104857600"@
}

/// The header size that a file's first bytes declare, or why the file is refused.
pub open spec fn spec_header_size(prefix: Seq<u8>, file_size: u64) -> Result<u64, ParseFail> {
    if !fits(prefix, 0, 8) {
        Err(ParseFail::Eof)
    } else if le64(prefix, 0) == 0 {
        Err(ParseFail::Format("safetensors header size is zero"@))
    } else if le64(prefix, 0) > MAX_HEADER_SIZE {
        Err(ParseFail::Format(header_too_large_message(le64(prefix, 0))))
    } else if 8 + le64(prefix, 0) > file_size {
        Err(ParseFail::Format("safetensors header exceeds file bounds"@))
    } else {
        Ok(le64(prefix, 0))
    }
}

impl SafetensorsReader {
    pub fn new() -> (r: Self) {
        SafetensorsReader
    }

    /// Checks the eight-byte little-endian header size at the start of a file
    /// of `file_size` bytes, of which `prefix` holds the first bytes.
    pub fn header_size(prefix: &[u8], file_size: u64) -> (r: Result<u64, Error>)
        ensures
            match spec_header_size(prefix@, file_size) {
                Ok(h) => r == Ok::<u64, Error>(h),
                Err(f) => r matches Err(e) && error_is(e, f),
            },
    {
        if prefix.len() < 8 {
            return Err(eof_error());
        }
        let h = read_u64_le(prefix, 0);
        if h == 0 {
            return Err(Error::Format("safetensors header size is zero".to_owned()));
        }
        if h > MAX_HEADER_SIZE {
            let mut m = String::new();
            push_str(&mut m, "safetensors header size ");
            push_decimal(&mut m, h);
            push_str(&mut m, " exceeds safety limit 104857600");
            return Err(Error::Format(m));
        }
        if 8 + h > file_size {
            return Err(Error::Format("safetensors header exceeds file bounds".to_owned()));
        }
        Ok(h)
    }

    /// The parsed file: its entries, as the JSON header lists them, sorted by name.
    pub fn from_header(
        path: String,
        file_size: u64,
        header_size: u64,
        entries: Vec<(String, SafetensorEntry)>,
    ) -> (f: SafetensorsFile)
        ensures
            f.path@ == path@,
            f.file_size == file_size,
            f.header_size == header_size,
            f.tensors@.to_multiset() == entries@.to_multiset(),
            sorted_by_name(f.tensors@),
    {
        let tensors = sort_by_name(entries);
        SafetensorsFile { path, file_size, header_size, tensors }
    }
}

/// The safety limit of the Safetensors reader: an accepted header is not
/// empty, at most 100 MiB (104,857,600 bytes), and lies inside the file.
pub proof fn lemma_header_size_limit(prefix: Seq<u8>, file_size: u64)
    requires
        spec_header_size(prefix, file_size) is Ok,
    ensures
        0 < spec_header_size(prefix, file_size)->Ok_0 <= MAX_HEADER_SIZE,
        8 + spec_header_size(prefix, file_size)->Ok_0 <= file_size,
{
}

} // verus!
