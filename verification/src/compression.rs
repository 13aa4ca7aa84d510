//! Possible ZIP compression methods.
use vstd::prelude::*;

verus! {

/// Identifies the storage format used to compress a file within a ZIP archive.
#[derive(Clone, Copy, Debug, PartialEq, Eq, Structural)]
pub enum CompressionMethod {
    /// Store the file as is.
    Stored,
    /// Compress the file using Deflate.
    Deflated,
    /// Compress the file using BZIP2.
    Bzip2,
    /// Encrypted using AES.
    AES,
    /// Compress the file using Zstandard.
    Zstd,
    /// Unsupported compression method.
    Unsupported(u16),
}

/// The method whose number is `code`.
pub open spec fn method_of(code: u16) -> CompressionMethod {
    if code == 0 {
        CompressionMethod::Stored
    } else if code == 8 {
        CompressionMethod::Deflated
    } else if code == 12 {
        CompressionMethod::Bzip2
    } else if code == 93 {
        CompressionMethod::Zstd
    } else if code == 99 {
        CompressionMethod::AES
    } else {
        CompressionMethod::Unsupported(code)
    }
}

impl CompressionMethod {
    /// The number of this method.
    pub open spec fn code(self) -> u16 {
        match self {
            CompressionMethod::Stored => 0,
            CompressionMethod::Deflated => 8,
            CompressionMethod::Bzip2 => 12,
            CompressionMethod::AES => 99,
            CompressionMethod::Zstd => 93,
            CompressionMethod::Unsupported(code) => code,
        }
    }

    /// Converts an u16 to its corresponding CompressionMethod.
    pub fn from_u16(val: u16) -> (method: CompressionMethod)
        ensures
            method == method_of(val),
    {
        match val {
            0 => CompressionMethod::Stored,
            8 => CompressionMethod::Deflated,
            12 => CompressionMethod::Bzip2,
            93 => CompressionMethod::Zstd,
            99 => CompressionMethod::AES,
            v => CompressionMethod::Unsupported(v),
        }
    }

    /// Converts a CompressionMethod to a u16.
    pub fn to_u16(self) -> (code: u16)
        ensures
            code == self.code(),
    {
        match self {
            CompressionMethod::Stored => 0,
            CompressionMethod::Deflated => 8,
            CompressionMethod::Bzip2 => 12,
            CompressionMethod::AES => 99,
            CompressionMethod::Zstd => 93,
            CompressionMethod::Unsupported(v) => v,
        }
    }
}

/// The number of the method with a given number is that number.
pub proof fn code_of_method(code: u16)
    ensures
        method_of(code).code() == code,
{
}

/// Every method is found again by its number, but for an `Unsupported` that
/// holds the number of a supported one.
pub proof fn method_of_code(method: CompressionMethod)
    requires
        method matches CompressionMethod::Unsupported(code) ==> ![0u16, 8, 12, 93, 99]@.contains(
            code,
        ),
    ensures
        method_of(method.code()) == method,
{
    if let CompressionMethod::Unsupported(code) = method {
        let known = [0u16, 8, 12, 93, 99]@;
        assert(known[0] == 0 && known[1] == 8 && known[2] == 12 && known[3] == 93 && known[4]
            == 99);
    }
}

/// The numbers by which the format knows the methods.
pub proof fn numbers_of_methods(code: u16)
    ensures
        method_of(code) is Stored <==> code == 0,
        method_of(code) is Deflated <==> code == 8,
        method_of(code) is Bzip2 <==> code == 12,
        method_of(code) is Zstd <==> code == 93,
        method_of(code) is AES <==> code == 99,
        method_of(code) is Unsupported ==> method_of(code) == CompressionMethod::Unsupported(code),
{
}

} // verus!
