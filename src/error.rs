//! Errors of decoding and encoding, and the kinds that contracts speak of.
use vstd::prelude::*;

verus! {

#[verifier::external_type_specification]
#[verifier::external_body]
pub struct ExIoError(std::io::Error);

#[verifier::external_type_specification]
#[verifier::external_body]
pub struct ExDecompressError(lz4_flex::block::DecompressError);

/// Why a bundle could not be decoded or encoded.
#[derive(Debug)]
pub enum BundleError {
    /// The LZMA or Zstd codec reported an error.
    Io(std::io::Error),
    /// The signature is not the expected format tag; holds the signature read.
    UnsupportedBundle(String),
    /// Data that a codec produced does not have the expected shape.
    InvalidData(String),
    /// The LZ4 codec reported an error.
    Decompress(lz4_flex::block::DecompressError),
    /// The source ended before a field or segment was complete.
    UnexpectedEof,
    /// A file is not listed in the directory.
    DirNotFound,
    /// The bundle does not hold exactly one block.
    MoreThanOneBlock,
}

/// The kind of a [`BundleError`], with the signature that was refused.
pub enum Failure {
    Io,
    UnsupportedBundle(Seq<char>),
    InvalidData,
    Decompress,
    UnexpectedEof,
    DirNotFound,
    MoreThanOneBlock,
}

impl BundleError {
    pub open spec fn kind(&self) -> Failure {
        match self {
            BundleError::Io(_) => Failure::Io,
            BundleError::UnsupportedBundle(s) => Failure::UnsupportedBundle(s@),
            BundleError::InvalidData(_) => Failure::InvalidData,
            BundleError::Decompress(_) => Failure::Decompress,
            BundleError::UnexpectedEof => Failure::UnexpectedEof,
            BundleError::DirNotFound => Failure::DirNotFound,
            BundleError::MoreThanOneBlock => Failure::MoreThanOneBlock,
        }
    }

    /// A one-line description of the error.
    pub fn message(&self) -> String {
        match self {
            BundleError::Io(_) => "IO error".to_string(),
            BundleError::UnsupportedBundle(_) => "Unsupported bundle type".to_string(),
            BundleError::InvalidData(_) => "Invalid data".to_string(),
            BundleError::Decompress(_) => "Decompress error".to_string(),
            BundleError::UnexpectedEof => "Unexpected end of data".to_string(),
            BundleError::DirNotFound => "File not in Directory Info".to_string(),
            BundleError::MoreThanOneBlock => "More than one block in AssetBundle".to_string(),
        }
    }
}

} // verus!
