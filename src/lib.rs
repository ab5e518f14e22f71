//! Reading and writing UnityFS asset bundles: a header, a compressed
//! blocks-info segment describing blocks and directory entries, and a single
//! compressed payload block.

pub mod bundle;
pub mod codec;
pub mod error;
pub mod laws;
pub mod stream;

pub use error::BundleError;
pub use bundle::{AssetBundle, AssetBundleDecoder, AssetBundleEncoder, BlockInfo, DirectoryInfo};
