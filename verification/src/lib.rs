//! A verified core for a URL shortener: base62 short-code generation,
//! a registry of long-URL-to-code mappings with its uniqueness invariants,
//! and the shorten/resolve orchestration with bounded conflict retry.

pub mod codec;
pub mod registry;
pub mod shorten;
pub mod text;

pub use codec::encode_base62;
pub use registry::Registry;
pub use registry::ShortUrlRecord;
pub use registry::StorageError;
pub use shorten::GenerateShortUrlRequest;
pub use shorten::ResolveError;
pub use shorten::ShortenError;
pub use shorten::ShortenEvent;
pub use shorten::ShortenSession;
pub use shorten::ShortenStep;
pub use shorten::generate_short_code;
pub use shorten::resolve;
pub use shorten::shorten;
pub use shorten::validate_url;
