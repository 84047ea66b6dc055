//! BlurHash core: the base-83 string codec, hash validation and parsing,
//! and the integer packing used by the encoder and decoder.

pub mod base83;
pub mod decoder;
pub mod encoder;

pub use base83::decode83;
pub use base83::encode83;
pub use decoder::parse;
pub use decoder::rgba_pixels;
pub use decoder::unpack_ac;
pub use decoder::unpack_dc;
pub use decoder::validate;
pub use decoder::DecodeError;
pub use decoder::ParsedHash;
pub use encoder::assemble_hash;
pub use encoder::check_encode_inputs;
pub use encoder::pack_ac;
pub use encoder::pack_dc;
pub use encoder::size_flag;
pub use encoder::EncodeError;
