//! Fixed-width, big-endian binary encoding of values into caller-owned byte
//! buffers, with fixed-size sequences and records composed field by field.
pub mod codec;
pub mod laws;
pub mod platform;
pub mod record;

pub use codec::{Deserialize, DeserializeError, Serialize, SerializeError};
pub use platform::{platform_info, Platform};
pub use record::{
    derive_deserialize, derive_serialize, Capability, DeriveError, FieldType, FieldValue, Fields,
    RecordCodec, RejectedShape, TypeShape,
};
