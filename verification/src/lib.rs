//! The value model of a hardware-description toolkit: the shape and width of
//! every hardware-visible value, the bits that a path into a value addresses,
//! the flat encoding of a value, and the channels and samples that trace it.

/// Laws that tie path resolution on a kind to navigation in a value.
pub mod agreement;
/// Bit vectors: scalars as bits, least significant first, and back.
pub mod bits;
/// Clocks that a trace renders beside its channels.
pub mod clock_details;
/// Values, their conformance to a kind, and their flat encoding.
pub mod digital;
/// Kinds: the shape of a value, its width, and its well-formedness.
pub mod kind;
/// The interface of what registers the channels of a trace.
pub mod log_builder;
/// The interface of what takes the samples of a trace.
pub mod logger;
/// Paths and their resolution to a range of bits and a kind.
pub mod path;
/// Shapes: the mathematical content of kinds, with their widths and offsets.
pub mod shape;
/// Handles for the groups of channels of a trace.
pub mod tag_id;
/// The channels of a kind and the samples of a value.
pub mod trace;
