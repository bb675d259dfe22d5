//! A verified core for an LED-badge animation designer.
//!
//! An animation is an ordered sequence of fixed-size monochrome pixel grids
//! (44 columns by 11 rows), together with two playback parameters: a padding
//! (filler columns appended after each frame in the encoded layout) and a
//! speed hint. This crate provides:
//!
//! - the frame and frame-store data model with its mutation operations
//!   ([`frame`], [`store`]),
//! - a codec between a store snapshot and the line-oriented textual
//!   configuration format consumed by the badge flashing tool ([`codec`]),
//! - the editing state machine that translates pointer and keyboard events
//!   into store mutations ([`editor`]), and
//! - proofs of the codec's laws, among them that decoding an encoded
//!   configuration restores the frames, padding and speed exactly
//!   ([`roundtrip`]).

pub mod codec;
pub mod editor;
pub mod frame;
pub mod roundtrip;
pub mod store;
pub mod text;
