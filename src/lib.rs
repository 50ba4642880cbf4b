//! Decoder for the binary module format: reads a module's header and
//! sections, rebuilds its declarations as a `ModuleInfo`, and encodes the
//! result into a compact tagged wire format.
//!
//! `utf8` checks names, `reader` holds the byte and varint readers,
//! `entities` the entries of the declaration sections, `code` function
//! bodies, `names` the name section, `decode` the sections and the module,
//! `view` the module as a mathematical value, `encode` the wire format, and
//! `session` the input and output buffers a host works with. `factor`
//! splits integers with Pollard's rho method.

pub mod error;
pub mod utf8;
pub mod reader;
pub mod model;
pub mod entities;
pub mod code;
pub mod names;
pub mod checked;
pub mod decode;
pub mod view;
pub mod encode;
pub mod session;
pub mod factor;
