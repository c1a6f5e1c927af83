//! Register model, value codecs and connection logic of a Modbus client.
//!
//! The register tables and their per-register layout live in [`share_data`];
//! the text forms of register values in [`display`]; the packing of values
//! into 16-bit words in [`words`]; the polling and command decisions of the
//! client in [`session`]; the chunked reads in [`chunked`]; the connection
//! settings in [`config`]; the choice and order of fonts in [`fonts`].
pub mod chunked;
pub mod config;
pub mod display;
pub mod fonts;
pub mod session;
pub mod share_data;
pub mod text;
pub mod values;
pub mod words;
