//! Conversion between the foreign "security buffer" records and owned `sspi` buffers.
pub mod kind;
pub mod buffer;
