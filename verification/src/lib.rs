//! Byte buffers, their hexadecimal and base64 text forms, bytewise XOR and an
//! English-likeness score, with every operation proved against a mathematical
//! model of what it returns.

pub mod base64;
pub mod bytestring;
pub mod cryptostring;
pub mod hex;
pub mod likeness;
pub mod ratio;
pub mod search;
pub mod set1;
pub mod text;
