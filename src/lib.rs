//! Front end of an assembler for a fixed-width instruction set: directive
//! scanning, typed setting values, and register-checked instruction fields.
pub mod registers;
pub mod text;
pub mod value;
pub mod scan;
pub mod instruction;
pub mod directive;
pub mod source;
