//! A verified compiler stack for the Neander machine: a calculator front end that turns
//! arithmetic expressions into Neander assembly, an assembler that turns assembly into a
//! memory image, and an interpreter that runs the image.
pub mod assembler;
pub mod calc;
pub mod interpreter;
pub mod pipeline;
pub mod reading;
pub mod text;
