//! Decoders for the binary files the desktop application writes: day bars,
//! minute bars, and the encrypted corporate-action ("gbbq") file, together
//! with the forward-adjustment engine that joins the two series.

pub mod day;
pub mod fq;
pub mod gbbq;
pub mod lc;
