//! Synthetic manga OCR training crops and the corpus vocabulary they feed:
//! the integer logic of rendering layout, scan degradation and corpus
//! scanning, verified.
pub mod corpus;
pub mod degrade;
pub mod json;
pub mod render;
pub mod text;
