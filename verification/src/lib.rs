//! Annotated English reading: text normalisation, lexicon lookup, pronunciation
//! rendering and the document formats that the reader produces.
pub mod text;
pub mod normalize;
pub mod tokens;
pub mod lexicon;
pub mod custom;
pub mod pronounce;
pub mod meaning;
pub mod json;
pub mod language;
pub mod escape;
pub mod state;
pub mod lookup;
pub mod annotate;
pub mod preview;
pub mod decimal;
pub mod docx;
pub mod audit;
pub mod zip;
pub mod web;
pub mod translate;
pub mod handlers;
pub mod document;
pub mod powershell;
pub mod printable;
pub mod http;
pub mod window;
