//! The text engine of a terminal notes editor.
#![allow(unused_imports)]

pub mod app;
pub mod bidi;
pub mod chars;
pub mod editor;
pub mod keys;
pub mod laws;
pub mod layout;
pub mod marker;
pub mod measure;
pub mod modal;
pub mod text;
pub mod utf8;
pub mod vim;
