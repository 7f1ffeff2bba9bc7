//! What holds of the editor as a whole.
//!
//! Each function states one law over the models that the executable functions
//! keep to: a law of the model is a law of every run of the code.
pub mod arabic;
pub mod bidi;
pub mod changes;
pub mod commands;
pub mod edits;
pub mod flat;
pub mod inverse;
pub mod keystrokes;
pub mod lines;
pub mod lists;
pub mod motions;
pub mod moves;
pub mod operators;
pub mod rows;
pub mod screen;
pub mod search;
pub mod text;
pub mod undo;
pub mod vim;
pub mod visual;
pub mod words;
