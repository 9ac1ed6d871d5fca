//! Caption layout for image memes: text is split into words, wrapped greedily
//! into lines that fit a pixel width, and drawn with a dark outline under a
//! light fill.
pub mod words;
pub mod wrap;
pub mod laws;
pub mod canvas;
pub mod caption;
