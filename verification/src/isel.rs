pub mod extractor;
pub mod rewrites;
