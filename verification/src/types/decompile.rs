pub mod read;
pub mod read_spec;
pub mod condition_spec;
pub mod condition_text;
pub mod text_spec;
pub mod to_text;
