pub mod binary_reader;
pub mod binary_writer;
pub mod defs;
pub mod important_data;
pub mod text;
pub mod text_writer;
pub mod strings;
pub mod text_reader;
pub mod important_comp_data;
