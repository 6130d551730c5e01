//! Reading, writing, decompiling and compiling the TalkESD state-machine
//! files of Demon's Souls.
pub mod utils;
pub mod types;
pub mod dlse_esd;
pub mod laws;
pub mod condition_laws;
pub mod renumbering_laws;
pub mod bookkeeping_laws;
pub mod tokenize_laws;
pub mod section_laws;
pub mod link_laws;
pub mod reference_laws;
pub mod decompile_laws;
