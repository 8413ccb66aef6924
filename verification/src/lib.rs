//! Verified checking of the signatures of a compiled Move module.

pub mod text;
pub mod errors;
pub mod abilities;
pub mod file_format;
pub mod plan;
pub mod ability_cache;
pub mod checked;
pub mod module_plan;
pub mod signature;
pub mod ruling;
pub mod well_formed;
pub mod acceptance;
pub mod bounds;
pub mod causes;
pub mod type_laws;
pub mod part_laws;
pub mod laws;
pub mod table_laws;
pub mod refusal_laws;
pub mod detail_laws;
