pub mod api;
pub mod working_set;
pub mod yaml_laws;
