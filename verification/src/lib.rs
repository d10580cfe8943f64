use vstd::prelude::*;

pub mod text;
pub mod error;
pub mod digest;
pub mod instance_config;
pub mod landing;
pub mod version;
pub mod plan;
pub mod profile;
pub mod self_depend;
pub mod services;
pub mod toml_doc;
pub mod json_doc;
pub mod paths;
pub mod probes;
pub mod sorted_map;
pub mod stage;
pub mod release;
