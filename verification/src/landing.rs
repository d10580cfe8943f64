//! Landing an instance into a target: the paths it may write, what the
//! corpus shows about itself, and what the record vouches for.

pub mod apply;
pub mod finding;
pub mod path;
pub mod record;
pub mod observe;
