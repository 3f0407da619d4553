//! Launch-time assembly of a process environment from buildpack layers,
//! selection of the process to run, and the exec plan that starts it.

mod env;
mod envfile;
mod error;
mod launcher;
mod layers;
mod metadata;
mod order;
mod select;
mod text;

pub use env::{Env, Position};
pub use envfile::{add_env_file, split_env_file_name, EnvFile, EnvFileKind};
pub use error::LaunchError;
pub use launcher::{ExecPlan, Launcher};
pub use layers::{
    add_env_layer_dirs, add_root_layer_dirs, collect_layer_profile_d, walk_layers_dir, FileEntry,
    Layer, LayerRoot, LayersScan,
};
pub use metadata::{Buildpack, Process};
pub use order::{sort_by_name, Named};
pub use select::{detect_process, find_process_by_type};
pub use text::{has_char, join_path, name_le, replace_separators};
