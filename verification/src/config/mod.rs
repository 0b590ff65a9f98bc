//! Layered JSON configuration: a global config file and an optional
//! per-repository file merged into one configuration. API key values stay in
//! the merged configuration; the status view never carries them.

pub mod load;
pub mod model;
pub mod state;
pub mod validate;

pub use load::{
    app_data_dir, app_data_dir_in, apply_file, compute_merged, global_config_path, global_config_path_in, reload_config_state, sanitize_parse_error,
    CONFIG_FILE_NAME,
};
pub use model::{ConfigFile, ConfigStatus, MergedConfig, ModelSpec, ModelsConfig};
pub use state::ConfigState;
pub use validate::{
    providers_to_fetch, unconfigured_provider_message, validate_model_strings, validate_models, validate_structured_model,
};
