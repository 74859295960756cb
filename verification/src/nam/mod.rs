//! NAM (Neural Amp Modeler) models: display summaries of their metadata and
//! the sorted list of registered model names.

pub mod info;
pub mod registry;
pub mod loader;
