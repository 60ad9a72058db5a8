//! Watches a Hyprland compositor over its two IPC sockets and re-emits
//! enriched monitor, workspace and client state as JSON.
//!
//! Everything that decides or computes lives here and is verified: the JSON
//! model, the batch-response splitter, the event decoder, the workspace
//! declaration parser, the enrichment of live resources and the decisions of
//! the watch loop. The sockets themselves are driven by the binary.

pub mod error;
pub mod json;
pub mod text;
pub mod ipc;
pub mod events;
pub mod config;
pub mod workspaces;
pub mod clients;

pub use error::HyprError;
pub use json::{Json, JsonNumber};
pub use ipc::{batch_request, get_hypr_socket, parse_batch_response, runtime_hypr_dir, split_response};
pub use events::{decode_events, next_step, Mode, Step};
pub use config::{parse_config, WorkspaceInfoConfig};
pub use workspaces::prepare_workspaces;
pub use clients::{prepare_clients, prepare_monitors};
