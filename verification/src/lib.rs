//! Policies, gateway fleets and supervisor sessions of sandboxes.
pub mod addition_laws;
pub mod coverage_laws;
pub mod docker;
pub mod endpoint_path;
pub mod fleet_dns;
pub mod fleet_laws;
pub mod gateway_channels;
pub mod gateway_fleet;
pub mod identity;
pub mod identity_laws;
pub mod liveness_laws;
pub mod merge;
pub mod merge_effects;
pub mod merge_laws;
pub mod merge_model;
pub mod merge_types;
pub mod message_laws;
pub mod order;
pub mod outcome_laws;
pub mod podman;
pub mod policy;
pub mod round_laws;
pub mod secrets;
pub mod session_effects;
pub mod session_laws;
pub mod session_liveness;
pub mod status;
pub mod string_map;
pub mod supervisor_flow;
pub mod supervisor_fleet;
pub mod supervisor_session;
pub mod text;
pub mod text_laws;
pub mod unsupported;
pub mod values;
