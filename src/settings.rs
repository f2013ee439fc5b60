//! The settings of the application, as loaded at start-up.
use vstd::prelude::*;

verus! {

#[derive(Debug, Clone)]
pub struct Settings {
    pub metadata: Metadata,
    pub application: ApplicationSettings,
    pub server: ServerSettings,
    pub telemetry: TelemetrySettings,
}

#[derive(Debug, Clone)]
pub struct Metadata {
    pub name: String,
    pub version: String,
}

#[derive(Debug, Clone)]
pub struct ApplicationSettings {
    pub name: String,
    pub environment: String,
}

#[derive(Debug, Clone)]
pub struct ServerSettings {
    pub host: String,
    pub port: u16,
}

#[derive(Debug, Clone)]
pub struct TelemetrySettings {
    pub level: String,
    pub otlp_endpoint: Option<String>,
}

/// What every request handler is given: the settings, shared and read-only.
#[derive(Clone)]
pub struct AppState {
    pub settings: std::sync::Arc<Settings>,
}

} // verus!
