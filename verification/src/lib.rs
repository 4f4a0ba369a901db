pub mod text;
pub mod model;
pub mod delivery_laws;
pub mod croc;
pub mod storage;
pub mod store_laws;
pub mod github;
pub mod service;
pub mod service_laws;
pub mod auth;
pub mod agent;
pub mod selection;
pub mod version;
pub mod cache;
pub mod contacts;
pub mod recovery_laws;
pub mod jobs;
pub mod plan_laws;
