//! Verified core of a local-first music-library sync engine.
pub mod analysis;
pub mod apple;
pub mod appcheck;
pub mod assoc;
pub mod audio;
pub mod background;
pub mod backup;
pub mod buckets;
pub mod collapse;
pub mod config;
pub mod dirty;
pub mod error;
pub mod firebase;
pub mod hex;
pub mod hlc;
pub mod manifest;
pub mod json;
pub mod merge;
pub mod merge_sql;
pub mod oauth;
pub mod pipeline;
pub mod resolution;
pub mod rest;
pub mod rows;
pub mod settings;
pub mod stamping;
pub mod status;
pub mod synclog;
pub mod text;
pub mod types;
pub mod wire;
