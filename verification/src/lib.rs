//! The decision core of an on-demand Proton Drive filesystem.

pub mod access;
pub mod adoption;
pub mod albums;
pub mod browse;
pub mod children;
pub mod clock;
pub mod conflicts;
pub mod control;
pub mod devices;
pub mod diagnostics;
pub mod drain;
pub mod enqueue;
pub mod error;
pub mod events;
pub mod hydrate;
pub mod intervals;
pub mod landing;
pub mod listing;
pub mod lists;
pub mod maintenance;
pub mod modes;
pub mod mount;
pub mod names;
pub mod namespace;
pub mod node;
pub mod notify;
pub mod ops;
pub mod paths;
pub mod progress;
pub mod recovery;
pub mod registry;
pub mod revisions;
pub mod search;
pub mod self_changes;
pub mod shares;
pub mod sizes;
pub mod sorting;
pub mod staging;
pub mod state;
pub mod text;
pub mod thumbnails;
pub mod trash;
pub mod uid;
pub mod uidmap;
