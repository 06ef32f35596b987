//! The distributed-systems exercise suite: its catalogue of stages, the reference models its
//! replays are checked against, and the decisions its drivers take.
pub mod text;
pub mod names;
pub mod stages;
pub mod steps;
pub mod quorum;
pub mod check;
pub mod claims;
pub mod cluster;
pub mod json;
pub mod prim;
pub mod demands;
pub mod draw;
pub mod etcd;
pub mod examples;
