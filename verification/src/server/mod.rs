//! The server side: resource accounting, rate-limit decisions, the
//! service marketplace's vocabulary and the service images.

pub mod container;
pub mod ratelimit;
pub mod registry;
pub mod resource;
