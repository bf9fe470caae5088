//! Library for resolving and commanding home-automation devices behind a
//! Tahoma gateway: deterministic identifier resolution (exact and fuzzy,
//! with tie-break and ambiguity detection), durable named device groups
//! with a verified whole-collection codec, and all-or-nothing command
//! validation for single devices and groups.

pub mod codec;
pub mod controller;
pub mod device;
pub mod dispatch;
pub mod errors;
pub mod group;
pub mod model;
pub mod service;
pub mod strutil;
