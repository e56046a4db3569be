//! A webhook library that mediates device-join approval between an external
//! caller and a network controller API.
//!
//! The library owns everything that can be stated and proved: parsing the
//! inbound JSON body, validating the pre-shared key, building the outbound
//! controller call, and mapping the controller's status code to the response
//! for the original caller. The surrounding binary performs the network I/O
//! and hands the results back as plain values.

pub mod device;
pub mod handler;
pub mod json;
