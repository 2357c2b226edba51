//! Sensor pipelines over Apache Arrow: bounded queues with metrics, the replay of
//! recorded segments, and the fusion of camera detections with LiDAR points.
//!
//! Numbers that are floats in the data travel through the library as bit patterns:
//! it compares and sorts them, and leaves arithmetic on them to its callers. Time is
//! in nanoseconds.
pub mod checksum;
pub mod columns;
pub mod demo;
pub mod detector;
pub mod frames;
pub mod fusion;
pub mod ieee;
pub mod index;
pub mod join;
pub mod jpeg;
pub mod measurement;
pub mod metrics;
pub mod nanos;
pub mod order;
pub mod picture;
pub mod pipeline;
pub mod pointcloud;
pub mod producer;
pub mod queue;
pub mod replay;
pub mod sink;
pub mod stages;
pub mod table;
pub mod text;
pub mod transport;
pub mod waymo;
pub mod wire;
