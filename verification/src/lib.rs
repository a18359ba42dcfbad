//! A single-frame object-detection pipeline, computed in integers.
//!
//! The library turns a captured frame into the tensor a detection model
//! expects ([`encoder`]), and turns the model's raw output into a list of
//! detections, highest confidence first, in which no two boxes overlap
//! significantly ([`decoder`]). Capturing the frame and running the model
//! are left to the program that uses the library; [`pipeline`] decides what
//! follows each of them.
//!
//! Real quantities are held as fixed-point integers (see [`fixed`]), so that
//! every result is exact and the same on every machine.

pub mod decoder;
pub mod detection;
pub mod encoder;
pub mod fixed;
pub mod frame;
pub mod geometry;
pub mod layout;
pub mod normalization;
pub mod pipeline;
pub mod ranking;
pub mod resize;
pub mod sequences;
pub mod suppression;
pub mod tensor;
