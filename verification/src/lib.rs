//! Decides which container images have a newer version in their registry.
//!
//! The crate holds the decisions of an update check and none of its I/O: a
//! caller lists the images, asks the registries what this crate tells it to
//! ask, and hands every answer back. What is asked, in which order, and what
//! each answer means for each image is decided here and proved against the
//! models in each module.
//!
//! - `image`, `reference`: an image, its parts, and the verdict on it.
//! - `registry`, `answers`: the questions to a registry and what its
//!   answers mean.
//! - `retry`: when a request is tried again, and after which wait.
//! - `model`, `orchestrator`: one run of the check as a state machine, over
//!   plain values and over the data of the program.
//! - `grouping`, `distinct`, `lookup`, `text`: what the above are built on.
//! - `check`: a whole check against recorded answers.
//! - `laws`: what holds of every run.

pub mod answers;
pub mod check;
pub mod distinct;
pub mod grouping;
pub mod image;
pub mod laws;
pub mod lookup;
pub mod model;
pub mod orchestrator;
pub mod reference;
pub mod registry;
pub mod retry;
pub mod text;
