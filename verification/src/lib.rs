//! The GLM-4 MoE Lite language model: what its settings call for, and what a
//! forward pass does.
//!
//! A model is laid out from its settings ([`config`], [`model`]), and a forward
//! pass is recorded as a list of tensor operations ([`tape`]) that whoever owns
//! the tensors plays. The contracts say what each recorded result stands for,
//! which operations run in which order, and where the caches stand afterwards.
//! What holds of all models and passes is proved in [`laws`] and [`shapes`], what
//! of the settings reaches them in [`settings`], and what the operations compute
//! in [`meaning`], [`rows`] and [`decoding`].
pub mod attention;
pub mod binary32;
pub mod cache;
pub mod config;
pub mod decoder;
pub mod decoding;
pub mod error;
pub mod laws;
pub mod meaning;
pub mod mlp;
pub mod model;
pub mod rows;
pub mod settings;
pub mod shapes;
pub mod tape;
pub mod weights;
