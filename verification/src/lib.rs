//! Tokamak: run local language models with llama.cpp, with numbers that are
//! worked out rather than guessed.
//!
//! The crate holds what the application decides and computes, without the
//! network, the disk and the window around it:
//!
//! - [`estimator`] works out how much of a model fits on a GPU, with how much
//!   context, and what a draft model beside it costs.
//! - [`speculative`] judges which models can serve as drafts of another, and ranks
//!   them.
//! - [`llama`] finds and ranks server binaries, builds their arguments and follows
//!   the one server that runs.
//! - [`chat`] asks the server for answers and titles and reads what it streams.
//! - [`history`] keeps sessions as trees of turns.
//! - [`downloads`] searches for models, names files safely and resumes transfers.
//! - [`runtime`] offers and installs builds of llama.cpp.
//! - [`ollama`] reads the model store of Ollama.
//! - [`benchmark`] measures candidates and writes reports.
//! - [`commands`] holds what is left of the application's commands.
//!
//! Beneath them stand [`text`] on sequences of characters, [`binary64`] on
//! floating point numbers as integers, [`json`] on documents, [`order`] on stable
//! sorting, and the plain records [`gguf`] and [`scanner`].

pub mod benchmark;
pub mod binary64;
pub mod chat;
pub mod commands;
pub mod downloads;
pub mod estimator;
pub mod gguf;
pub mod history;
pub mod json;
pub mod llama;
pub mod ollama;
pub mod order;
pub mod runtime;
pub mod scanner;
pub mod speculative;
pub mod text;
