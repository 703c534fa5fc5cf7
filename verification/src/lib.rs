//! Core of a tiling compositor: surface registry, frame tree and event routing.

pub mod compositor;
pub mod coordinator;
pub mod defs;
pub mod env;
pub mod errors;
pub mod exhibitor_module;
pub mod frame;
pub mod layout_laws;
pub mod linking;
pub mod memory;
pub mod packing;
pub mod perceptron;
pub mod registry_laws;
pub mod requests;
pub mod searching;
pub mod seqs;
pub mod settling;
pub mod show_reason;
pub mod signaler;
pub mod subtree;
pub mod surface;
pub mod surface_history;
pub mod surface_state;
