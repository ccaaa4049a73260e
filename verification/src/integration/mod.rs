//! Integrating the changes of an upstream branch into a local branch.
pub mod answer_laws;
pub mod branch_laws;
pub mod command_laws;
pub mod commit_laws;
pub mod edges;
pub mod editor;
pub mod initial;
pub mod initial_laws;
pub mod replay_laws;
pub mod segment;
pub mod segment_laws;
pub mod squash;
pub mod squash_laws;
pub mod steps;
