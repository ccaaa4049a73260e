//! Planning and bookkeeping for integrating upstream changes into a local branch.
pub mod bytes;
pub mod edit_laws;
pub mod facts;
pub mod head;
pub mod integration;
pub mod lookup_laws;
pub mod merge;
pub mod merge_laws;
pub mod merge_options;
pub mod object_id;
pub mod plan;
pub mod plan_laws;
pub mod repository;
pub mod repository_laws;
pub mod signature;
pub mod signature_laws;
pub mod stop;
pub mod text_laws;
pub mod view_laws;
pub mod worktree;
pub mod worktree_laws;
