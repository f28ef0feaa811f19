//! Pushes a local branch to a remote in bounded windows of commits, with a
//! resume checkpoint after each window and a safe or forced update policy.
pub mod args;
pub mod checkpoint;
pub mod commit;
pub mod config;
pub mod engine;
pub mod window;
pub mod worktree;

pub use args::{Args, ConfigError, DEFAULT_WINDOW_SIZE};
pub use checkpoint::{Checkpoint, RECORD_LEN, decode, encode};
pub use commit::CommitRef;
pub use config::Config;
pub use engine::{
    Action, BASE_DELAY_MS, ErrorOrigin, ErrorReason, Event, MAX_ATTEMPTS, Phase, PushEngine,
    PushError, failure_event, pending_commits,
};
pub use window::partition;
pub use worktree::{dir_name, fresh_dir_name, worktree_label};
