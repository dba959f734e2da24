//! Thread-isolated Lua VMs with cancellation: the logic, verified.
//!
//! A Lua VM cannot cross threads, so it is confined to one and takes
//! requests over a channel; long-running Lua code is interrupted through a
//! cancellation token that the VM's debug hook looks at.  This crate holds
//! what decides in that: which tokens a cancel reaches, when a scope of
//! tasks may close, when the hook checks and yields, what error a raised
//! Lua value becomes, which VM a pool hands out.  Threads, channels and
//! futures stand around it and hand plain values in.
//!
//! - [`hook`]: cancellation tokens, and which is current.
//! - [`scope`]: structured execution; no task outlives what spawned it.
//! - [`hub`], [`runtime`], [`hooks`]: the debug hook and the state of a VM.
//! - [`error`], [`protect`], [`thread`]: calling Lua, and its errors.
//! - [`pool`]: pools of VMs.
//! - [`handle`], [`async_isle`], [`task`]: the actors and their handles.
//! - [`task_lib`]: the Lua `task` library.
//! - [`forest`]: the tree that tokens and scopes are kept in.
//! - [`lua`]: the calls into mlua, and what is believed of them.

pub mod async_isle;
pub mod error;
pub mod forest;
pub mod handle;
pub mod hook;
pub mod hooks;
pub mod hub;
pub mod lua;
pub mod pool;
pub mod protect;
pub mod runtime;
pub mod scope;
pub mod task;
pub mod task_lib;
pub mod text;
pub mod thread;

pub use async_isle::AsyncIsleBuilder;
pub use error::{Cancelled, IsleError, LuaErrorKind, LuaFailure};
pub use hook::{current_token, CancelToken};
pub use pool::{IslePool, PoolConfig, PoolStrategy, PooledIsle};
pub use task::{AsyncTask, Task};
