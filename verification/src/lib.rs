//! A cache-warming gateway core: a virtual, backend-agnostic file tree
//! (local disk or a remote WebDAV server) whose contents can be copied
//! ("precached") into a local on-disk cache while per-job and aggregate
//! progress is tracked.
//!
//! This crate holds the verified engine: virtual-path arithmetic, the
//! WebDAV multistatus parser, the copy planner and its in-memory copy
//! model, progress accounting, and the directory-size cache. The thin
//! asynchronous shell that performs network and filesystem I/O drives
//! these functions and is kept outside the verified core.

pub mod cache_manager;
pub mod copy_plan;
pub mod directory_sizer;
pub mod intparse;
pub mod kv;
pub mod local_backend;
pub mod models;
pub mod stream_buf;
pub mod vpath;
pub mod webdav;
