//! Tailing of Kubernetes container logs: matching of pods and containers,
//! the per-container tailing state machine, the controller's bookkeeping of
//! running tailers, and the formatting of log lines.
pub mod text;
pub mod config;
pub mod pod;
pub mod matcher;
pub mod time;
pub mod tailer;
pub mod keyed;
pub mod controller;
pub mod output;
pub mod selection;
