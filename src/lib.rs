//! A Go board model with the stone changes between two boards, and the
//! protocol side of a client for a Go engine that is driven through a
//! line-based text protocol: reading the engine's board dump, building its
//! commands and judging its responses.
pub mod board;
pub mod katago;
pub mod text;
