//! Core of a per-node agent for a distributed, eventually-consistent graph
//! store. Each node ("slab") keeps an append-only table of immutable records
//! ("memos"), tracks which peers hold which records, drives a push-based
//! durability protocol, and resolves causal ancestry between records.

pub mod agent;
pub mod memo;
pub mod network;
pub mod slabref;
pub mod system_creator;
