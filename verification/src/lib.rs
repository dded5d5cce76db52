//! Bounded event ingestion and advisory analysis. No remediation or cluster writes.
pub mod accounts;
pub mod answers;
pub mod asking;
pub mod cleaning;
pub mod cli;
pub mod controller;
pub mod digest;
pub mod events;
pub mod exact;
pub mod following;
pub mod form;
pub mod framing;
pub mod grouping;
pub mod ieee;
pub mod intake;
pub mod jev;
pub mod json;
pub mod judging;
pub mod kubernetes;
pub mod measures;
pub mod memory;
pub mod moment;
pub mod names;
pub mod order;
pub mod parsing;
pub mod pattern;
pub mod progress;
pub mod protocol;
pub mod reading;
pub mod remembering;
pub mod remote;
pub mod report;
pub mod rows;
pub mod runtime;
pub mod search;
pub mod searching;
pub mod shown;
pub mod telling;
pub mod text;
pub mod tui;
pub mod wire;
pub mod writing;
