//! A cooperative-plus-preemptive round-robin thread scheduler with explicit
//! stack construction and sleep/wake bookkeeping, together with the small
//! pure helpers that surround it in a hobby kernel: colour handling, screen
//! coordinates, page-size arithmetic and frame allocation, Sv39 page-table
//! entry encoding, and real-time-clock decoding.
//!
//! All hardware access (the monotonic clock, interrupt masking, the raw
//! register switch, port I/O) happens outside this crate; every function
//! here is a pure decision or bookkeeping step over plain values, stated
//! in its contract and machine-checked.
pub mod colour;
pub mod gui;
pub mod memory;
pub mod paging;
pub mod rtc;
pub mod scheduler;
pub mod stack;
pub mod thread;
