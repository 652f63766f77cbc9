//! The memory-consistency argument of a STARK-based virtual machine, and the
//! 64-bit prime field that it is stated over.
//!
//! A log of memory operations is brought into address-then-time order and
//! laid out as a table ([`memory_stark`], [`sorting`], [`flags`], [`lookup`],
//! [`trace`]). Polynomial constraints tie each row of the table to the next
//! ([`constraints`]); they are evaluated directly on field elements and by an
//! arithmetic circuit ([`circuit`], [`memory_circuit`]), and a table can be
//! held against them by either ([`violations`]). The table of a valid log
//! satisfies the constraints ([`completeness`]), and a table that satisfies
//! them is in order and returns on every read what was written
//! ([`soundness`]), because the field order is prime ([`primality`]).

pub mod circuit;
pub mod completeness;
pub mod constraint_consumer;
pub mod constraints;
pub mod flags;
pub mod goldilocks_field;
pub mod log;
pub mod lookup;
pub mod memory_circuit;
pub mod memory_stark;
pub mod number_theory;
pub mod primality;
pub mod random_ops;
pub mod registers;
pub mod sorting;
pub mod soundness;
pub mod trace;
pub mod violations;
