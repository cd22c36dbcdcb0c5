//! Demultiplexing of Solana Constellation pshreds by proposer.
//!
//! A router program looks at each frame that arrives on an interface, checks
//! the pshred header in its UDP payload, and hands the frame to the AF_XDP
//! socket of the proposer that the header names. A loader sets the sockets up
//! and drains them.
//!
//! * [`wire`] is the header format, [`bytes`] the integers in it, and [`cycle`]
//!   the rule that ties pslices to cycles.
//! * [`packet`] reads the link, network and transport headers, and [`router`]
//!   decides about a frame.
//! * [`stats`] counts what was decided.
//! * [`afxdp`] keeps the loader's buffers and tallies, and [`control`] its
//!   loops.
//! * [`tasks`] is the developer tasks, [`window`] the counts of the baseline
//!   receiver, and [`text`] what the others write.

pub mod afxdp;
pub mod bytes;
pub mod control;
pub mod cycle;
pub mod packet;
pub mod router;
pub mod stats;
pub mod tasks;
pub mod text;
pub mod window;
pub mod wire;

pub use cycle::{validate_cycle_bounds, MU};
pub use wire::{
    PshredHeader, GAMMA_P, MAX_PROPOSERS, OFF_COMMITMENT, OFF_CYCLE, OFF_EPOCH, OFF_MERKLE,
    OFF_PROPOSER, OFF_PSLICE, OFF_SHRED_IDX, OFF_SIG, PSHRED_FIXED_LEN, PSHRED_UDP_PORT,
};
