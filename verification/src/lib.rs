//! The exact half of a small quantum-circuit simulator.
//!
//! A circuit is a list of named qubit declarations followed by a list of
//! instructions: gates on one, two or three qubits, and measurements. This
//! crate owns everything about running one that can be said exactly:
//!
//! - which names are bound to which register positions ([`Bindings`]);
//! - which register cells a gate may read and write ([`Computer`]);
//! - the matrix of each gate, entry by entry ([`Instruction::matrix`]), and
//!   the numbering of the joint basis states of its operands ([`basis_bit`],
//!   [`marginal`]);
//! - in which order instructions run, and when a run halts ([`Executor`]);
//! - how sampled bit-strings are written and counted ([`bit_string`],
//!   [`Sampling`]).
//!
//! The amplitudes themselves are an opaque payload `Q`. A driver evaluates
//! the products and sums that give a gate's images, tests them for unit
//! norm, and draws the samples; it hands the results back, and the executor
//! decides what they mean for the run.

pub mod basis;
pub mod bindings;
pub mod computer;
pub mod count;
pub mod error;
pub mod executor;
pub mod instruction;
pub mod program;
pub mod sampling;
pub mod unitary;

pub use basis::{basis_bit, basis_states, marginal};
pub use bindings::Bindings;
pub use computer::Computer;
pub use count::{parse_count, parse_uint};
pub use error::{Error, Failure};
pub use executor::{Action, Executor, Status};
pub use instruction::Instruction;
pub use program::QCLang;
pub use sampling::{bit_string, MeasureOutput, Sampling};
pub use unitary::Entry;
