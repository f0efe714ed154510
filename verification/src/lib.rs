//! Sampling metrics from probes that write JSON to their standard output.
//!
//! A probe is a program such as `sensors` or `intel_gpu_top`. Its output is a
//! stream of JSON documents with nothing between them. This library holds the
//! rules by which that stream becomes points for a time-series store:
//!
//! - [`framer`] cuts the bytes read from a probe into documents;
//! - [`json_ptr`] builds the paths by which numbers are found in a document;
//! - [`sampler`] takes a fixed number of documents per cycle and reads the
//!   configured values out of each;
//! - [`point`] puts the averages of a cycle together with the name and tags
//!   of their source;
//! - [`cycle`] paces the whole: tick, sample every source, write, tick again;
//! - [`config`] and [`probe`] hold the settings and say how a probe is called.
//!
//! None of this reads, writes, waits or computes with floating-point numbers.
//! Starting processes, reading their output, queueing documents, averaging
//! and writing to the store are left to the program that uses the library; a
//! reading passes through here as the bit pattern of a 64-bit float. Documents
//! are decoded and searched by `serde_json`, the calls to which are gathered in
//! [`json`].
pub mod config;
pub mod cycle;
pub mod framer;
pub mod json;
pub mod json_ptr;
pub mod point;
pub mod probe;
pub mod sampler;
pub mod text;
