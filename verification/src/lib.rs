//! Telemetry session protocol: framing, transmission bookkeeping and tolerant
//! decoding of newline-delimited metric records exchanged between an agent and
//! a collector.
//!
//! An agent turns each [`sample::Sample`] into a record with
//! [`encoder::encode_record`] and lets its
//! [`connection::ConnectionManager`] decide what follows each attempt to send
//! or to connect. A collector feeds the bytes it reads to a
//! [`session::Session`], which cuts them into lines ([`frame`]), decodes each
//! candidate line ([`decoder`]) and hands out the samples in stream order,
//! with a notice for every line it had to drop. [`wire`] states what ties the
//! two ends together, [`presenter`] and [`command`] hold the rules of the
//! collector's console, and [`text`] the text primitives underneath.

pub mod metric;
pub mod text;
pub mod sample;
pub mod encoder;
pub mod frame;
pub mod decoder;
pub mod session;
pub mod connection;
pub mod command;
pub mod presenter;
pub mod wire;
