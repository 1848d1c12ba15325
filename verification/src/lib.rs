//! Trimming of GPS track documents (GPX) to a time window.
//!
//! A document is read into its markup events ([`reader`]), and only the
//! track points whose time lies in a window are written back, with
//! everything around them as it was ([`filter`]). The window is either
//! given as a pair of offsets from the earliest time in the document
//! ([`range`], [`scan`]) or found as the part of the track in which
//! something moved ([`activity`]). [`commands`] puts the pieces together.
//!
//! [`filter_laws`] and [`point_laws`] state what holds of the filter on
//! every document, [`scan_laws`] how the filter and the two read-only
//! passes agree.

pub mod activity;
pub mod bytes;
pub mod commands;
pub mod decimal;
pub mod event;
pub mod filter;
pub mod filter_laws;
pub mod instant;
pub mod point_laws;
pub mod range;
pub mod reader;
pub mod scan;
pub mod scan_laws;
