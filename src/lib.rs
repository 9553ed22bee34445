//! A streaming push parser for the VT/xterm protocol.
//!
//! Bytes go in through [`parser::VTPushParser::feed`] (or one of the callback
//! entry points) and come out as [`event::VTEvent`]s.
//!
//! - [`model`]: the automaton as a byte-level transducer, [`model::step`] and
//!   [`model::run`]. Every entry point of the parser is proved to follow it.
//! - [`parser`]: the parser, its state handlers and the feed entry points;
//!   [`header`] holds the parameter being read.
//! - [`event`]: events, their wire encoding, and [`event::Tok`], the view of a
//!   trace that does not depend on how bodies were split.
//! - [`laws`] and [`roundtrip`]: chunking, abort resumption, framing,
//!   interest filtering and re-encoding, proved over [`model::run`].
//! - [`capture`]: diverting raw input after an event.
//! - [`strip`], [`params`], [`signature`], [`ascii`], [`input`]: utilities
//!   built on the parser.
use vstd::prelude::*;

pub mod ascii;
pub mod capture;
pub mod event;
pub mod header;
pub mod input;
pub mod laws;
pub mod model;
pub mod params;
pub mod parser;
pub mod roundtrip;
pub mod signature;
pub mod strip;

pub use event::{Esc, EscInvalid, SS2, SS3, VTIntermediate};

verus! {

/// Escape.
pub const ESC: u8 = 0x1b;
/// Bell: ends an OSC string.
pub const BEL: u8 = 0x07;
/// Delete.
pub const DEL: u8 = 0x7f;
/// Cancel: aborts any sequence.
pub const CAN: u8 = 0x18;
/// Substitute: aborts any sequence.
pub const SUB: u8 = 0x1a;
/// `ESC [` introduces a control sequence.
pub const CSI_INTRO: u8 = 0x5b;
/// `ESC ]` introduces an operating system command.
pub const OSC_INTRO: u8 = 0x5d;
/// `ESC N` is single shift 2.
pub const SS2_INTRO: u8 = 0x4e;
/// `ESC O` is single shift 3.
pub const SS3_INTRO: u8 = 0x4f;
/// `ESC P` introduces a device control string.
pub const DCS_INTRO: u8 = 0x50;
/// `ESC _` introduces an application program command.
pub const APC_INTRO: u8 = 0x5f;
/// `ESC ^` introduces a privacy message.
pub const PM_INTRO: u8 = 0x5e;
/// `ESC X` introduces a start of string.
pub const SOS_INTRO: u8 = 0x58;
/// `ESC \` is the string terminator.
pub const ST_FINAL: u8 = 0x5c;

/// No events but text and C0 controls.
pub const VT_PARSER_INTEREST_NONE: u8 = 0;
/// Request CSI events.
pub const VT_PARSER_INTEREST_CSI: u8 = 1;
/// Request DCS events.
pub const VT_PARSER_INTEREST_DCS: u8 = 2;
/// Request OSC events.
pub const VT_PARSER_INTEREST_OSC: u8 = 4;
/// Request escape recovery events.
pub const VT_PARSER_INTEREST_ESCAPE_RECOVERY: u8 = 16;
/// Request ESC, SS2 and SS3 events.
pub const VT_PARSER_INTEREST_OTHER: u8 = 32;
/// Read `:` in a DCS header as a sub-parameter separator, as in CSI,
/// instead of giving up the whole sequence.
pub const VT_PARSER_DCS_COLON_PARAMS: u8 = 8;
/// Request all events: CSI, DCS, OSC, escape recovery and other.
pub const VT_PARSER_INTEREST_ALL: u8 = 55;
/// Default interest: CSI, DCS, OSC and other, without escape recovery.
pub const VT_PARSER_INTEREST_DEFAULT: u8 = 39;

} // verus!
