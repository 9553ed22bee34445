//! Escape sequence signatures: templates that events are matched against.
use vstd::prelude::*;

use std::ops::Range;

use crate::event::{VTEvent, VTIntermediate};
use crate::{CSI_INTRO, DCS_INTRO, OSC_INTRO, SS3_INTRO};

verus! {

/// A template for an escape sequence: introducer, private byte,
/// intermediates, final byte and a range of parameter counts.
pub struct VTEscapeSignature {
    pub prefix: u8,
    pub private: Option<u8>,
    pub intermediates: VTIntermediate,
    pub final_byte: u8,
    pub param_count: Range<u8>,
}

/// Whether a count of `len` parameters falls in `r` (counts wrap at 256).
pub open spec fn count_in(r: Range<u8>, len: nat) -> bool {
    r.start <= (len % 256) < r.end
}

impl VTEscapeSignature {
    /// What [`VTEscapeSignature::matches`] decides.
    pub open spec fn matches_spec(&self, e: VTEvent) -> bool {
        match e {
            VTEvent::Esc(esc) => self.final_byte == esc.final_byte && self.intermediates
                == esc.intermediates,
            VTEvent::Csi(csi) => self.prefix == CSI_INTRO && self.final_byte == csi.final_byte
                && self.intermediates == csi.intermediates && self.private == csi.private
                && count_in(self.param_count, csi.params@.len()),
            VTEvent::DcsStart(dcs) => self.prefix == DCS_INTRO && self.final_byte == dcs.final_byte
                && self.intermediates == dcs.intermediates && self.private == dcs.private
                && count_in(self.param_count, dcs.params@.len()),
            _ => false,
        }
    }

    pub fn with_private(self, private: u8) -> (r: Self)
        ensures
            r.private == Some(private),
            r.prefix == self.prefix,
            r.intermediates == self.intermediates,
            r.final_byte == self.final_byte,
            r.param_count == self.param_count,
    {
        VTEscapeSignature {
            prefix: self.prefix,
            private: Some(private),
            intermediates: self.intermediates,
            final_byte: self.final_byte,
            param_count: self.param_count,
        }
    }

    pub fn with_intermediate(self, intermediate: u8) -> (r: Self)
        requires
            crate::event::is_intermediate_byte(intermediate),
        ensures
            r.intermediates.bytes() == seq![intermediate],
            r.intermediates.wf(),
            r.prefix == self.prefix,
            r.private == self.private,
            r.final_byte == self.final_byte,
            r.param_count == self.param_count,
    {
        VTEscapeSignature {
            prefix: self.prefix,
            private: self.private,
            intermediates: VTIntermediate::one(intermediate),
            final_byte: self.final_byte,
            param_count: self.param_count,
        }
    }

    pub fn with_params_exact(self, param_count: u8) -> (r: Self)
        requires
            param_count < 255,
        ensures
            r.param_count == (Range { start: param_count, end: (param_count + 1) as u8 }),
            r.prefix == self.prefix,
            r.private == self.private,
            r.intermediates == self.intermediates,
            r.final_byte == self.final_byte,
    {
        VTEscapeSignature {
            prefix: self.prefix,
            private: self.private,
            intermediates: self.intermediates,
            final_byte: self.final_byte,
            param_count: Range { start: param_count, end: param_count + 1 },
        }
    }

    pub fn with_params_count(self, param_count: Range<u8>) -> (r: Self)
        ensures
            r.param_count == param_count,
            r.prefix == self.prefix,
            r.private == self.private,
            r.intermediates == self.intermediates,
            r.final_byte == self.final_byte,
    {
        VTEscapeSignature {
            prefix: self.prefix,
            private: self.private,
            intermediates: self.intermediates,
            final_byte: self.final_byte,
            param_count,
        }
    }

    /// A plain signature with introducer `prefix`: no private byte, no
    /// intermediates, no parameters.
    pub open spec fn plain(prefix: u8, final_byte: u8) -> VTEscapeSignature {
        VTEscapeSignature {
            prefix,
            private: None,
            intermediates: VTIntermediate { b0: 0, b1: 0 },
            final_byte,
            param_count: Range { start: 0, end: 1 },
        }
    }

    fn plain_exec(prefix: u8, final_byte: u8) -> (r: Self)
        ensures
            r == Self::plain(prefix, final_byte),
    {
        VTEscapeSignature {
            prefix,
            private: None,
            intermediates: VTIntermediate::empty(),
            final_byte,
            param_count: Range { start: 0, end: 1 },
        }
    }

    pub fn csi(final_byte: u8) -> (r: Self)
        ensures
            r == Self::plain(CSI_INTRO, final_byte),
    {
        Self::plain_exec(CSI_INTRO, final_byte)
    }

    pub fn ss3(final_byte: u8) -> (r: Self)
        ensures
            r == Self::plain(SS3_INTRO, final_byte),
    {
        Self::plain_exec(SS3_INTRO, final_byte)
    }

    pub fn dcs(final_byte: u8) -> (r: Self)
        ensures
            r == Self::plain(DCS_INTRO, final_byte),
    {
        Self::plain_exec(DCS_INTRO, final_byte)
    }

    pub fn osc(final_byte: u8) -> (r: Self)
        ensures
            r == Self::plain(OSC_INTRO, final_byte),
    {
        Self::plain_exec(OSC_INTRO, final_byte)
    }

    /// Whether `entry` fits this signature. An ESC sequence is compared by
    /// final byte and intermediates; a CSI or DCS header by everything.
    pub fn matches(&self, entry: &VTEvent) -> (r: bool)
        ensures
            r == self.matches_spec(*entry),
    {
        match entry {
            VTEvent::Esc(esc) => self.final_byte == esc.final_byte && self.intermediates.const_eq(
                &esc.intermediates,
            ),
            VTEvent::Csi(csi) => self.prefix == CSI_INTRO && self.final_byte == csi.final_byte
                && self.intermediates.const_eq(&csi.intermediates) && self.const_private_eq(
                &csi.private,
            ) && self.const_contains(csi.params.len()),
            VTEvent::DcsStart(dcs) => self.prefix == DCS_INTRO && self.final_byte
                == dcs.final_byte && self.intermediates.const_eq(&dcs.intermediates)
                && self.const_private_eq(&dcs.private) && self.const_contains(dcs.params.len()),
            _ => false,
        }
    }

    fn const_private_eq(&self, other: &Option<u8>) -> (r: bool)
        ensures
            r == (self.private == *other),
    {
        match (self.private, other) {
            (Some(a), Some(b)) => a == *b,
            (None, None) => true,
            _ => false,
        }
    }

    fn const_contains(&self, len: usize) -> (r: bool)
        ensures
            r == count_in(self.param_count, len as nat),
    {
        let l = (len % 256) as u8;
        self.param_count.start <= l && l < self.param_count.end
    }
}

} // verus!
