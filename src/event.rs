//! Event types, their byte encoding, and the token model they flatten to.
use vstd::prelude::*;
use vstd::slice::*;

use crate::{BEL, CAN, CSI_INTRO, DCS_INTRO, ESC, OSC_INTRO, SS2_INTRO, SS3_INTRO, ST_FINAL};

verus! {

pub open spec fn is_intermediate_byte(b: u8) -> bool {
    0x20 <= b <= 0x2f
}

/// Up to two intermediate bytes, in the order they arrived. An unused slot
/// holds zero.
#[derive(Clone, Copy, PartialEq, Eq, Structural, Hash, Default, Debug)]
pub struct VTIntermediate {
    pub b0: u8,
    pub b1: u8,
}

impl VTIntermediate {
    /// Slots are filled in order, hold intermediate bytes, and hold no
    /// duplicate.
    pub open spec fn wf(self) -> bool {
        &&& (self.b0 == 0 ==> self.b1 == 0)
        &&& (self.b0 != 0 ==> is_intermediate_byte(self.b0))
        &&& (self.b1 != 0 ==> is_intermediate_byte(self.b1) && self.b1 != self.b0)
    }

    /// The bytes held, in order.
    pub open spec fn bytes(self) -> Seq<u8> {
        if self.b0 == 0 {
            Seq::empty()
        } else if self.b1 == 0 {
            seq![self.b0]
        } else {
            seq![self.b0, self.b1]
        }
    }

    pub fn empty() -> (r: Self)
        ensures
            r == (VTIntermediate { b0: 0, b1: 0 }),
            r.wf(),
            r.bytes() == Seq::<u8>::empty(),
    {
        VTIntermediate { b0: 0, b1: 0 }
    }

    pub fn one(c: u8) -> (r: Self)
        requires
            is_intermediate_byte(c),
        ensures
            r.wf(),
            r.bytes() == seq![c],
    {
        VTIntermediate { b0: c, b1: 0 }
    }

    pub fn two(c1: u8, c2: u8) -> (r: Self)
        requires
            is_intermediate_byte(c1),
            is_intermediate_byte(c2),
            c1 != c2,
        ensures
            r.wf(),
            r.bytes() == seq![c1, c2],
    {
        VTIntermediate { b0: c1, b1: c2 }
    }

    /// Whether `c` is one of the bytes held.
    pub fn has(&self, c: u8) -> (r: bool)
        ensures
            r == self.bytes().contains(c),
    {
        let r = if self.b0 == 0 {
            false
        } else if self.b1 == 0 {
            self.b0 == c
        } else {
            self.b0 == c || self.b1 == c
        };
        proof {
            if r {
                if self.b0 == c {
                    assert(self.bytes()[0] == c);
                } else {
                    assert(self.bytes()[1] == c);
                }
            }
        }
        r
    }

    pub fn clear(&mut self)
        ensures
            final(self).wf(),
            final(self).bytes() == Seq::<u8>::empty(),
    {
        self.b0 = 0;
        self.b1 = 0;
    }

    pub fn is_empty(&self) -> (r: bool)
        requires
            self.wf(),
        ensures
            r == (self.bytes().len() == 0),
    {
        self.b0 == 0 && self.b1 == 0
    }

    pub fn len(&self) -> (r: usize)
        requires
            self.wf(),
        ensures
            r == self.bytes().len(),
    {
        if self.b0 == 0 {
            0
        } else if self.b1 == 0 {
            1
        } else {
            2
        }
    }

    pub fn first(&self) -> (r: Option<u8>)
        requires
            self.wf(),
        ensures
            r == (if self.bytes().len() >= 1 { Some(self.bytes()[0]) } else { None::<u8> }),
    {
        if self.b0 != 0 {
            Some(self.b0)
        } else {
            None
        }
    }

    pub fn second(&self) -> (r: Option<u8>)
        requires
            self.wf(),
        ensures
            r == (if self.bytes().len() >= 2 { Some(self.bytes()[1]) } else { None::<u8> }),
    {
        if self.b1 != 0 {
            Some(self.b1)
        } else {
            None
        }
    }

    /// What [`VTIntermediate::push`] does: `None` when the byte is refused.
    pub open spec fn pushed(self, c: u8) -> Option<VTIntermediate> {
        if !is_intermediate_byte(c) || self.b0 == c {
            None
        } else if self.b0 == 0 {
            Some(VTIntermediate { b0: c, b1: 0 })
        } else if self.b1 == 0 {
            Some(VTIntermediate { b0: self.b0, b1: c })
        } else {
            None
        }
    }

    /// Appends `c`. Refuses (returns false and changes nothing) a byte that is
    /// not an intermediate, a duplicate of the first byte, or a third byte.
    pub fn push(&mut self, c: u8) -> (r: bool)
        requires
            old(self).wf(),
        ensures
            r == old(self).pushed(c).is_some(),
            r ==> *final(self) == old(self).pushed(c).unwrap(),
            !r ==> *final(self) == *old(self),
            final(self).wf(),
            r ==> final(self).bytes() == old(self).bytes().push(c),
    {
        if !(c >= 0x20 && c <= 0x2f) {
            return false;
        }
        if self.b0 == c {
            return false;
        }
        if self.b0 == 0 {
            self.b0 = c;
            true
        } else if self.b1 == 0 {
            self.b1 = c;
            true
        } else {
            false
        }
    }

    pub fn const_eq(&self, other: &Self) -> (r: bool)
        ensures
            r == (*self == *other),
    {
        self.b0 == other.b0 && self.b1 == other.b1
    }

    pub fn byte_len(&self) -> (r: usize)
        requires
            self.wf(),
        ensures
            r == self.bytes().len(),
    {
        self.len()
    }

    /// The bytes held, as a vector.
    pub fn to_vec(&self) -> (r: Vec<u8>)
        requires
            self.wf(),
        ensures
            r@ == self.bytes(),
    {
        let mut v: Vec<u8> = Vec::new();
        if self.b0 != 0 {
            v.push(self.b0);
            if self.b1 != 0 {
                v.push(self.b1);
            }
        }
        proof {
            assert(v@ =~= self.bytes());
        }
        v
    }
}

/// An escape sequence that recovery gave up on, without its leading ESC.
#[derive(Clone, Copy, PartialEq, Eq, Structural, Hash, Debug)]
pub enum EscInvalid {
    One(u8),
    Two(u8, u8),
    Three(u8, u8, u8),
    Four(u8, u8, u8, u8),
}

impl EscInvalid {
    /// The bytes after the ESC.
    pub open spec fn bytes(self) -> Seq<u8> {
        match self {
            EscInvalid::One(a) => seq![a],
            EscInvalid::Two(a, b) => seq![a, b],
            EscInvalid::Three(a, b, c) => seq![a, b, c],
            EscInvalid::Four(a, b, c, d) => seq![a, b, c, d],
        }
    }
}

/// A complete `ESC` sequence: optional private byte, intermediates, final.
#[derive(Clone, Copy, PartialEq, Eq, Structural, Hash, Debug)]
pub struct Esc {
    pub intermediates: VTIntermediate,
    pub private: Option<u8>,
    pub final_byte: u8,
}

/// `ESC N` and the byte it shifts.
#[derive(Clone, Copy, PartialEq, Eq, Structural, Hash, Debug)]
pub struct SS2 {
    pub char: u8,
}

/// `ESC O` and the byte it shifts.
#[derive(Clone, Copy, PartialEq, Eq, Structural, Hash, Debug)]
pub struct SS3 {
    pub char: u8,
}


/// The parameter list of a CSI or DCS header: `;`-separated, colons kept.
#[derive(Clone, PartialEq, Eq, Hash, Debug, Default)]
pub struct ParamBuf {
    pub params: Vec<Vec<u8>>,
}

/// The contents of each vector.
pub open spec fn byte_seqs(v: Seq<Vec<u8>>) -> Seq<Seq<u8>> {
    v.map_values(|p: Vec<u8>| p@)
}

impl View for ParamBuf {
    type V = Seq<Seq<u8>>;

    open spec fn view(&self) -> Seq<Seq<u8>> {
        byte_seqs(self.params@)
    }
}

/// The parameters joined by `;`, as they stand on the wire.
pub open spec fn join_params(ps: Seq<Seq<u8>>) -> Seq<u8>
    decreases ps.len(),
{
    if ps.len() == 0 {
        Seq::empty()
    } else if ps.len() == 1 {
        ps[0]
    } else {
        join_params(ps.drop_last()) + seq![0x3bu8] + ps.last()
    }
}

/// A complete control sequence (`ESC [`).
#[derive(Clone, PartialEq, Eq, Hash, Debug)]
pub struct CSI {
    pub private: Option<u8>,
    pub params: ParamBuf,
    pub intermediates: VTIntermediate,
    pub final_byte: u8,
}

/// The header of a device control string (`ESC P`).
#[derive(Clone, PartialEq, Eq, Hash, Debug)]
pub struct DCS {
    pub private: Option<u8>,
    pub params: ParamBuf,
    pub intermediates: VTIntermediate,
    pub final_byte: u8,
}

/// Which stream a body byte belongs to.
#[derive(Clone, Copy, PartialEq, Eq, Structural, Hash, Debug)]
pub enum VTEmit {
    /// Text in the ground state.
    Ground,
    /// The body of a device control string.
    Dcs,
    /// The body of an operating system command.
    Osc,
}

/// An event of the parser. Bodies are handed out in as many pieces as the
/// input's shape needs; [`Tok`] is the piece-independent view of a trace.
#[derive(Clone, PartialEq, Eq, Hash, Debug)]
pub enum VTEvent {
    /// Printable text from the ground state, coalesced.
    Raw(Vec<u8>),
    /// A control byte executed in the ground state.
    C0(u8),
    Esc(Esc),
    EscInvalid(EscInvalid),
    Ss2(SS2),
    Ss3(SS3),
    Csi(CSI),
    DcsStart(DCS),
    DcsData(Vec<u8>),
    /// The last piece of a DCS body, sent with its terminator.
    DcsEnd(Vec<u8>),
    DcsCancel,
    OscStart,
    OscData(Vec<u8>),
    /// The last piece of an OSC body, sent with its terminator.
    OscEnd { data: Vec<u8>, used_bel: bool },
    OscCancel,
}

/// A trace with every body cut into single bytes: two traces that differ
/// only in how bodies were split have the same tokens.
pub enum Tok {
    Data(VTEmit, u8),
    C0(u8),
    Esc(Esc),
    EscInvalid(EscInvalid),
    Ss2(u8),
    Ss3(u8),
    Csi(Option<u8>, Seq<Seq<u8>>, VTIntermediate, u8),
    DcsStart(Option<u8>, Seq<Seq<u8>>, VTIntermediate, u8),
    DcsEnd,
    DcsCancel,
    OscStart,
    OscEnd(bool),
    OscCancel,
}

pub open spec fn data_toks(k: VTEmit, s: Seq<u8>) -> Seq<Tok> {
    s.map_values(|b: u8| Tok::Data(k, b))
}

/// The tokens of a trace.
pub open spec fn flatten(evs: Seq<VTEvent>) -> Seq<Tok>
    decreases evs.len(),
{
    if evs.len() == 0 {
        Seq::empty()
    } else {
        flatten(evs.drop_last()) + evs.last().toks()
    }
}

pub open spec fn opt_seq(p: Option<u8>) -> Seq<u8> {
    match p {
        Some(b) => seq![b],
        None => Seq::empty(),
    }
}

impl VTEvent {
    pub open spec fn toks(self) -> Seq<Tok> {
        match self {
            VTEvent::Raw(v) => data_toks(VTEmit::Ground, v@),
            VTEvent::C0(b) => seq![Tok::C0(b)],
            VTEvent::Esc(e) => seq![Tok::Esc(e)],
            VTEvent::EscInvalid(e) => seq![Tok::EscInvalid(e)],
            VTEvent::Ss2(s) => seq![Tok::Ss2(s.char)],
            VTEvent::Ss3(s) => seq![Tok::Ss3(s.char)],
            VTEvent::Csi(c) => seq![Tok::Csi(c.private, c.params@, c.intermediates, c.final_byte)],
            VTEvent::DcsStart(d) => seq![
                Tok::DcsStart(d.private, d.params@, d.intermediates, d.final_byte),
            ],
            VTEvent::DcsData(v) => data_toks(VTEmit::Dcs, v@),
            VTEvent::DcsEnd(v) => data_toks(VTEmit::Dcs, v@).push(Tok::DcsEnd),
            VTEvent::DcsCancel => seq![Tok::DcsCancel],
            VTEvent::OscStart => seq![Tok::OscStart],
            VTEvent::OscData(v) => data_toks(VTEmit::Osc, v@),
            VTEvent::OscEnd { data, used_bel } => data_toks(VTEmit::Osc, data@).push(
                Tok::OscEnd(used_bel),
            ),
            VTEvent::OscCancel => seq![Tok::OscCancel],
        }
    }

    /// Which kind of event this is.
    pub open spec fn variant(self) -> int {
        match self {
            VTEvent::Raw(_) => 0,
            VTEvent::C0(_) => 1,
            VTEvent::Esc(_) => 2,
            VTEvent::EscInvalid(_) => 3,
            VTEvent::Ss2(_) => 4,
            VTEvent::Ss3(_) => 5,
            VTEvent::Csi(_) => 6,
            VTEvent::DcsStart(_) => 7,
            VTEvent::DcsData(_) => 8,
            VTEvent::DcsEnd(_) => 9,
            VTEvent::DcsCancel => 10,
            VTEvent::OscStart => 11,
            VTEvent::OscData(_) => 12,
            VTEvent::OscEnd { .. } => 13,
            VTEvent::OscCancel => 14,
        }
    }

    /// Headers hold well-formed intermediates.
    pub open spec fn wf(self) -> bool {
        match self {
            VTEvent::Esc(e) => e.intermediates.wf(),
            VTEvent::Csi(c) => c.intermediates.wf(),
            VTEvent::DcsStart(d) => d.intermediates.wf(),
            _ => true,
        }
    }

    /// The bytes that stand for this event on the wire.
    pub open spec fn encoded(self) -> Seq<u8> {
        match self {
            VTEvent::Raw(v) => v@,
            VTEvent::C0(b) => seq![b],
            VTEvent::Esc(e) => seq![ESC] + opt_seq(e.private) + e.intermediates.bytes() + seq![
                e.final_byte,
            ],
            VTEvent::EscInvalid(e) => seq![ESC] + e.bytes(),
            VTEvent::Ss2(s) => seq![ESC, SS2_INTRO, s.char],
            VTEvent::Ss3(s) => seq![ESC, SS3_INTRO, s.char],
            VTEvent::Csi(c) => seq![ESC, CSI_INTRO] + opt_seq(c.private) + join_params(c.params@)
                + c.intermediates.bytes() + seq![c.final_byte],
            VTEvent::DcsStart(d) => seq![ESC, DCS_INTRO] + opt_seq(d.private) + join_params(
                d.params@,
            ) + d.intermediates.bytes() + seq![d.final_byte],
            VTEvent::DcsData(v) => v@,
            VTEvent::DcsEnd(v) => v@ + seq![ESC, ST_FINAL],
            VTEvent::DcsCancel => seq![CAN],
            VTEvent::OscStart => seq![ESC, OSC_INTRO],
            VTEvent::OscData(v) => v@,
            VTEvent::OscEnd { data, used_bel } => if used_bel {
                data@ + seq![BEL]
            } else {
                data@ + seq![ESC, ST_FINAL]
            },
            VTEvent::OscCancel => seq![CAN],
        }
    }
}

fn push_opt(out: &mut Vec<u8>, p: Option<u8>)
    ensures
        final(out)@ == old(out)@ + opt_seq(p),
{
    if let Some(b) = p {
        out.push(b);
    }
    proof {
        assert(final(out)@ =~= old(out)@ + opt_seq(p));
    }
}

fn push_intermediates(out: &mut Vec<u8>, ints: &VTIntermediate)
    requires
        ints.wf(),
    ensures
        final(out)@ == old(out)@ + ints.bytes(),
{
    let v = ints.to_vec();
    out.extend_from_slice(v.as_slice());
}

pub(crate) fn push_params(out: &mut Vec<u8>, params: &ParamBuf)
    ensures
        final(out)@ == old(out)@ + join_params(params@),
{
    let ghost start = out@;
    let mut i: usize = 0;
    while i < params.params.len()
        invariant
            0 <= i <= params.params.len(),
            out@ == start + join_params(params@.take(i as int)),
        decreases params.params.len() - i,
    {
        let ghost before = out@;
        if i > 0 {
            out.push(0x3b);
        }
        out.extend_from_slice(params.params[i].as_slice());
        proof {
            let ps = params@.take(i as int + 1);
            assert(ps.drop_last() =~= params@.take(i as int));
            assert(ps.last() == params.params@[i as int]@);
            if i == 0 {
                assert(out@ =~= start + join_params(ps));
            } else {
                assert(out@ =~= start + join_params(ps));
            }
        }
        i += 1;
    }
    proof {
        assert(params@.take(params.params.len() as int) =~= params@);
    }
}

impl VTEvent {
    /// Appends this event's wire bytes to `out`.
    pub fn encode_to_vec(&self, out: &mut Vec<u8>)
        requires
            self.wf(),
        ensures
            final(out)@ == old(out)@ + self.encoded(),
    {
        let ghost start = out@;
        match self {
            VTEvent::Raw(v) | VTEvent::DcsData(v) | VTEvent::OscData(v) => {
                out.extend_from_slice(v.as_slice());
            },
            VTEvent::C0(b) => {
                out.push(*b);
            },
            VTEvent::Esc(e) => {
                out.push(ESC);
                push_opt(out, e.private);
                push_intermediates(out, &e.intermediates);
                out.push(e.final_byte);
            },
            VTEvent::EscInvalid(e) => {
                out.push(ESC);
                match e {
                    EscInvalid::One(a) => {
                        out.push(*a);
                    },
                    EscInvalid::Two(a, b) => {
                        out.push(*a);
                        out.push(*b);
                    },
                    EscInvalid::Three(a, b, c) => {
                        out.push(*a);
                        out.push(*b);
                        out.push(*c);
                    },
                    EscInvalid::Four(a, b, c, d) => {
                        out.push(*a);
                        out.push(*b);
                        out.push(*c);
                        out.push(*d);
                    },
                }
            },
            VTEvent::Ss2(s) => {
                out.push(ESC);
                out.push(SS2_INTRO);
                out.push(s.char);
            },
            VTEvent::Ss3(s) => {
                out.push(ESC);
                out.push(SS3_INTRO);
                out.push(s.char);
            },
            VTEvent::Csi(c) => {
                out.push(ESC);
                out.push(CSI_INTRO);
                push_opt(out, c.private);
                push_params(out, &c.params);
                push_intermediates(out, &c.intermediates);
                out.push(c.final_byte);
            },
            VTEvent::DcsStart(d) => {
                out.push(ESC);
                out.push(DCS_INTRO);
                push_opt(out, d.private);
                push_params(out, &d.params);
                push_intermediates(out, &d.intermediates);
                out.push(d.final_byte);
            },
            VTEvent::DcsEnd(v) => {
                out.extend_from_slice(v.as_slice());
                out.push(ESC);
                out.push(ST_FINAL);
            },
            VTEvent::DcsCancel | VTEvent::OscCancel => {
                out.push(CAN);
            },
            VTEvent::OscStart => {
                out.push(ESC);
                out.push(OSC_INTRO);
            },
            VTEvent::OscEnd { data, used_bel } => {
                out.extend_from_slice(data.as_slice());
                if *used_bel {
                    out.push(BEL);
                } else {
                    out.push(ESC);
                    out.push(ST_FINAL);
                }
            },
        }
        proof {
            assert(out@ =~= start + self.encoded());
        }
    }

    /// The number of bytes [`VTEvent::encode`] writes.
    pub fn byte_len(&self) -> (r: usize)
        requires
            self.wf(),
        ensures
            r == self.encoded().len(),
    {
        let mut v: Vec<u8> = Vec::new();
        self.encode_to_vec(&mut v);
        proof {
            assert(v@ =~= self.encoded());
        }
        v.len()
    }

    /// Writes this event's wire bytes to the front of `buf`. Returns their
    /// number, in `Err` when `buf` is too short (and then writes nothing).
    pub fn encode(&self, buf: &mut [u8]) -> (r: Result<usize, usize>)
        requires
            self.wf(),
        ensures
            match r {
                Ok(n) => {
                    &&& n == self.encoded().len()
                    &&& n <= old(buf)@.len()
                    &&& final(buf)@ == self.encoded() + old(buf)@.skip(n as int)
                },
                Err(n) => {
                    &&& n == self.encoded().len()
                    &&& n > old(buf)@.len()
                    &&& final(buf)@ == old(buf)@
                },
            },
    {
        let mut v: Vec<u8> = Vec::new();
        self.encode_to_vec(&mut v);
        assert(v@ =~= self.encoded());
        let n = v.len();
        if n > buf.len() {
            return Err(n);
        }
        let ghost orig = buf@;
        let mut i: usize = 0;
        while i < n
            invariant
                0 <= i <= n,
                n == v@.len(),
                n <= orig.len(),
                buf@.len() == orig.len(),
                forall|j: int| 0 <= j < i ==> buf@[j] == v@[j],
                forall|j: int| i <= j < orig.len() ==> buf@[j] == orig[j],
            decreases n - i,
        {
            buf.set(i, v[i]);
            i += 1;
        }
        proof {
            assert(buf@ =~= v@ + orig.skip(n as int));
        }
        Ok(n)
    }
}

/// The encodings of a trace, in order.
pub open spec fn encode_all(evs: Seq<VTEvent>) -> Seq<u8>
    decreases evs.len(),
{
    if evs.len() == 0 {
        Seq::empty()
    } else {
        encode_all(evs.drop_last()) + evs.last().encoded()
    }
}

} // verus!
