//! The push parser.
use vstd::prelude::*;

use crate::event::{
    CSI, DCS, Esc, EscInvalid, ParamBuf, SS2, SS3, Tok, VTEmit, VTEvent, VTIntermediate, byte_seqs,
    data_toks, flatten,
};
use crate::header::{
    LIST_CAP, PARAM_CAP, ParamBytes, ParamList, list_new, list_push, list_slice, param_bytes, param_list,
    param_new, param_push, param_slice,
};
use crate::model::{
    PState, State, capped_push, core_step, finish_step, has_flag, idle_step, is_c0_byte, is_digit_byte,
    is_esc_final_byte, is_final_byte, is_printable_byte, is_private_byte, keep, run, step, wanted,
};
use crate::{
    APC_INTRO, BEL, CAN, CSI_INTRO, DCS_INTRO, DEL, ESC, OSC_INTRO, PM_INTRO, SOS_INTRO, SS2_INTRO,
    SS3_INTRO, ST_FINAL, SUB, VT_PARSER_DCS_COLON_PARAMS, VT_PARSER_INTEREST_CSI,
    VT_PARSER_INTEREST_DCS, VT_PARSER_INTEREST_DEFAULT, VT_PARSER_INTEREST_ESCAPE_RECOVERY, VT_PARSER_INTEREST_OSC,
    VT_PARSER_INTEREST_OTHER,
};

verus! {

/// How a body ends.
#[derive(Clone, Copy, PartialEq, Eq, Structural, Debug)]
pub enum VTEnd {
    Dcs,
    Osc { used_bel: bool },
}

/// What one byte did.
pub enum VTAction {
    /// Nothing to hand out.
    Nothing,
    /// A complete event.
    Event(VTEvent),
    /// The byte is body text of this stream.
    Data(VTEmit),
    /// A held ESC turned out to be body text; a new ESC is held.
    Release(VTEmit),
    /// A held ESC and this byte are body text.
    ReleaseData(VTEmit),
    /// The body ended.
    End(VTEnd),
    /// The body was cancelled.
    Cancel(VTEmit),
}

impl VTAction {
    /// The tokens of this action, for byte `b`.
    pub open spec fn toks(self, b: u8) -> Seq<Tok> {
        match self {
            VTAction::Nothing => Seq::empty(),
            VTAction::Event(e) => e.toks(),
            VTAction::Data(k) => seq![Tok::Data(k, b)],
            VTAction::Release(k) => seq![Tok::Data(k, ESC)],
            VTAction::ReleaseData(k) => seq![Tok::Data(k, ESC), Tok::Data(k, b)],
            VTAction::End(VTEnd::Dcs) => seq![Tok::DcsEnd],
            VTAction::End(VTEnd::Osc { used_bel }) => seq![Tok::OscEnd(used_bel)],
            VTAction::Cancel(k) => if k == VTEmit::Dcs {
                seq![Tok::DcsCancel]
            } else if k == VTEmit::Osc {
                seq![Tok::OscCancel]
            } else {
                Seq::empty()
            },
        }
    }

    pub open spec fn wf(self) -> bool {
        match self {
            VTAction::Event(e) => e.wf() && is_header_event(e),
            VTAction::Cancel(k) => k != VTEmit::Ground,
            _ => true,
        }
    }
}

/// Events that come out whole from one byte.
pub open spec fn is_header_event(e: VTEvent) -> bool {
    match e {
        VTEvent::C0(_) | VTEvent::Esc(_) | VTEvent::EscInvalid(_) | VTEvent::Ss2(_)
        | VTEvent::Ss3(_) | VTEvent::Csi(_) | VTEvent::DcsStart(_) | VTEvent::OscStart => true,
        _ => false,
    }
}

pub fn is_c0(b: u8) -> (r: bool)
    ensures
        r == is_c0_byte(b),
{
    b <= 0x1f && b != 0x0d && b != 0x0a && b != 0x09
}

pub fn is_printable(b: u8) -> (r: bool)
    ensures
        r == is_printable_byte(b),
{
    b >= 0x20 && b <= 0x7e
}

pub fn is_intermediate(b: u8) -> (r: bool)
    ensures
        r == crate::event::is_intermediate_byte(b),
{
    b >= 0x20 && b <= 0x2f
}

pub fn is_final(b: u8) -> (r: bool)
    ensures
        r == is_final_byte(b),
{
    b >= 0x40 && b <= 0x7e
}

pub fn is_esc_final(b: u8) -> (r: bool)
    ensures
        r == is_esc_final_byte(b),
{
    b >= 0x30 && b <= 0x7e
}

pub fn is_digit(b: u8) -> (r: bool)
    ensures
        r == is_digit_byte(b),
{
    b >= 0x30 && b <= 0x39
}

pub fn is_priv(b: u8) -> (r: bool)
    ensures
        r == is_private_byte(b),
{
    b == 0x3c || b == 0x3d || b == 0x3e || b == 0x3f
}

/// A push parser for the VT/xterm protocol. Events of the classes that the
/// interest mask leaves out are parsed and dropped.
pub struct VTPushParser {
    st: State,
    ints: VTIntermediate,
    params: ParamList,
    cur_param: ParamBytes,
    priv_prefix: Option<u8>,
    interest: u8,
    /// Events that an aborted callback did not take yet.
    pending: Vec<VTEvent>,
}

impl View for VTPushParser {
    type V = PState;

    closed spec fn view(&self) -> PState {
        PState {
            st: self.st,
            ints: self.ints,
            params: byte_seqs(param_list(self.params)),
            cur: param_bytes(self.cur_param),
            private: self.priv_prefix,
            interest: self.interest,
        }
    }
}

impl VTPushParser {
    /// Events that are owed to the caller from an aborted feed.
    pub closed spec fn pending(&self) -> Seq<VTEvent> {
        self.pending@
    }

    pub closed spec fn wf(&self) -> bool {
        &&& self.ints.wf()
        &&& forall|i: int| 0 <= i < self.pending@.len() ==> (#[trigger] self.pending@[i]).wf()
        &&& all_nonempty(toks_list(self.pending@))
    }

    /// A parser with the default interest.
    pub fn new() -> (r: Self)
        ensures
            r.wf(),
            r@ == initial(VT_PARSER_INTEREST_DEFAULT),
            r.pending() == Seq::<VTEvent>::empty(),
    {
        Self::new_with_interest(VT_PARSER_INTEREST_DEFAULT)
    }

    /// A parser that hands out the event classes in `interest`.
    pub fn new_with_interest(interest: u8) -> (r: Self)
        ensures
            r.wf(),
            r@ == initial(interest),
            r.pending() == Seq::<VTEvent>::empty(),
    {
        let r = VTPushParser {
            st: State::Ground,
            ints: VTIntermediate::empty(),
            params: list_new(),
            cur_param: param_new(),
            priv_prefix: None,
            interest,
            pending: Vec::new(),
        };
        proof {
            assert(r@.params =~= Seq::<Seq<u8>>::empty());
            assert(r@.cur =~= Seq::<u8>::empty());
        }
        r
    }

    /// Returns true if the parser is in the ground state.
    pub fn is_ground(&self) -> (r: bool)
        ensures
            r == (self@.st == State::Ground),
    {
        self.st == State::Ground
    }

    fn has(&self, flag: u8) -> (r: bool)
        ensures
            r == has_flag(self@.interest, flag),
    {
        self.interest & flag != 0
    }

    fn goto(&mut self, st: State)
        ensures
            final(self)@ == old(self)@.goto(st),
            final(self).pending == old(self).pending,
    {
        self.st = st;
    }

    /// Enter `Escape` with empty header collectors.
    fn enter_escape(&mut self)
        ensures
            final(self)@ == old(self)@.escape(),
            final(self).pending == old(self).pending,
    {
        self.st = State::Escape;
        self.ints.clear();
        self.params = list_new();
        self.cur_param = param_new();
        self.priv_prefix = None;
        proof {
            assert(self@.params =~= Seq::<Seq<u8>>::empty());
            assert(self@.cur =~= Seq::<u8>::empty());
        }
    }

    fn next_param(&mut self)
        ensures
            final(self)@ == old(self)@.next_param(),
            final(self).pending == old(self).pending,
    {
        let mut p: Vec<u8> = Vec::new();
        p.extend_from_slice(param_slice(&self.cur_param));
        assert(p@ =~= old(self)@.cur);
        if list_slice(&self.params).len() < LIST_CAP {
            list_push(&mut self.params, p);
            proof {
                assert(self@.params =~= old(self)@.params.push(old(self)@.cur));
            }
        }
        self.cur_param = param_new();
        proof {
            assert(self@.cur =~= Seq::<u8>::empty());
        }
    }

    fn finish_params_if_any(&mut self)
        ensures
            final(self)@ == old(self)@.finish_params(),
            final(self).pending == old(self).pending,
    {
        if param_slice(&self.cur_param).len() > 0 || list_slice(&self.params).len() > 0 {
            self.next_param();
        }
    }

    fn push_cur(&mut self, b: u8)
        ensures
            final(self)@ == (PState { cur: capped_push(old(self)@.cur, b), ..old(self)@ }),
            final(self).pending == old(self).pending,
    {
        if param_slice(&self.cur_param).len() < PARAM_CAP {
            param_push(&mut self.cur_param, b);
        }
    }

    fn param_buf(&self) -> (r: ParamBuf)
        ensures
            r@ == self@.params,
    {
        let ps = list_slice(&self.params);
        let mut v: Vec<Vec<u8>> = Vec::new();
        let mut i: usize = 0;
        while i < ps.len()
            invariant
                0 <= i <= ps@.len(),
                ps@ == param_list(self.params),
                v@.len() == i,
                byte_seqs(v@) == self@.params.take(i as int),
            decreases ps@.len() - i,
        {
            let mut p: Vec<u8> = Vec::new();
            p.extend_from_slice(ps[i].as_slice());
            let ghost old_v = v@;
            v.push(p);
            proof {
                assert(p@ =~= ps@[i as int]@);
                assert forall|j: int| 0 <= j < i + 1 implies #[trigger] byte_seqs(v@)[j]
                    == self@.params.take(i + 1)[j] by {
                    if j < i {
                        assert(v@[j] == old_v[j]);
                        assert(byte_seqs(old_v)[j] == self@.params.take(i as int)[j]);
                    }
                }
                assert(byte_seqs(v@) =~= self@.params.take(i + 1));
            }
            i += 1;
        }
        proof {
            assert(self@.params.take(i as int) =~= self@.params);
        }
        ParamBuf { params: v }
    }

    /// Push an intermediate; on refusal go to `fail`.
    fn push_int(&mut self, c: u8, ok: State, fail: State)
        requires
            old(self).ints.wf(),
        ensures
            final(self)@ == old(self)@.push_int(c, ok, fail),
            final(self).ints.wf(),
            final(self).pending == old(self).pending,
    {
        if self.ints.push(c) {
            self.st = ok;
        } else {
            self.st = fail;
        }
    }

    fn invalid_with(&self, b: u8) -> (r: VTEvent)
        requires
            self.ints.wf(),
        ensures
            r.toks() == seq![self@.invalid_with(b)],
            r.wf(),
            is_header_event(r),
    {
        let n = self.ints.len();
        let i0 = self.ints.b0;
        let i1 = self.ints.b1;
        VTEvent::EscInvalid(
            match self.priv_prefix {
                Some(p) => if n == 0 {
                    EscInvalid::Two(p, b)
                } else if n == 1 {
                    EscInvalid::Three(p, i0, b)
                } else {
                    EscInvalid::Four(p, i0, i1, b)
                },
                None => if n == 0 {
                    EscInvalid::One(b)
                } else if n == 1 {
                    EscInvalid::Two(i0, b)
                } else {
                    EscInvalid::Three(i0, i1, b)
                },
            },
        )
    }

    fn invalid_prefix(&self) -> (r: VTEvent)
        requires
            self.ints.wf(),
        ensures
            r.toks() == seq![self@.invalid_prefix()],
            r.wf(),
            is_header_event(r),
    {
        let n = self.ints.len();
        let i0 = self.ints.b0;
        let i1 = self.ints.b1;
        match self.priv_prefix {
            Some(p) => VTEvent::EscInvalid(
                if n == 0 {
                    EscInvalid::One(p)
                } else if n == 1 {
                    EscInvalid::Two(p, i0)
                } else {
                    EscInvalid::Three(p, i0, i1)
                },
            ),
            None => if n == 0 {
                VTEvent::C0(ESC)
            } else if n == 1 {
                VTEvent::EscInvalid(EscInvalid::One(i0))
            } else {
                VTEvent::EscInvalid(EscInvalid::Two(i0, i1))
            },
        }
    }

    fn emit_esc(&mut self, c: u8) -> (r: VTAction)
        requires
            old(self).ints.wf(),
        ensures
            final(self)@ == (PState { st: State::Ground, private: None, ..old(self)@ }),
            r.toks(c) == seq![old(self)@.esc_tok(c)],
            r.wf(),
            final(self).pending == old(self).pending,
    {
        let e = Esc { intermediates: self.ints, private: self.priv_prefix, final_byte: c };
        self.st = State::Ground;
        self.priv_prefix = None;
        VTAction::Event(VTEvent::Esc(e))
    }

    fn emit_csi(&mut self, c: u8) -> (r: VTAction)
        requires
            old(self).ints.wf(),
        ensures
            final(self)@ == old(self)@.sent(State::Ground),
            r.toks(c) == seq![old(self)@.csi_tok(c)],
            r.wf(),
            final(self).pending == old(self).pending,
    {
        self.finish_params_if_any();
        let params = self.param_buf();
        let e = CSI {
            private: self.priv_prefix,
            params,
            intermediates: self.ints,
            final_byte: c,
        };
        self.priv_prefix = None;
        self.st = State::Ground;
        VTAction::Event(VTEvent::Csi(e))
    }

    fn dcs_start(&mut self, c: u8) -> (r: VTAction)
        requires
            old(self).ints.wf(),
        ensures
            final(self)@ == old(self)@.sent(State::DcsPassthrough),
            r.toks(c) == seq![old(self)@.dcs_tok(c)],
            r.wf(),
            final(self).pending == old(self).pending,
    {
        self.finish_params_if_any();
        let params = self.param_buf();
        let e = DCS {
            private: self.priv_prefix,
            params,
            intermediates: self.ints,
            final_byte: c,
        };
        self.priv_prefix = None;
        self.st = State::DcsPassthrough;
        VTAction::Event(VTEvent::DcsStart(e))
    }

    // ---- state handlers: each is the automaton's row for its state

    fn on_ground(&mut self, b: u8) -> (r: VTAction)
        requires
            old(self).st == State::Ground,
            old(self).ints.wf(),
        ensures
            handled(old(self)@, final(self)@, r, b),
            final(self).ints.wf(),
            final(self).pending == old(self).pending,
    {
        proof {
            reveal(core_step);
        }
        if b == ESC {
            self.enter_escape();
            VTAction::Nothing
        } else if b == DEL || is_c0(b) {
            VTAction::Event(VTEvent::C0(b))
        } else {
            VTAction::Data(VTEmit::Ground)
        }
    }

    fn on_escape(&mut self, b: u8) -> (r: VTAction)
        requires
            old(self).st == State::Escape,
            old(self).ints.wf(),
        ensures
            handled(old(self)@, final(self)@, r, b),
            final(self).ints.wf(),
            final(self).pending == old(self).pending,
    {
        proof {
            reveal(core_step);
        }
        if b == CAN || b == SUB || b == DEL {
            // DEL is ignored elsewhere; here it forces recovery.
            self.goto(State::Ground);
            VTAction::Event(VTEvent::EscInvalid(EscInvalid::One(b)))
        } else if is_intermediate(b) {
            self.push_int(b, State::EscInt, State::Ground);
            VTAction::Nothing
        } else if is_priv(b) {
            self.priv_prefix = Some(b);
            self.st = State::EscInt;
            VTAction::Nothing
        } else if b == CSI_INTRO {
            if self.has(VT_PARSER_INTEREST_CSI) {
                self.goto(State::CsiEntry);
            } else {
                self.goto(State::CsiIgnore);
            }
            VTAction::Nothing
        } else if b == DCS_INTRO {
            if self.has(VT_PARSER_INTEREST_DCS) {
                self.goto(State::DcsEntry);
            } else {
                self.goto(State::DcsIgnore);
            }
            VTAction::Nothing
        } else if b == OSC_INTRO {
            self.goto(State::OscString);
            VTAction::Event(VTEvent::OscStart)
        } else if b == SS2_INTRO {
            self.goto(State::EscSs2);
            VTAction::Nothing
        } else if b == SS3_INTRO {
            self.goto(State::EscSs3);
            VTAction::Nothing
        } else if b == SOS_INTRO || b == PM_INTRO || b == APC_INTRO {
            self.goto(State::SosPmApcString);
            VTAction::Nothing
        } else if is_esc_final(b) {
            self.emit_esc(b)
        } else if b == ESC {
            // ESC ESC: the first one stands alone.
            VTAction::Event(VTEvent::C0(ESC))
        } else {
            self.goto(State::Ground);
            VTAction::Event(VTEvent::EscInvalid(EscInvalid::One(b)))
        }
    }

    fn on_esc_int(&mut self, b: u8) -> (r: VTAction)
        requires
            old(self).st == State::EscInt,
            old(self).ints.wf(),
        ensures
            handled(old(self)@, final(self)@, r, b),
            final(self).ints.wf(),
            final(self).pending == old(self).pending,
    {
        proof {
            reveal(core_step);
        }
        if b == CAN || b == SUB || b == DEL {
            let e = self.invalid_with(b);
            self.goto(State::Ground);
            VTAction::Event(e)
        } else if is_intermediate(b) {
            let e = self.invalid_with(b);
            if self.ints.push(b) {
                VTAction::Nothing
            } else {
                self.goto(State::Ground);
                VTAction::Event(e)
            }
        } else if is_esc_final(b) {
            self.emit_esc(b)
        } else if b == ESC {
            // A new sequence starts; recovery reports the one it ends.
            let e = self.invalid_prefix();
            self.enter_escape();
            VTAction::Event(e)
        } else {
            let e = self.invalid_with(b);
            self.goto(State::Ground);
            VTAction::Event(e)
        }
    }

    fn on_esc_ss(&mut self, b: u8, intro: u8) -> (r: VTAction)
        requires
            old(self).st == State::EscSs2 && intro == SS2_INTRO || old(self).st == State::EscSs3
                && intro == SS3_INTRO,
            old(self).ints.wf(),
        ensures
            handled(old(self)@, final(self)@, r, b),
            final(self).ints.wf(),
            final(self).pending == old(self).pending,
    {
        proof {
            reveal(core_step);
        }
        if b == CAN || b == SUB {
            self.goto(State::Ground);
            VTAction::Event(VTEvent::EscInvalid(EscInvalid::Two(intro, b)))
        } else if b == ESC {
            self.enter_escape();
            VTAction::Event(VTEvent::EscInvalid(EscInvalid::One(intro)))
        } else if intro == SS2_INTRO {
            self.goto(State::Ground);
            VTAction::Event(VTEvent::Ss2(SS2 { char: b }))
        } else {
            self.goto(State::Ground);
            VTAction::Event(VTEvent::Ss3(SS3 { char: b }))
        }
    }

    fn on_esc_ss2(&mut self, b: u8) -> (r: VTAction)
        requires
            old(self).st == State::EscSs2,
            old(self).ints.wf(),
        ensures
            handled(old(self)@, final(self)@, r, b),
            final(self).ints.wf(),
            final(self).pending == old(self).pending,
    {
        proof {
            reveal(core_step);
        }
        self.on_esc_ss(b, SS2_INTRO)
    }

    fn on_esc_ss3(&mut self, b: u8) -> (r: VTAction)
        requires
            old(self).st == State::EscSs3,
            old(self).ints.wf(),
        ensures
            handled(old(self)@, final(self)@, r, b),
            final(self).ints.wf(),
            final(self).pending == old(self).pending,
    {
        proof {
            reveal(core_step);
        }
        self.on_esc_ss(b, SS3_INTRO)
    }

    /// `CsiEntry`, `CsiParam` and `CsiInt`.
    fn on_csi(&mut self, b: u8) -> (r: VTAction)
        requires
            old(self).st == State::CsiEntry || old(self).st == State::CsiParam || old(self).st
                == State::CsiInt,
            old(self).ints.wf(),
        ensures
            handled(old(self)@, final(self)@, r, b),
            final(self).ints.wf(),
            final(self).pending == old(self).pending,
    {
        proof {
            reveal(core_step);
        }
        let header = self.st == State::CsiEntry || self.st == State::CsiParam;
        if b == CAN || b == SUB {
            self.goto(State::Ground);
        } else if b == DEL {
        } else if b == ESC {
            self.enter_escape();
        } else if self.st == State::CsiEntry && is_priv(b) {
            self.priv_prefix = Some(b);
            self.st = State::CsiParam;
        } else if header && (is_digit(b) || b == 0x3a) {
            // Colons stay in the parameter: they separate sub-parameters.
            self.push_cur(b);
            self.st = State::CsiParam;
        } else if header && b == 0x3b {
            self.next_param();
            self.st = State::CsiParam;
        } else if is_intermediate(b) {
            self.push_int(b, State::CsiInt, State::Ground);
        } else if is_final(b) {
            return self.emit_csi(b);
        } else {
            self.goto(State::CsiIgnore);
        }
        VTAction::Nothing
    }

    fn on_csi_entry(&mut self, b: u8) -> (r: VTAction)
        requires
            old(self).st == State::CsiEntry,
            old(self).ints.wf(),
        ensures
            handled(old(self)@, final(self)@, r, b),
            final(self).ints.wf(),
            final(self).pending == old(self).pending,
    {
        proof {
            reveal(core_step);
        }
        self.on_csi(b)
    }

    fn on_csi_param(&mut self, b: u8) -> (r: VTAction)
        requires
            old(self).st == State::CsiParam,
            old(self).ints.wf(),
        ensures
            handled(old(self)@, final(self)@, r, b),
            final(self).ints.wf(),
            final(self).pending == old(self).pending,
    {
        proof {
            reveal(core_step);
        }
        self.on_csi(b)
    }

    fn on_csi_int(&mut self, b: u8) -> (r: VTAction)
        requires
            old(self).st == State::CsiInt,
            old(self).ints.wf(),
        ensures
            handled(old(self)@, final(self)@, r, b),
            final(self).ints.wf(),
            final(self).pending == old(self).pending,
    {
        proof {
            reveal(core_step);
        }
        self.on_csi(b)
    }

    fn on_csi_ignore(&mut self, b: u8) -> (r: VTAction)
        requires
            old(self).st == State::CsiIgnore,
            old(self).ints.wf(),
        ensures
            handled(old(self)@, final(self)@, r, b),
            final(self).ints.wf(),
            final(self).pending == old(self).pending,
    {
        proof {
            reveal(core_step);
        }
        if b == CAN || b == SUB {
            self.goto(State::Ground);
        } else if b == ESC {
            self.enter_escape();
        } else if b != DEL && is_final(b) {
            self.goto(State::Ground);
        }
        VTAction::Nothing
    }

    /// `DcsEntry`, `DcsParam` and `DcsInt`.
    fn on_dcs(&mut self, b: u8) -> (r: VTAction)
        requires
            old(self).st == State::DcsEntry || old(self).st == State::DcsParam || old(self).st
                == State::DcsInt,
            old(self).ints.wf(),
        ensures
            handled(old(self)@, final(self)@, r, b),
            final(self).ints.wf(),
            final(self).pending == old(self).pending,
    {
        proof {
            reveal(core_step);
        }
        let header = self.st == State::DcsEntry || self.st == State::DcsParam;
        if b == CAN || b == SUB {
            self.goto(State::Ground);
        } else if b == DEL {
        } else if b == ESC {
            self.enter_escape();
        } else if self.st == State::DcsEntry && is_priv(b) {
            self.priv_prefix = Some(b);
            self.st = State::DcsParam;
        } else if header && (is_digit(b) || b == 0x3a && self.has(VT_PARSER_DCS_COLON_PARAMS)) {
            self.push_cur(b);
            self.st = State::DcsParam;
        } else if header && b == 0x3b {
            self.next_param();
            self.st = State::DcsParam;
        } else if is_intermediate(b) {
            if self.st == State::DcsInt {
                self.push_int(b, State::DcsInt, State::Ground);
            } else {
                self.push_int(b, State::DcsInt, State::DcsInt);
            }
        } else if is_final(b) {
            return self.dcs_start(b);
        } else {
            // Unless configured otherwise, a colon poisons the header like
            // any other stray byte.
            self.goto(State::DcsIgnore);
        }
        VTAction::Nothing
    }

    fn on_dcs_entry(&mut self, b: u8) -> (r: VTAction)
        requires
            old(self).st == State::DcsEntry,
            old(self).ints.wf(),
        ensures
            handled(old(self)@, final(self)@, r, b),
            final(self).ints.wf(),
            final(self).pending == old(self).pending,
    {
        proof {
            reveal(core_step);
        }
        self.on_dcs(b)
    }

    fn on_dcs_param(&mut self, b: u8) -> (r: VTAction)
        requires
            old(self).st == State::DcsParam,
            old(self).ints.wf(),
        ensures
            handled(old(self)@, final(self)@, r, b),
            final(self).ints.wf(),
            final(self).pending == old(self).pending,
    {
        proof {
            reveal(core_step);
        }
        self.on_dcs(b)
    }

    fn on_dcs_int(&mut self, b: u8) -> (r: VTAction)
        requires
            old(self).st == State::DcsInt,
            old(self).ints.wf(),
        ensures
            handled(old(self)@, final(self)@, r, b),
            final(self).ints.wf(),
            final(self).pending == old(self).pending,
    {
        proof {
            reveal(core_step);
        }
        self.on_dcs(b)
    }

    fn on_dcs_ignore(&mut self, b: u8) -> (r: VTAction)
        requires
            old(self).st == State::DcsIgnore,
            old(self).ints.wf(),
        ensures
            handled(old(self)@, final(self)@, r, b),
            final(self).ints.wf(),
            final(self).pending == old(self).pending,
    {
        proof {
            reveal(core_step);
        }
        if b == CAN || b == SUB {
            self.goto(State::Ground);
        } else if b == ESC {
            self.goto(State::DcsIgnoreEsc);
        }
        VTAction::Nothing
    }

    fn on_dcs_ignore_esc(&mut self, b: u8) -> (r: VTAction)
        requires
            old(self).st == State::DcsIgnoreEsc,
            old(self).ints.wf(),
        ensures
            handled(old(self)@, final(self)@, r, b),
            final(self).ints.wf(),
            final(self).pending == old(self).pending,
    {
        proof {
            reveal(core_step);
        }
        if b == CAN || b == SUB || b == ST_FINAL {
            self.goto(State::Ground);
        } else if b != DEL && b != ESC {
            self.goto(State::DcsIgnore);
        }
        VTAction::Nothing
    }

    fn on_dcs_pass(&mut self, b: u8) -> (r: VTAction)
        requires
            old(self).st == State::DcsPassthrough,
            old(self).ints.wf(),
        ensures
            handled(old(self)@, final(self)@, r, b),
            final(self).ints.wf(),
            final(self).pending == old(self).pending,
    {
        proof {
            reveal(core_step);
        }
        if b == CAN || b == SUB {
            self.goto(State::Ground);
            VTAction::Cancel(VTEmit::Dcs)
        } else if b == DEL {
            VTAction::Nothing
        } else if b == ESC {
            // Held until the next byte says whether it starts ST.
            self.goto(State::DcsEsc);
            VTAction::Nothing
        } else {
            VTAction::Data(VTEmit::Dcs)
        }
    }

    fn on_dcs_esc(&mut self, b: u8) -> (r: VTAction)
        requires
            old(self).st == State::DcsEsc,
            old(self).ints.wf(),
        ensures
            handled(old(self)@, final(self)@, r, b),
            final(self).ints.wf(),
            final(self).pending == old(self).pending,
    {
        proof {
            reveal(core_step);
        }
        if b == ST_FINAL {
            self.goto(State::Ground);
            VTAction::End(VTEnd::Dcs)
        } else if b == DEL {
            VTAction::Nothing
        } else if b == ESC {
            VTAction::Release(VTEmit::Dcs)
        } else {
            self.goto(State::DcsPassthrough);
            VTAction::ReleaseData(VTEmit::Dcs)
        }
    }

    fn on_osc_string(&mut self, b: u8) -> (r: VTAction)
        requires
            old(self).st == State::OscString,
            old(self).ints.wf(),
        ensures
            handled(old(self)@, final(self)@, r, b),
            final(self).ints.wf(),
            final(self).pending == old(self).pending,
    {
        proof {
            reveal(core_step);
        }
        if b == CAN || b == SUB {
            self.goto(State::Ground);
            VTAction::Cancel(VTEmit::Osc)
        } else if b == BEL {
            self.goto(State::Ground);
            VTAction::End(VTEnd::Osc { used_bel: true })
        } else if b == ESC {
            self.goto(State::OscEsc);
            VTAction::Nothing
        } else if is_printable(b) {
            VTAction::Data(VTEmit::Osc)
        } else {
            // Other controls are dropped from OSC bodies.
            VTAction::Nothing
        }
    }

    fn on_osc_esc(&mut self, b: u8) -> (r: VTAction)
        requires
            old(self).st == State::OscEsc,
            old(self).ints.wf(),
        ensures
            handled(old(self)@, final(self)@, r, b),
            final(self).ints.wf(),
            final(self).pending == old(self).pending,
    {
        proof {
            reveal(core_step);
        }
        if b == ST_FINAL {
            self.goto(State::Ground);
            VTAction::End(VTEnd::Osc { used_bel: false })
        } else if b == DEL {
            VTAction::Nothing
        } else if b == ESC {
            VTAction::Release(VTEmit::Osc)
        } else {
            self.goto(State::OscString);
            VTAction::ReleaseData(VTEmit::Osc)
        }
    }

    fn on_spa_string(&mut self, b: u8) -> (r: VTAction)
        requires
            old(self).st == State::SosPmApcString,
            old(self).ints.wf(),
        ensures
            handled(old(self)@, final(self)@, r, b),
            final(self).ints.wf(),
            final(self).pending == old(self).pending,
    {
        proof {
            reveal(core_step);
        }
        if b == CAN || b == SUB {
            self.goto(State::Ground);
        } else if b == ESC {
            self.goto(State::SpaEsc);
        }
        VTAction::Nothing
    }

    fn on_spa_esc(&mut self, b: u8) -> (r: VTAction)
        requires
            old(self).st == State::SpaEsc,
            old(self).ints.wf(),
        ensures
            handled(old(self)@, final(self)@, r, b),
            final(self).ints.wf(),
            final(self).pending == old(self).pending,
    {
        proof {
            reveal(core_step);
        }
        if b == ST_FINAL {
            self.goto(State::Ground);
        } else if b != DEL && b != ESC {
            self.goto(State::SosPmApcString);
        }
        VTAction::Nothing
    }
}


/// The event that carries body bytes `v` of stream `k`.
pub open spec fn body_event(k: VTEmit, v: Vec<u8>) -> VTEvent {
    match k {
        VTEmit::Ground => VTEvent::Raw(v),
        VTEmit::Dcs => VTEvent::DcsData(v),
        VTEmit::Osc => VTEvent::OscData(v),
    }
}

pub open spec fn all_wf(evs: Seq<VTEvent>) -> bool {
    forall|i: int| 0 <= i < evs.len() ==> (#[trigger] evs[i]).wf()
}

/// Bytes that neither end a text run nor start a sequence.
pub open spec fn is_text_byte(b: u8) -> bool {
    !(b == DEL || b == ESC || is_c0_byte(b))
}

pub open spec fn text_only(input: Seq<u8>) -> bool {
    forall|i: int| 0 <= i < input.len() ==> is_text_byte(#[trigger] input[i])
}

pub proof fn lemma_keep_small(i: u8, ts: Seq<Tok>)
    requires
        ts.len() <= 2,
        forall|j: int, k: int|
            0 <= j < ts.len() && 0 <= k < ts.len() ==> wanted(i, #[trigger] ts[j]) == wanted(
                i,
                #[trigger] ts[k],
            ),
    ensures
        keep(i, ts) == (if ts.len() > 0 && !wanted(i, ts[0]) {
            Seq::<Tok>::empty()
        } else {
            ts
        }),
{
    let e = Seq::<Tok>::empty();
    assert(keep(i, e) == e);
    if ts.len() == 1 {
        assert(ts.drop_last() =~= e);
        assert(e.push(ts[0]) =~= ts);
    } else if ts.len() == 2 {
        let d = ts.drop_last();
        assert(d.drop_last() =~= e);
        assert(d[0] == ts[0]);
        assert(wanted(i, ts[0]) == wanted(i, ts[1]));
        assert(e.push(d[0]) =~= d);
        if wanted(i, ts[0]) {
            assert(keep(i, d) == d);
        } else {
            assert(keep(i, d) == e);
        }
        assert(d.push(ts[1]) =~= ts);
    }
}

pub proof fn lemma_flatten_push(evs: Seq<VTEvent>, e: VTEvent)
    ensures
        flatten(evs.push(e)) == flatten(evs) + e.toks(),
{
    assert(evs.push(e).drop_last() =~= evs);
}

pub proof fn lemma_flatten_concat(a: Seq<VTEvent>, b: Seq<VTEvent>)
    ensures
        flatten(a + b) == flatten(a) + flatten(b),
    decreases b.len(),
{
    if b.len() == 0 {
        assert(a + b =~= a);
        assert(flatten(a) + flatten(b) =~= flatten(a));
    } else {
        lemma_flatten_concat(a, b.drop_last());
        assert((a + b).drop_last() =~= a + b.drop_last());
        assert((a + b).last() == b.last());
        assert(flatten(a) + flatten(b) =~= flatten(a) + flatten(b.drop_last()) + b.last().toks());
    }
}

pub proof fn lemma_flatten_first(evs: Seq<VTEvent>)
    requires
        evs.len() > 0,
    ensures
        flatten(evs) == evs[0].toks() + flatten(evs.drop_first()),
{
    lemma_flatten_concat(seq![evs[0]], evs.drop_first());
    assert(seq![evs[0]] + evs.drop_first() =~= evs);
    lemma_flatten_push(Seq::empty(), evs[0]);
    assert(Seq::<VTEvent>::empty().push(evs[0]) =~= seq![evs[0]]);
    assert(flatten(Seq::<VTEvent>::empty()) == Seq::<Tok>::empty());
    assert(Seq::<Tok>::empty() + evs[0].toks() =~= evs[0].toks());
}

/// The tokens of each event.
pub open spec fn toks_list(evs: Seq<VTEvent>) -> Seq<Seq<Tok>> {
    evs.map_values(|e: VTEvent| e.toks())
}

/// Token groups: the tokens of each finished event, and the run of body
/// tokens not yet handed out.
pub type Groups = (Seq<Seq<Tok>>, Seq<Tok>);

/// The groups with the open run finished.
pub open spec fn close(g: Groups) -> Seq<Seq<Tok>> {
    if g.1.len() == 0 {
        g.0
    } else {
        g.0.push(g.1)
    }
}

/// Whether body token of stream `k` continues the open run.
pub open spec fn continues(open: Seq<Tok>, k: VTEmit) -> bool {
    open.len() == 0 || (open[0] matches Tok::Data(j, _) && j == k)
}

/// One token: a body token joins the run of its stream, any other token is
/// an event of its own.
pub open spec fn add_tok(g: Groups, t: Tok) -> Groups {
    match t {
        Tok::Data(k, _) => if continues(g.1, k) {
            (g.0, g.1.push(t))
        } else {
            (close(g), seq![t])
        },
        _ => (close(g).push(seq![t]), Seq::empty()),
    }
}

/// The tokens of one byte: a byte that gives none ends the open run.
pub open spec fn add_byte(g: Groups, ts: Seq<Tok>) -> Groups {
    if ts.len() == 0 {
        (close(g), Seq::empty())
    } else if ts.len() == 1 {
        add_tok(g, ts[0])
    } else {
        add_tok(add_tok(g, ts[0]), ts[1])
    }
}

/// The groups after feeding `input` from `s`, starting from `g`.
pub open spec fn grouping(g: Groups, s: PState, input: Seq<u8>) -> Groups
    decreases input.len(),
{
    if input.len() == 0 {
        g
    } else {
        add_byte(
            grouping(g, s, input.drop_last()),
            step(run(s, input.drop_last()).0, input.last()).1,
        )
    }
}

/// The token groups of the events that a feed of `input` hands out after the
/// owed events `pending`: each run of body bytes of one stream, up to a byte
/// that ends it, is one event.
pub open spec fn feed_groups(pending: Seq<VTEvent>, s: PState, input: Seq<u8>) -> Seq<Seq<Tok>> {
    close(grouping((toks_list(pending), Seq::empty()), s, input))
}

pub open spec fn all_nonempty(gs: Seq<Seq<Tok>>) -> bool {
    forall|i: int| 0 <= i < gs.len() ==> (#[trigger] gs[i]).len() > 0
}

/// Tokens of groups, one after the other.
pub open spec fn concat(gs: Seq<Seq<Tok>>) -> Seq<Tok>
    decreases gs.len(),
{
    if gs.len() == 0 {
        Seq::empty()
    } else {
        concat(gs.drop_last()) + gs.last()
    }
}

pub proof fn lemma_toks_list_push(evs: Seq<VTEvent>, e: VTEvent)
    ensures
        toks_list(evs.push(e)) == toks_list(evs).push(e.toks()),
{
    assert(toks_list(evs.push(e)) =~= toks_list(evs).push(e.toks()));
}

pub proof fn lemma_flatten_concat_list(evs: Seq<VTEvent>)
    ensures
        flatten(evs) == concat(toks_list(evs)),
    decreases evs.len(),
{
    if evs.len() > 0 {
        lemma_flatten_concat_list(evs.drop_last());
        assert(toks_list(evs).drop_last() =~= toks_list(evs.drop_last()));
    }
}

proof fn lemma_close(g: Groups)
    ensures
        concat(close(g)) == concat(g.0) + g.1,
        all_nonempty(g.0) ==> all_nonempty(close(g)),
{
    if g.1.len() == 0 {
        assert(concat(g.0) + g.1 =~= concat(g.0));
    } else {
        assert(g.0.push(g.1).drop_last() =~= g.0);
    }
}

proof fn lemma_add_tok(g: Groups, t: Tok)
    ensures
        concat(add_tok(g, t).0) + add_tok(g, t).1 == concat(g.0) + g.1 + seq![t],
        all_nonempty(g.0) ==> all_nonempty(add_tok(g, t).0),
{
    lemma_close(g);
    let c = close(g);
    if t is Data {
        assert(concat(g.0) + g.1.push(t) =~= concat(g.0) + g.1 + seq![t]);
    } else {
        assert(c.push(seq![t]).drop_last() =~= c);
        assert(concat(c) + seq![t] + Seq::<Tok>::empty() =~= concat(g.0) + g.1 + seq![t]);
    }
}

proof fn lemma_add_byte(g: Groups, ts: Seq<Tok>)
    requires
        ts.len() <= 2,
    ensures
        concat(add_byte(g, ts).0) + add_byte(g, ts).1 == concat(g.0) + g.1 + ts,
        all_nonempty(g.0) ==> all_nonempty(add_byte(g, ts).0),
{
    lemma_close(g);
    if ts.len() == 0 {
        assert(concat(g.0) + g.1 + ts =~= concat(g.0) + g.1);
        assert(concat(close(g)) + Seq::<Tok>::empty() =~= concat(close(g)));
    } else if ts.len() == 1 {
        lemma_add_tok(g, ts[0]);
        assert(ts =~= seq![ts[0]]);
    } else {
        lemma_add_tok(g, ts[0]);
        lemma_add_tok(add_tok(g, ts[0]), ts[1]);
        assert(concat(g.0) + g.1 + seq![ts[0]] + seq![ts[1]] =~= concat(g.0) + g.1 + ts);
    }
}

/// The groups hold every token, in order.
pub proof fn lemma_grouping(g: Groups, s: PState, input: Seq<u8>)
    ensures
        concat(grouping(g, s, input).0) + grouping(g, s, input).1 == concat(g.0) + g.1 + run(
            s,
            input,
        ).1,
        all_nonempty(g.0) ==> all_nonempty(grouping(g, s, input).0),
    decreases input.len(),
{
    if input.len() == 0 {
        assert(concat(g.0) + g.1 + run(s, input).1 =~= concat(g.0) + g.1);
    } else {
        lemma_grouping(g, s, input.drop_last());
        let r = run(s, input.drop_last());
        let t = step(r.0, input.last());
        lemma_step_toks_len(r.0, input.last());
        lemma_add_byte(grouping(g, s, input.drop_last()), t.1);
        assert(concat(g.0) + g.1 + r.1 + t.1 =~= concat(g.0) + g.1 + (r.1 + t.1));
    }
}

/// A byte gives at most two tokens.
pub proof fn lemma_step_toks_len(s: PState, b: u8)
    ensures
        step(s, b).1.len() <= 2,
{
    reveal(core_step);
    lemma_keep_len(s.interest, core_step(s, b).1);
}

proof fn lemma_keep_len(i: u8, ts: Seq<Tok>)
    ensures
        keep(i, ts).len() <= ts.len(),
    decreases ts.len(),
{
    if ts.len() > 0 {
        lemma_keep_len(i, ts.drop_last());
    }
}

/// The events that a feed hands out, from their token groups: none empty,
/// and all tokens in order.
pub proof fn lemma_feed_groups(pending: Seq<VTEvent>, s: PState, input: Seq<u8>)
    requires
        all_nonempty(toks_list(pending)),
    ensures
        all_nonempty(feed_groups(pending, s, input)),
        concat(feed_groups(pending, s, input)) == flatten(pending) + run(s, input).1,
{
    let g0: Groups = (toks_list(pending), Seq::empty());
    lemma_grouping(g0, s, input);
    lemma_close(grouping(g0, s, input));
    lemma_flatten_concat_list(pending);
    assert(concat(g0.0) + g0.1 =~= concat(g0.0));
}

pub proof fn lemma_run_push(s: PState, input: Seq<u8>, b: u8)
    ensures
        run(s, input.push(b)).0 == step(run(s, input).0, b).0,
        run(s, input.push(b)).1 == run(s, input).1 + step(run(s, input).0, b).1,
{
    assert(input.push(b).drop_last() =~= input);
}

/// Moves the buffered body bytes, if any, into an event of `out`.
fn flush(out: &mut Vec<VTEvent>, buf: &mut Vec<u8>, kind: VTEmit)
    ensures
        flatten(final(out)@) == flatten(old(out)@) + data_toks(kind, old(buf)@),
        final(buf)@.len() == 0,
        all_wf(old(out)@) ==> all_wf(final(out)@),
        old(buf)@.len() == 0 ==> final(out)@ == old(out)@,
        old(buf)@.len() > 0 ==> final(out)@ == old(out)@.push(body_event(kind, *old(buf))),
        toks_list(final(out)@) == close((toks_list(old(out)@), data_toks(kind, old(buf)@))),
{
    proof {
        lemma_toks_list_push(out@, body_event(kind, *buf));
    }
    if buf.len() > 0 {
        let mut v: Vec<u8> = Vec::new();
        std::mem::swap(&mut v, buf);
        let e = match kind {
            VTEmit::Ground => VTEvent::Raw(v),
            VTEmit::Dcs => VTEvent::DcsData(v),
            VTEmit::Osc => VTEvent::OscData(v),
        };
        proof {
            lemma_flatten_push(out@, e);
        }
        out.push(e);
    } else {
        proof {
            assert(data_toks(kind, buf@) =~= Seq::<Tok>::empty());
            assert(flatten(out@) + data_toks(kind, buf@) =~= flatten(out@));
        }
    }
}

/// Adds body byte `b` of stream `k` to the buffer, flushing a buffer of
/// another stream first.
fn buffer_byte(out: &mut Vec<VTEvent>, buf: &mut Vec<u8>, kind: &mut VTEmit, k: VTEmit, b: u8)
    ensures
        flatten(final(out)@) + data_toks(*final(kind), final(buf)@) == flatten(old(out)@)
            + data_toks(*old(kind), old(buf)@) + seq![Tok::Data(k, b)],
        all_wf(old(out)@) ==> all_wf(final(out)@),
        *final(kind) == k,
        *old(kind) == k ==> final(out)@ == old(out)@,
        old(buf)@.len() == 0 ==> final(out)@ == old(out)@,
        *old(kind) == k || old(buf)@.len() == 0 ==> final(buf)@ == old(buf)@.push(b),
        (toks_list(final(out)@), data_toks(*final(kind), final(buf)@)) == add_tok(
            (toks_list(old(out)@), data_toks(*old(kind), old(buf)@)),
            Tok::Data(k, b),
        ),
{
    if *kind != k {
        flush(out, buf, *kind);
        *kind = k;
    }
    let ghost before = buf@;
    buf.push(b);
    proof {
        assert(data_toks(k, buf@) =~= data_toks(k, before) + seq![Tok::Data(k, b)]);
        assert(data_toks(*old(kind), old(buf)@) =~= data_toks(k, before) || old(buf)@.len() > 0);
        let o = data_toks(*old(kind), old(buf)@);
        if old(buf)@.len() > 0 {
            assert(o[0] == Tok::Data(*old(kind), old(buf)@[0]));
        }
        if *old(kind) != k && old(buf)@.len() > 0 {
            assert(before.len() == 0);
            assert(data_toks(k, buf@) =~= seq![Tok::Data(k, b)]);
        }
    }
}

impl VTPushParser {
    /// Runs the automaton on one byte, dropping what the interest mask leaves
    /// out.
    fn push_with(&mut self, b: u8) -> (r: VTAction)
        requires
            old(self).ints.wf(),
        ensures
            final(self)@ == step(old(self)@, b).0,
            r.toks(b) == step(old(self)@, b).1,
            r.wf(),
            final(self).ints.wf(),
            final(self).pending == old(self).pending,
    {
        let a = match self.st {
            State::Ground => self.on_ground(b),
            State::Escape => self.on_escape(b),
            State::EscInt => self.on_esc_int(b),
            State::EscSs2 => self.on_esc_ss2(b),
            State::EscSs3 => self.on_esc_ss3(b),
            State::CsiEntry => self.on_csi_entry(b),
            State::CsiParam => self.on_csi_param(b),
            State::CsiInt => self.on_csi_int(b),
            State::CsiIgnore => self.on_csi_ignore(b),
            State::DcsEntry => self.on_dcs_entry(b),
            State::DcsParam => self.on_dcs_param(b),
            State::DcsInt => self.on_dcs_int(b),
            State::DcsIgnore => self.on_dcs_ignore(b),
            State::DcsIgnoreEsc => self.on_dcs_ignore_esc(b),
            State::DcsPassthrough => self.on_dcs_pass(b),
            State::DcsEsc => self.on_dcs_esc(b),
            State::OscString => self.on_osc_string(b),
            State::OscEsc => self.on_osc_esc(b),
            State::SosPmApcString => self.on_spa_string(b),
            State::SpaEsc => self.on_spa_esc(b),
        };
        let keep_it = match &a {
            VTAction::Nothing => true,
            VTAction::Event(e) => match e {
                VTEvent::C0(_) => true,
                VTEvent::Esc(_) | VTEvent::Ss2(_) | VTEvent::Ss3(_) => self.has(
                    VT_PARSER_INTEREST_OTHER,
                ),
                VTEvent::EscInvalid(_) => self.has(VT_PARSER_INTEREST_ESCAPE_RECOVERY),
                VTEvent::Csi(_) => self.has(VT_PARSER_INTEREST_CSI),
                VTEvent::DcsStart(_) => self.has(VT_PARSER_INTEREST_DCS),
                VTEvent::OscStart => self.has(VT_PARSER_INTEREST_OSC),
                _ => true,
            },
            VTAction::Data(k) | VTAction::Release(k) | VTAction::ReleaseData(k) => *k
                != VTEmit::Osc || self.has(VT_PARSER_INTEREST_OSC),
            VTAction::End(VTEnd::Dcs) => self.has(VT_PARSER_INTEREST_DCS),
            VTAction::End(VTEnd::Osc { .. }) => self.has(VT_PARSER_INTEREST_OSC),
            VTAction::Cancel(k) => if *k == VTEmit::Dcs {
                self.has(VT_PARSER_INTEREST_DCS)
            } else {
                self.has(VT_PARSER_INTEREST_OSC)
            },
        };
        proof {
            let ts = a.toks(b);
            assert(ts.len() <= 2);
            assert(ts.len() > 0 ==> keep_it == wanted(old(self)@.interest, ts[0]));
            lemma_keep_small(old(self)@.interest, ts);
        }
        if keep_it {
            a
        } else {
            VTAction::Nothing
        }
    }

    /// Feeds one byte, buffering body bytes in `buf` and pushing finished
    /// events to `out`.
    fn absorb(&mut self, b: u8, out: &mut Vec<VTEvent>, buf: &mut Vec<u8>, kind: &mut VTEmit)
        requires
            old(self).ints.wf(),
            all_wf(old(out)@),
        ensures
            final(self)@ == step(old(self)@, b).0,
            flatten(final(out)@) + data_toks(*final(kind), final(buf)@) == flatten(old(out)@)
                + data_toks(*old(kind), old(buf)@) + step(old(self)@, b).1,
            final(self).ints.wf(),
            all_wf(final(out)@),
            final(self).pending == old(self).pending,
            is_text_byte(b) && old(self)@.st == State::Ground && (old(buf)@.len() == 0
                || *old(kind) == VTEmit::Ground) ==> final(out)@ == old(out)@ && final(buf)@
                == old(buf)@.push(b) && *final(kind) == VTEmit::Ground && final(self)@.st
                == State::Ground,
            (toks_list(final(out)@), data_toks(*final(kind), final(buf)@)) == add_byte(
                (toks_list(old(out)@), data_toks(*old(kind), old(buf)@)),
                step(old(self)@, b).1,
            ),
    {
        let a = self.push_with(b);
        proof {
            if is_text_byte(b) && old(self)@.st == State::Ground {
                assert(core_step(old(self)@, b) == (old(self)@, seq![Tok::Data(VTEmit::Ground, b)]))
                    by {
                    reveal(core_step);
                }
                lemma_keep_small(old(self)@.interest, seq![Tok::Data(VTEmit::Ground, b)]);
                assert(a.toks(b) == seq![Tok::Data(VTEmit::Ground, b)]);
            }
        }
        emit_action(a, b, out, buf, kind);
    }
}

/// Hands the tokens of action `a` for byte `b` to the buffer and `out`.
fn emit_action(a: VTAction, b: u8, out: &mut Vec<VTEvent>, buf: &mut Vec<u8>, kind: &mut VTEmit)
    requires
        a.wf(),
        all_wf(old(out)@),
    ensures
        flatten(final(out)@) + data_toks(*final(kind), final(buf)@) == flatten(old(out)@)
            + data_toks(*old(kind), old(buf)@) + a.toks(b),
        all_wf(final(out)@),
        a.toks(b) == seq![Tok::Data(VTEmit::Ground, b)] && b != ESC && (old(buf)@.len() == 0
            || *old(kind) == VTEmit::Ground) ==> final(out)@ == old(out)@ && final(buf)@
            == old(buf)@.push(b) && *final(kind) == VTEmit::Ground,
        (toks_list(final(out)@), data_toks(*final(kind), final(buf)@)) == add_byte(
            (toks_list(old(out)@), data_toks(*old(kind), old(buf)@)),
            a.toks(b),
        ),
{
    let ghost o = flatten(old(out)@) + data_toks(*old(kind), old(buf)@);
    match a {
        VTAction::Nothing => {
            // A run of body bytes ends at any byte that is not part of it.
            flush(out, buf, *kind);
            assert(data_toks(*kind, buf@) =~= Seq::<Tok>::empty());
            assert(o + a.toks(b) =~= o);
            assert(a.toks(b) =~= Seq::<Tok>::empty());
            assert(a.toks(b).len() == 0);
        },
        VTAction::Data(k) => {
            buffer_byte(out, buf, kind, k, b);
            assert(a.toks(b) =~= seq![Tok::Data(k, b)]);
        },
        VTAction::Release(k) => {
            buffer_byte(out, buf, kind, k, ESC);
            assert(a.toks(b) =~= seq![Tok::Data(k, ESC)]);
        },
        VTAction::ReleaseData(k) => {
            buffer_byte(out, buf, kind, k, ESC);
            buffer_byte(out, buf, kind, k, b);
            assert(o + seq![Tok::Data(k, ESC)] + seq![Tok::Data(k, b)] =~= o + a.toks(b));
        },
        VTAction::Event(e) => {
            assert(e.toks().len() == 1 && !(e.toks()[0] is Data));
            push_event(out, buf, kind, e);
        },
        VTAction::Cancel(k) => {
            let e = if k == VTEmit::Dcs {
                VTEvent::DcsCancel
            } else {
                VTEvent::OscCancel
            };
            push_event(out, buf, kind, e);
            assert(a.toks(b).len() == 1 && !(a.toks(b)[0] is Data));
        },
        VTAction::End(end) => {
            end_body(out, buf, kind, end);
            assert(a.toks(b).len() == 1 && !(a.toks(b)[0] is Data));
        },
    }
}

/// Flushes the buffer and appends `e`.
fn push_event(out: &mut Vec<VTEvent>, buf: &mut Vec<u8>, kind: &mut VTEmit, e: VTEvent)
    requires
        e.wf(),
        all_wf(old(out)@),
        e.toks().len() == 1,
        !(e.toks()[0] is Data),
    ensures
        flatten(final(out)@) + data_toks(*final(kind), final(buf)@) == flatten(old(out)@)
            + data_toks(*old(kind), old(buf)@) + e.toks(),
        all_wf(final(out)@),
        *final(kind) == *old(kind),
        (toks_list(final(out)@), data_toks(*final(kind), final(buf)@)) == add_tok(
            (toks_list(old(out)@), data_toks(*old(kind), old(buf)@)),
            e.toks()[0],
        ),
{
    let ghost o = flatten(old(out)@) + data_toks(*old(kind), old(buf)@);
    flush(out, buf, *kind);
    proof {
        lemma_toks_list_push(out@, e);
        assert(e.toks() =~= seq![e.toks()[0]]);
        lemma_flatten_push(out@, e);
        assert(data_toks(*kind, buf@) =~= Seq::<Tok>::empty());
    }
    out.push(e);
    assert(flatten(out@) + data_toks(*kind, buf@) =~= o + e.toks());
}

/// Ends the body: the buffered bytes go out as data, then the end.
fn end_body(out: &mut Vec<VTEvent>, buf: &mut Vec<u8>, kind: &mut VTEmit, end: VTEnd)
    requires
        all_wf(old(out)@),
    ensures
        flatten(final(out)@) + data_toks(*final(kind), final(buf)@) == flatten(old(out)@)
            + data_toks(*old(kind), old(buf)@) + VTAction::End(end).toks(0),
        all_wf(final(out)@),
        (toks_list(final(out)@), data_toks(*final(kind), final(buf)@)) == add_tok(
            (toks_list(old(out)@), data_toks(*old(kind), old(buf)@)),
            VTAction::End(end).toks(0)[0],
        ),
{
    let e = match end {
        VTEnd::Dcs => VTEvent::DcsEnd(Vec::new()),
        VTEnd::Osc { used_bel } => VTEvent::OscEnd { data: Vec::new(), used_bel },
    };
    proof {
        assert(e.toks() =~= VTAction::End(end).toks(0));
    }
    push_event(out, buf, kind, e);
}

/// The event groups that ending the stream in state `s` adds: one cancel
/// when a body is open (and its class is handed out), else none.
pub open spec fn end_groups(s: PState) -> Seq<Seq<Tok>> {
    if finish_step(s).1.len() > 0 {
        seq![finish_step(s).1]
    } else {
        Seq::empty()
    }
}

/// The tokens of an optional event.
pub open spec fn opt_toks(e: Option<VTEvent>) -> Seq<Tok> {
    match e {
        Some(e) => e.toks(),
        None => Seq::empty(),
    }
}

/// Hands the events of `evs` to `cb` in order, until `cb` returns false.
/// Returns whether all were taken, and (as a ghost) the tokens handed out;
/// the events not handed out stay in `evs`.
fn hand_out<F: FnMut(VTEvent) -> bool>(evs: &mut Vec<VTEvent>, cb: &mut F) -> (r: (
    bool,
    Ghost<Seq<Tok>>,
))
    requires
        forall|e: VTEvent, g: F| call_requires(g, (e,)),
        all_wf(old(evs)@),
        all_nonempty(toks_list(old(evs)@)),
    ensures
        r.1@ + flatten(final(evs)@) == flatten(old(evs)@),
        r.0 ==> final(evs)@.len() == 0,
        all_wf(final(evs)@),
        all_nonempty(toks_list(final(evs)@)),
        old(evs)@.len() == 0 ==> r.0,
        (forall|e: VTEvent, g: F, x: bool| call_ensures(g, (e,), x) ==> x) ==> r.0,
{
    let ghost mut done: Seq<Tok> = Seq::empty();
    proof {
        assert(done + flatten(evs@) =~= flatten(evs@));
    }
    while evs.len() > 0
        invariant
            forall|e: VTEvent, g: F| call_requires(g, (e,)),
            done + flatten(evs@) == flatten(old(evs)@),
            all_wf(evs@),
            all_nonempty(toks_list(evs@)),
            old(evs)@.len() == 0 ==> evs@.len() == 0,
        decreases evs.len(),
    {
        proof {
            lemma_flatten_first(evs@);
        }
        let ghost before = evs@;
        let e = evs.remove(0);
        proof {
            assert(evs@ =~= before.drop_first());
            done = done + e.toks();
            assert(done + flatten(evs@) =~= flatten(old(evs)@));
            assert forall|i: int| 0 <= i < evs@.len() implies (#[trigger] evs@[i]).wf() by {
                assert(evs@[i] == before[i + 1]);
            }
            assert forall|i: int| 0 <= i < toks_list(evs@).len() implies (#[trigger] toks_list(
                evs@,
            )[i]).len() > 0 by {
                assert(evs@[i] == before[i + 1]);
                assert(toks_list(before)[i + 1] == before[i + 1].toks());
            }
        }
        if !cb(e) {
            return (false, Ghost(done));
        }
    }
    (true, Ghost(done))
}

/// Hands every event of `evs` to `cb`.
fn hand_all<F: FnMut(VTEvent)>(evs: Vec<VTEvent>, cb: &mut F)
    requires
        forall|e: VTEvent, g: F| call_requires(g, (e,)),
{
    let mut evs = evs;
    while evs.len() > 0
        invariant
            forall|e: VTEvent, g: F| call_requires(g, (e,)),
        decreases evs.len(),
    {
        let e = evs.remove(0);
        cb(e);
    }
}

impl VTPushParser {
    /// Feeds `input` and returns the events it completes, after any events
    /// that an aborted feed left owed. Body bytes are coalesced: each run of
    /// text or body bytes within the call comes out as one event.
    pub fn feed(&mut self, input: &[u8]) -> (r: Vec<VTEvent>)
        requires
            old(self).wf(),
        ensures
            final(self).wf(),
            final(self)@ == run(old(self)@, input@).0,
            flatten(r@) == flatten(old(self).pending()) + run(old(self)@, input@).1,
            all_wf(r@),
            final(self).pending() == Seq::<VTEvent>::empty(),
            toks_list(r@) == feed_groups(old(self).pending(), old(self)@, input@),
            forall|i: int| 0 <= i < r@.len() ==> (#[trigger] r@[i]).toks().len() > 0,
            old(self)@.st == State::Ground && old(self).pending().len() == 0 && input@.len() > 0
                && text_only(input@) ==> r@.len() == 1 && r@[0] is Raw && r@[0]->Raw_0@
                == input@,
    {
        let ghost s0 = self@;
        let ghost p0 = self.pending@;
        let ghost plain = s0.st == State::Ground && p0.len() == 0 && text_only(input@);
        let mut out: Vec<VTEvent> = Vec::new();
        std::mem::swap(&mut out, &mut self.pending);
        let mut buf: Vec<u8> = Vec::new();
        let mut kind = VTEmit::Ground;
        let mut i: usize = 0;
        proof {
            assert(input@.take(0) =~= Seq::<u8>::empty());
            assert(data_toks(kind, buf@) =~= Seq::<Tok>::empty());
            assert(flatten(out@) + data_toks(kind, buf@) =~= flatten(p0) + run(s0, input@.take(0)).1);
            assert((toks_list(out@), data_toks(kind, buf@)) == grouping(
                (toks_list(p0), Seq::empty()),
                s0,
                input@.take(0),
            ));
        }
        while i < input.len()
            invariant
                0 <= i <= input@.len(),
                self.ints.wf(),
                all_wf(out@),
                self.pending@ == Seq::<VTEvent>::empty(),
                self@ == run(s0, input@.take(i as int)).0,
                plain == (s0.st == State::Ground && p0.len() == 0 && text_only(input@)),
                flatten(out@) + data_toks(kind, buf@) == flatten(p0) + run(s0, input@.take(i as int)).1,
                (toks_list(out@), data_toks(kind, buf@)) == grouping(
                    (toks_list(p0), Seq::empty()),
                    s0,
                    input@.take(i as int),
                ),
                plain ==> out@.len() == 0 && buf@ == input@.take(i as int) && kind == VTEmit::Ground
                    && self@.st == State::Ground,
            decreases input@.len() - i,
        {
            let b = input[i];
            proof {
                lemma_run_push(s0, input@.take(i as int), b);
                assert(input@.take(i as int + 1) =~= input@.take(i as int).push(b));
                if plain {
                    assert(text_only(input@));
                    assert(is_text_byte(input@[i as int]));
                    assert(input@.take(i as int + 1) =~= input@.take(i as int).push(b));
                }
            }
            let ghost gi = grouping((toks_list(p0), Seq::empty()), s0, input@.take(i as int));
            let ghost ri = run(s0, input@.take(i as int)).0;
            self.absorb(b, &mut out, &mut buf, &mut kind);
            proof {
                let t = input@.take(i as int + 1);
                assert(t.drop_last() =~= input@.take(i as int));
                assert(t.last() == b);
                assert(grouping((toks_list(p0), Seq::empty()), s0, t) == add_byte(gi, step(ri, b).1));
            }
            i += 1;
        }
        proof {
            assert(input@.take(i as int) =~= input@);
        }
        flush(&mut out, &mut buf, kind);
        proof {
            lemma_feed_groups(p0, s0, input@);
            assert forall|k: int| 0 <= k < out@.len() implies (#[trigger] out@[k]).toks().len()
                > 0 by {
                assert(toks_list(out@)[k] == out@[k].toks());
            }
        }
        out
    }

    /// Feeds bytes of `input` from `start` on until one of them completes an
    /// event (or the input ends), and returns the owed events, the events
    /// completed, and where it stopped.
    pub fn feed_next(&mut self, input: &[u8], start: usize) -> (r: (Vec<VTEvent>, usize))
        requires
            old(self).wf(),
            start <= input@.len(),
        ensures
            final(self).wf(),
            start <= r.1 <= input@.len(),
            start < input@.len() ==> start < r.1,
            final(self)@ == run(old(self)@, input@.subrange(start as int, r.1 as int)).0,
            flatten(r.0@) == flatten(old(self).pending()) + run(
                old(self)@,
                input@.subrange(start as int, r.1 as int),
            ).1,
            all_wf(r.0@),
            final(self).pending() == Seq::<VTEvent>::empty(),
            toks_list(r.0@) == feed_groups(
                old(self).pending(),
                old(self)@,
                input@.subrange(start as int, r.1 as int),
            ),
            forall|i: int| 0 <= i < r.0@.len() ==> (#[trigger] r.0@[i]).toks().len() > 0,
    {
        let ghost s0 = self@;
        let ghost p0 = self.pending@;
        let mut out: Vec<VTEvent> = Vec::new();
        std::mem::swap(&mut out, &mut self.pending);
        let mut buf: Vec<u8> = Vec::new();
        let mut kind = VTEmit::Ground;
        let mut i: usize = start;
        proof {
            assert(input@.subrange(start as int, start as int) =~= Seq::<u8>::empty());
            assert(data_toks(kind, buf@) =~= Seq::<Tok>::empty());
            assert(flatten(out@) + data_toks(kind, buf@) =~= flatten(p0) + run(
                s0,
                input@.subrange(start as int, start as int),
            ).1);
            assert((toks_list(out@), data_toks(kind, buf@)) == grouping(
                (toks_list(p0), Seq::empty()),
                s0,
                input@.subrange(start as int, start as int),
            ));
        }
        while i < input.len()
            invariant
                start <= i <= input@.len(),
                s0 == old(self)@,
                p0 == old(self).pending(),
                self.ints.wf(),
                all_wf(out@),
                self.pending@ == Seq::<VTEvent>::empty(),
                self@ == run(s0, input@.subrange(start as int, i as int)).0,
                flatten(out@) + data_toks(kind, buf@) == flatten(p0) + run(
                    s0,
                    input@.subrange(start as int, i as int),
                ).1,
                (toks_list(out@), data_toks(kind, buf@)) == grouping(
                    (toks_list(p0), Seq::empty()),
                    s0,
                    input@.subrange(start as int, i as int),
                ),
            ensures
                start < input@.len() ==> start < i,
                start <= i <= input@.len(),
                self.ints.wf(),
                all_wf(out@),
                self.pending@ == Seq::<VTEvent>::empty(),
                self@ == run(s0, input@.subrange(start as int, i as int)).0,
                flatten(out@) + data_toks(kind, buf@) == flatten(p0) + run(
                    s0,
                    input@.subrange(start as int, i as int),
                ).1,
                (toks_list(out@), data_toks(kind, buf@)) == grouping(
                    (toks_list(p0), Seq::empty()),
                    s0,
                    input@.subrange(start as int, i as int),
                ),
            decreases input@.len() - i,
        {
            let b = input[i];
            proof {
                lemma_run_push(s0, input@.subrange(start as int, i as int), b);
                assert(input@.subrange(start as int, i as int + 1) =~= input@.subrange(
                    start as int,
                    i as int,
                ).push(b));
            }
            let ghost gi = grouping(
                (toks_list(p0), Seq::empty()),
                s0,
                input@.subrange(start as int, i as int),
            );
            let ghost ri = run(s0, input@.subrange(start as int, i as int)).0;
            self.absorb(b, &mut out, &mut buf, &mut kind);
            proof {
                let t = input@.subrange(start as int, i as int + 1);
                assert(t.drop_last() =~= input@.subrange(start as int, i as int));
                assert(t.last() == b);
                assert(grouping((toks_list(p0), Seq::empty()), s0, t) == add_byte(gi, step(ri, b).1));
            }
            i += 1;
            if out.len() > 0 {
                break ;
            }
        }
        flush(&mut out, &mut buf, kind);
        proof {
            lemma_feed_groups(p0, s0, input@.subrange(start as int, i as int));
            assert forall|k: int| 0 <= k < out@.len() implies (#[trigger] out@[k]).toks().len()
                > 0 by {
                assert(toks_list(out@)[k] == out@[k].toks());
            }
        }
        (out, i)
    }

    /// Feeds `input`, handing each event to `cb`.
    pub fn feed_with<F: FnMut(VTEvent)>(&mut self, input: &[u8], cb: &mut F)
        requires
            old(self).wf(),
            forall|e: VTEvent, g: F| call_requires(g, (e,)),
        ensures
            final(self).wf(),
            final(self)@ == run(old(self)@, input@).0,
            final(self).pending() == Seq::<VTEvent>::empty(),
    {
        let evs = self.feed(input);
        hand_all(evs, cb);
    }

    /// Feeds `input`, handing each event to `cb` until it returns false.
    /// Returns how many bytes were consumed: the parser stands as if only they
    /// had been fed, and the events they completed that `cb` did not take yet
    /// are owed (the next feed hands them out first).
    pub fn feed_with_abortable<F: FnMut(VTEvent) -> bool>(
        &mut self,
        input: &[u8],
        cb: &mut F,
    ) -> (n: usize)
        requires
            old(self).wf(),
            forall|e: VTEvent, g: F| call_requires(g, (e,)),
        ensures
            final(self).wf(),
            n <= input@.len(),
            final(self)@ == run(old(self)@, input@.take(n as int)).0,
            exists|d: Seq<Tok>|
                d + flatten(final(self).pending()) == flatten(old(self).pending()) + run(
                    old(self)@,
                    input@.take(n as int),
                ).1,
            (forall|e: VTEvent, g: F, x: bool| call_ensures(g, (e,), x) ==> x) ==> n
                == input@.len(),
            old(self).pending().len() == 0 && input@.len() > 0 ==> n > 0,
            old(self).pending().len() == 0 && run(old(self)@, input@).1.len() == 0 ==> n
                == input@.len(),
    {
        let ghost s0 = self@;
        let ghost p0 = self.pending@;
        let ghost quiet = p0.len() == 0 && run(s0, input@).1.len() == 0;
        let mut owed: Vec<VTEvent> = Vec::new();
        std::mem::swap(&mut owed, &mut self.pending);
        let (ok, Ghost(done0)) = hand_out(&mut owed, cb);
        proof {
            assert(input@.take(0) =~= Seq::<u8>::empty());
            assert(flatten(p0) + run(s0, input@.take(0)).1 =~= flatten(p0));
        }
        if !ok {
            self.pending = owed;
            proof {
                assert(done0 + flatten(self.pending()) == flatten(old(self).pending()) + run(
                    old(self)@,
                    input@.take(0),
                ).1);
            }
            return 0;
        }
        let ghost mut done = done0;
        proof {
            assert(done =~= flatten(p0));
        }
        let mut buf: Vec<u8> = Vec::new();
        let mut kind = VTEmit::Ground;
        let mut i: usize = 0;
        proof {
            assert(done + data_toks(kind, buf@) =~= flatten(p0) + run(s0, input@.take(0)).1);
        }
        while i < input.len()
            invariant
                0 <= i <= input@.len(),
                forall|e: VTEvent, g: F| call_requires(g, (e,)),
                s0 == old(self)@,
                p0 == old(self).pending(),
                self.ints.wf(),
                self.pending@ == Seq::<VTEvent>::empty(),
                self@ == run(s0, input@.take(i as int)).0,
                done + data_toks(kind, buf@) == flatten(p0) + run(s0, input@.take(i as int)).1,
                quiet == (p0.len() == 0 && run(s0, input@).1.len() == 0),
                quiet ==> buf@.len() == 0,
            decreases input@.len() - i,
        {
            let b = input[i];
            let ghost prev = run(s0, input@.take(i as int));
            let ghost data0 = data_toks(kind, buf@);
            proof {
                lemma_run_push(s0, input@.take(i as int), b);
                assert(input@.take(i as int + 1) =~= input@.take(i as int).push(b));
                if quiet {
                    crate::laws::lemma_run_concat(
                        s0,
                        input@.take(i as int + 1),
                        input@.skip(i as int + 1),
                    );
                    assert(input@.take(i as int + 1) + input@.skip(i as int + 1) =~= input@);
                    assert(step(prev.0, b).1.len() == 0);
                }
            }
            let mut evs = self.absorb_fresh(b, &mut buf, &mut kind);
            i += 1;
            let ghost mid = done;
            proof {
                let st = step(prev.0, b).1;
                assert(run(s0, input@.take(i as int)).1 == prev.1 + st);
                assert(flatten(evs@) + data_toks(kind, buf@) == data0 + st);
                assert(mid + data0 == flatten(p0) + prev.1);
                assert(mid + (data0 + st) =~= (mid + data0) + st);
                assert((flatten(p0) + prev.1) + st =~= flatten(p0) + (prev.1 + st));
                assert(mid + (flatten(evs@) + data_toks(kind, buf@)) =~= flatten(p0) + (prev.1 + st));
                assert(mid + flatten(evs@) + data_toks(kind, buf@) =~= flatten(p0) + run(
                    s0,
                    input@.take(i as int),
                ).1);
            }
            let (ok, Ghost(d)) = hand_out(&mut evs, cb);
            proof {
                done = mid + d;
                assert(done + flatten(evs@) + data_toks(kind, buf@) =~= flatten(p0) + run(
                    s0,
                    input@.take(i as int),
                ).1);
            }
            if !ok {
                proof {
                    lemma_close((toks_list(evs@), data_toks(kind, buf@)));
                }
                flush(&mut evs, &mut buf, kind);
                self.pending = evs;
                proof {
                    assert(done + flatten(self.pending@) =~= flatten(p0) + run(
                        s0,
                        input@.take(i as int),
                    ).1);
                }
                proof {
                    assert(self@ == run(s0, input@.take(i as int)).0);
                    assert(done + flatten(self.pending()) == flatten(old(self).pending()) + run(
                        old(self)@,
                        input@.take(i as int),
                    ).1);
                }
                return i;
            }
            proof {
                assert(evs@.len() == 0);
                assert(flatten(evs@) == Seq::<Tok>::empty());
                assert(done + data_toks(kind, buf@) =~= flatten(p0) + run(s0, input@.take(i as int)).1);
            }
        }
        proof {
            assert(input@.take(i as int) =~= input@);
        }
        let mut evs: Vec<VTEvent> = Vec::new();
        proof {
            assert(flatten(evs@) == Seq::<Tok>::empty());
            assert(toks_list(evs@) =~= Seq::<Seq<Tok>>::empty());
            lemma_close((toks_list(evs@), data_toks(kind, buf@)));
        }
        flush(&mut evs, &mut buf, kind);
        let ghost mid = done;
        let (_, Ghost(d)) = hand_out(&mut evs, cb);
        self.pending = evs;
        proof {
            assert(flatten(Seq::<VTEvent>::empty()) == Seq::<Tok>::empty());
            assert((mid + d) + flatten(self.pending@) =~= flatten(p0) + run(s0, input@).1);
            assert(input@.take(input@.len() as int) =~= input@);
            assert((mid + d) + flatten(self.pending()) == flatten(old(self).pending()) + run(
                old(self)@,
                input@.take(input@.len() as int),
            ).1);
        }
        input.len()
    }

    /// Tells the parser that no more bytes are coming soon. An escape that is
    /// still open is given up: a lone ESC comes out as `C0(ESC)`, other
    /// prefixes as a recovery event when the interest asks for those.
    pub fn idle(&mut self) -> (r: Option<VTEvent>)
        requires
            old(self).wf(),
        ensures
            final(self).wf(),
            final(self)@ == idle_step(old(self)@).0,
            opt_toks(r) == idle_step(old(self)@).1,
            r is None <==> idle_step(old(self)@).1.len() == 0,
            final(self).pending() == old(self).pending(),
            r matches Some(e) ==> e.wf() && is_header_event(e),
    {
        match self.st {
            State::Escape => {
                self.goto(State::Ground);
                Some(VTEvent::C0(ESC))
            },
            State::EscInt => {
                let e = self.invalid_prefix();
                let want = match e {
                    VTEvent::C0(_) => true,
                    _ => self.has(VT_PARSER_INTEREST_ESCAPE_RECOVERY),
                };
                let ghost s = self@;
                proof {
                    lemma_keep_small(s.interest, seq![s.invalid_prefix()]);
                }
                self.goto(State::Ground);
                if want {
                    Some(e)
                } else {
                    None
                }
            },
            State::EscSs2 | State::EscSs3 => {
                let c = if self.st == State::EscSs2 {
                    SS2_INTRO
                } else {
                    SS3_INTRO
                };
                proof {
                    lemma_keep_small(self@.interest, seq![Tok::EscInvalid(EscInvalid::One(c))]);
                }
                let want = self.has(VT_PARSER_INTEREST_ESCAPE_RECOVERY);
                self.goto(State::Ground);
                if want {
                    Some(VTEvent::EscInvalid(EscInvalid::One(c)))
                } else {
                    None
                }
            },
            _ => None,
        }
    }

    /// Ends the stream: returns the owed events and, if a DCS or OSC body is
    /// open, its cancel event; the parser starts over.
    pub fn finish_events(&mut self) -> (r: Vec<VTEvent>)
        requires
            old(self).wf(),
        ensures
            final(self).wf(),
            final(self)@ == finish_step(old(self)@).0,
            final(self)@ == initial(old(self)@.interest),
            flatten(r@) == flatten(old(self).pending()) + finish_step(old(self)@).1,
            r@.len() == old(self).pending().len() + finish_step(old(self)@).1.len(),
            r@.take(old(self).pending().len() as int) == old(self).pending(),
            finish_step(old(self)@).1.len() == 1 ==> r@.last().toks() == finish_step(
                old(self)@,
            ).1,
            all_wf(r@),
            final(self).pending() == Seq::<VTEvent>::empty(),
    {
        let ghost s = self@;
        let mut out: Vec<VTEvent> = Vec::new();
        std::mem::swap(&mut out, &mut self.pending);
        let cancel = match self.st {
            State::DcsPassthrough | State::DcsEsc => if self.has(VT_PARSER_INTEREST_DCS) {
                Some(VTEvent::DcsCancel)
            } else {
                None
            },
            State::OscString | State::OscEsc => if self.has(VT_PARSER_INTEREST_OSC) {
                Some(VTEvent::OscCancel)
            } else {
                None
            },
            _ => None,
        };
        proof {
            lemma_keep_small(s.interest, seq![Tok::DcsCancel]);
            lemma_keep_small(s.interest, seq![Tok::OscCancel]);
        }
        if let Some(e) = cancel {
            proof {
                lemma_flatten_push(out@, e);
            }
            out.push(e);
        } else {
            assert(flatten(out@) + finish_step(s).1 =~= flatten(out@));
        }
        self.enter_escape();
        self.goto(State::Ground);
        out
    }

    /// Ends the stream, handing the events of [`VTPushParser::finish_events`]
    /// to `cb`.
    pub fn finish<F: FnMut(VTEvent)>(&mut self, cb: &mut F)
        requires
            old(self).wf(),
            forall|e: VTEvent, g: F| call_requires(g, (e,)),
        ensures
            final(self).wf(),
            final(self)@ == finish_step(old(self)@).0,
            final(self)@ == initial(old(self)@.interest),
            final(self).pending() == Seq::<VTEvent>::empty(),
    {
        let evs = self.finish_events();
        hand_all(evs, cb);
    }

    /// Decodes a whole buffer with a default parser, ending the stream: the
    /// events of feeding `input` to a new parser, then those of the end.
    pub fn decode(input: &[u8]) -> (r: Vec<VTEvent>)
        ensures
            toks_list(r@) == feed_groups(Seq::empty(), initial(VT_PARSER_INTEREST_DEFAULT), input@)
                + end_groups(run(initial(VT_PARSER_INTEREST_DEFAULT), input@).0),
            forall|i: int| 0 <= i < r@.len() ==> (#[trigger] r@[i]).toks().len() > 0,
    {
        let mut parser = VTPushParser::new();
        let mut evs = parser.feed(input);
        let ghost s1 = parser@;
        let ghost a = evs@;
        let mut end = parser.finish_events();
        let ghost b = end@;
        proof {
            lemma_keep_len(s1.interest, seq![Tok::DcsCancel]);
            lemma_keep_len(s1.interest, seq![Tok::OscCancel]);
            assert(finish_step(s1).1.len() <= 1);
            if b.len() == 1 {
                assert(toks_list(b) =~= seq![finish_step(s1).1]);
            } else {
                assert(toks_list(b) =~= Seq::<Seq<Tok>>::empty());
            }
        }
        evs.append(&mut end);
        proof {
            assert(toks_list(evs@) =~= toks_list(a) + toks_list(b));
            assert forall|i: int| 0 <= i < evs@.len() implies (#[trigger] evs@[i]).toks().len()
                > 0 by {
                if i >= a.len() {
                    assert(evs@[i] == b[i - a.len()]);
                    assert(b[i - a.len()].toks() == finish_step(s1).1);
                    assert(finish_step(s1).1.len() > 0);
                }
            }
        }
        evs
    }

    /// Decodes a whole buffer with a default parser, ending the stream, and
    /// hands the events of [`VTPushParser::decode`] to `cb` in order.
    pub fn decode_buffer<F: FnMut(VTEvent)>(input: &[u8], cb: &mut F)
        requires
            forall|e: VTEvent, g: F| call_requires(g, (e,)),
    {
        let evs = VTPushParser::decode(input);
        hand_all(evs, cb);
    }
}

impl Default for VTPushParser {
    fn default() -> (r: Self)
        ensures
            r.wf(),
            r@ == initial(VT_PARSER_INTEREST_DEFAULT),
            r.pending() == Seq::<VTEvent>::empty(),
    {
        VTPushParser::new()
    }
}

impl VTPushParser {
    /// Feeds one byte and returns the events it finishes.
    fn absorb_fresh(&mut self, b: u8, buf: &mut Vec<u8>, kind: &mut VTEmit) -> (evs: Vec<VTEvent>)
        requires
            old(self).ints.wf(),
        ensures
            final(self)@ == step(old(self)@, b).0,
            final(self).ints.wf(),
            final(self).pending == old(self).pending,
            flatten(evs@) + data_toks(*final(kind), final(buf)@) == data_toks(*old(kind), old(buf)@)
                + step(old(self)@, b).1,
            all_wf(evs@),
            all_nonempty(toks_list(evs@)),
            old(buf)@.len() == 0 && step(old(self)@, b).1.len() == 0 ==> evs@.len() == 0
                && final(buf)@.len() == 0,
    {
        let mut evs: Vec<VTEvent> = Vec::new();
        let ghost d0 = data_toks(*kind, buf@);
        proof {
            assert(flatten(evs@) == Seq::<Tok>::empty());
            assert(flatten(evs@) + d0 =~= d0);
            assert(toks_list(evs@) =~= Seq::<Seq<Tok>>::empty());
        }
        self.absorb(b, &mut evs, buf, kind);
        proof {
            let g0: Groups = (Seq::empty(), d0);
            lemma_step_toks_len(old(self)@, b);
            lemma_add_byte(g0, step(old(self)@, b).1);
            lemma_flatten_concat_list(evs@);
            assert(concat(g0.0) + g0.1 =~= d0);
            assert(toks_list(evs@).len() == evs@.len());
            if old(buf)@.len() == 0 && step(old(self)@, b).1.len() == 0 {
                assert(d0 =~= Seq::<Tok>::empty());
                assert(toks_list(evs@) =~= Seq::<Seq<Tok>>::empty());
            }
        }
        evs
    }
}

/// `r` is what `core_step` says byte `b` does to `old`, which becomes `new`.
pub open spec fn handled(old: PState, new: PState, r: VTAction, b: u8) -> bool {
    &&& new == core_step(old, b).0
    &&& new.interest == old.interest
    &&& r.toks(b) == core_step(old, b).1
    &&& r.wf()
}

/// The state of a new parser.
pub open spec fn initial(interest: u8) -> PState {
    PState {
        st: State::Ground,
        ints: VTIntermediate { b0: 0, b1: 0 },
        params: Seq::empty(),
        cur: Seq::empty(),
        private: None,
        interest,
    }
}

} // verus!
