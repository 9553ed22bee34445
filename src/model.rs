//! The automaton as a byte-level transducer: [`step`] maps a state and a byte
//! to the next state and the tokens that byte produces, [`run`] folds it over
//! an input.
use vstd::prelude::*;

use crate::event::{Esc, EscInvalid, Tok, VTEmit, VTIntermediate, is_intermediate_byte};
use crate::header::{LIST_CAP, PARAM_CAP};
use crate::{
    APC_INTRO, BEL, CAN, CSI_INTRO, DCS_INTRO, DEL, ESC, OSC_INTRO, PM_INTRO, SOS_INTRO, SS2_INTRO,
    SS3_INTRO, ST_FINAL, SUB, VT_PARSER_DCS_COLON_PARAMS, VT_PARSER_INTEREST_CSI, VT_PARSER_INTEREST_DCS,
    VT_PARSER_INTEREST_ESCAPE_RECOVERY, VT_PARSER_INTEREST_OSC, VT_PARSER_INTEREST_OTHER,
};

verus! {

/// The states of the automaton.
#[derive(Clone, Copy, PartialEq, Eq, Structural, Debug)]
pub enum State {
    Ground,
    Escape,
    EscInt,
    EscSs2,
    EscSs3,
    CsiEntry,
    CsiParam,
    CsiInt,
    CsiIgnore,
    DcsEntry,
    DcsParam,
    DcsInt,
    DcsIgnore,
    DcsIgnoreEsc,
    DcsPassthrough,
    DcsEsc,
    OscString,
    OscEsc,
    SosPmApcString,
    SpaEsc,
}

/// What the parser holds between bytes.
pub struct PState {
    pub st: State,
    pub ints: VTIntermediate,
    /// Finished parameters of the header being read.
    pub params: Seq<Seq<u8>>,
    /// The parameter being read.
    pub cur: Seq<u8>,
    pub private: Option<u8>,
    pub interest: u8,
}

pub open spec fn is_c0_byte(b: u8) -> bool {
    b <= 0x1f && b != 0x0d && b != 0x0a && b != 0x09
}

pub open spec fn is_printable_byte(b: u8) -> bool {
    0x20 <= b <= 0x7e
}

pub open spec fn is_final_byte(b: u8) -> bool {
    0x40 <= b <= 0x7e
}

/// The final bytes of an ESC sequence.
pub open spec fn is_esc_final_byte(b: u8) -> bool {
    0x30 <= b <= 0x7e
}

pub open spec fn is_digit_byte(b: u8) -> bool {
    0x30 <= b <= 0x39
}

pub open spec fn is_private_byte(b: u8) -> bool {
    b == 0x3c || b == 0x3d || b == 0x3e || b == 0x3f
}

/// `cur` with `b` appended, unless it is as long as a parameter can be.
pub open spec fn capped_push(cur: Seq<u8>, b: u8) -> Seq<u8> {
    if cur.len() < PARAM_CAP {
        cur.push(b)
    } else {
        cur
    }
}

pub open spec fn has_flag(interest: u8, flag: u8) -> bool {
    interest & flag != 0
}

impl PState {
    pub open spec fn wf(self) -> bool {
        self.ints.wf()
    }

    pub open spec fn goto(self, st: State) -> PState {
        PState { st, ..self }
    }

    /// Enter `Escape` with empty header collectors.
    pub open spec fn escape(self) -> PState {
        PState {
            st: State::Escape,
            ints: VTIntermediate { b0: 0, b1: 0 },
            params: Seq::empty(),
            cur: Seq::empty(),
            private: None,
            ..self
        }
    }

    /// The parameter read so far is finished (and dropped once a header holds
    /// as many as it can).
    pub open spec fn next_param(self) -> PState {
        PState {
            params: if self.params.len() < LIST_CAP {
                self.params.push(self.cur)
            } else {
                self.params
            },
            cur: Seq::empty(),
            ..self
        }
    }

    pub open spec fn finish_params(self) -> PState {
        if self.cur.len() > 0 || self.params.len() > 0 {
            self.next_param()
        } else {
            self
        }
    }

    /// Push an intermediate; on refusal go to `fail`.
    pub open spec fn push_int(self, c: u8, ok: State, fail: State) -> PState {
        match self.ints.pushed(c) {
            Some(i) => PState { st: ok, ints: i, ..self },
            None => self.goto(fail),
        }
    }

    /// The recovery event for the header so far followed by `b`.
    pub open spec fn invalid_with(self, b: u8) -> Tok {
        let n = self.ints.bytes().len();
        let i = self.ints;
        Tok::EscInvalid(
            match self.private {
                Some(p) => if n == 0 {
                    EscInvalid::Two(p, b)
                } else if n == 1 {
                    EscInvalid::Three(p, i.b0, b)
                } else {
                    EscInvalid::Four(p, i.b0, i.b1, b)
                },
                None => if n == 0 {
                    EscInvalid::One(b)
                } else if n == 1 {
                    EscInvalid::Two(i.b0, b)
                } else {
                    EscInvalid::Three(i.b0, i.b1, b)
                },
            },
        )
    }

    /// The recovery event for the header so far.
    pub open spec fn invalid_prefix(self) -> Tok {
        let n = self.ints.bytes().len();
        let i = self.ints;
        match self.private {
            Some(p) => Tok::EscInvalid(
                if n == 0 {
                    EscInvalid::One(p)
                } else if n == 1 {
                    EscInvalid::Two(p, i.b0)
                } else {
                    EscInvalid::Three(p, i.b0, i.b1)
                },
            ),
            None => if n == 0 {
                Tok::C0(ESC)
            } else if n == 1 {
                Tok::EscInvalid(EscInvalid::One(i.b0))
            } else {
                Tok::EscInvalid(EscInvalid::Two(i.b0, i.b1))
            },
        }
    }

    pub open spec fn esc_tok(self, c: u8) -> Tok {
        Tok::Esc(Esc { intermediates: self.ints, private: self.private, final_byte: c })
    }

    pub open spec fn csi_tok(self, c: u8) -> Tok {
        let f = self.finish_params();
        Tok::Csi(f.private, f.params, f.ints, c)
    }

    pub open spec fn dcs_tok(self, c: u8) -> Tok {
        let f = self.finish_params();
        Tok::DcsStart(f.private, f.params, f.ints, c)
    }

    /// The state after a header was sent: parameters finished, private taken.
    pub open spec fn sent(self, st: State) -> PState {
        PState { st, private: None, ..self.finish_params() }
    }
}

pub open spec fn none(s: PState) -> (PState, Seq<Tok>) {
    (s, Seq::empty())
}

pub open spec fn one(s: PState, t: Tok) -> (PState, Seq<Tok>) {
    (s, seq![t])
}

pub open spec fn step_ground(s: PState, b: u8) -> (PState, Seq<Tok>) {
    if b == ESC {
        none(s.escape())
    } else if b == DEL || is_c0_byte(b) {
        one(s, Tok::C0(b))
    } else {
        one(s, Tok::Data(VTEmit::Ground, b))
    }
}

pub open spec fn step_escape(s: PState, b: u8) -> (PState, Seq<Tok>) {
    if b == CAN || b == SUB || b == DEL {
        one(s.goto(State::Ground), Tok::EscInvalid(EscInvalid::One(b)))
    } else if is_intermediate_byte(b) {
        none(s.push_int(b, State::EscInt, State::Ground))
    } else if is_private_byte(b) {
        none(PState { st: State::EscInt, private: Some(b), ..s })
    } else if b == CSI_INTRO {
        none(
            s.goto(
                if has_flag(s.interest, VT_PARSER_INTEREST_CSI) {
                    State::CsiEntry
                } else {
                    State::CsiIgnore
                },
            ),
        )
    } else if b == DCS_INTRO {
        none(
            s.goto(
                if has_flag(s.interest, VT_PARSER_INTEREST_DCS) {
                    State::DcsEntry
                } else {
                    State::DcsIgnore
                },
            ),
        )
    } else if b == OSC_INTRO {
        one(s.goto(State::OscString), Tok::OscStart)
    } else if b == SS2_INTRO {
        none(s.goto(State::EscSs2))
    } else if b == SS3_INTRO {
        none(s.goto(State::EscSs3))
    } else if b == SOS_INTRO || b == PM_INTRO || b == APC_INTRO {
        none(s.goto(State::SosPmApcString))
    } else if is_esc_final_byte(b) {
        one(PState { st: State::Ground, private: None, ..s }, s.esc_tok(b))
    } else if b == ESC {
        one(s, Tok::C0(ESC))
    } else {
        one(s.goto(State::Ground), Tok::EscInvalid(EscInvalid::One(b)))
    }
}

pub open spec fn step_esc_int(s: PState, b: u8) -> (PState, Seq<Tok>) {
    if b == CAN || b == SUB || b == DEL {
        one(s.goto(State::Ground), s.invalid_with(b))
    } else if is_intermediate_byte(b) {
        match s.ints.pushed(b) {
            Some(i) => none(PState { ints: i, ..s }),
            None => one(s.goto(State::Ground), s.invalid_with(b)),
        }
    } else if is_esc_final_byte(b) {
        one(PState { st: State::Ground, private: None, ..s }, s.esc_tok(b))
    } else if b == ESC {
        one(s.escape(), s.invalid_prefix())
    } else {
        one(s.goto(State::Ground), s.invalid_with(b))
    }
}

pub open spec fn step_ss(s: PState, b: u8, intro: u8) -> (PState, Seq<Tok>) {
    if b == CAN || b == SUB {
        one(s.goto(State::Ground), Tok::EscInvalid(EscInvalid::Two(intro, b)))
    } else if b == ESC {
        one(s.escape(), Tok::EscInvalid(EscInvalid::One(intro)))
    } else if intro == SS2_INTRO {
        one(s.goto(State::Ground), Tok::Ss2(b))
    } else {
        one(s.goto(State::Ground), Tok::Ss3(b))
    }
}

/// `CsiEntry`, `CsiParam` and `CsiInt`.
pub open spec fn step_csi(s: PState, b: u8) -> (PState, Seq<Tok>) {
    let header = s.st == State::CsiEntry || s.st == State::CsiParam;
    if b == CAN || b == SUB {
        none(s.goto(State::Ground))
    } else if b == DEL {
        none(s)
    } else if b == ESC {
        none(s.escape())
    } else if s.st == State::CsiEntry && is_private_byte(b) {
        none(PState { st: State::CsiParam, private: Some(b), ..s })
    } else if header && (is_digit_byte(b) || b == 0x3a) {
        none(PState { st: State::CsiParam, cur: capped_push(s.cur, b), ..s })
    } else if header && b == 0x3b {
        none(s.next_param().goto(State::CsiParam))
    } else if is_intermediate_byte(b) {
        none(s.push_int(b, State::CsiInt, State::Ground))
    } else if is_final_byte(b) {
        one(s.sent(State::Ground), s.csi_tok(b))
    } else {
        none(s.goto(State::CsiIgnore))
    }
}

pub open spec fn step_csi_ignore(s: PState, b: u8) -> (PState, Seq<Tok>) {
    if b == CAN || b == SUB {
        none(s.goto(State::Ground))
    } else if b == ESC {
        none(s.escape())
    } else if b != DEL && is_final_byte(b) {
        none(s.goto(State::Ground))
    } else {
        none(s)
    }
}

/// `DcsEntry`, `DcsParam` and `DcsInt`.
pub open spec fn step_dcs(s: PState, b: u8) -> (PState, Seq<Tok>) {
    let header = s.st == State::DcsEntry || s.st == State::DcsParam;
    if b == CAN || b == SUB {
        none(s.goto(State::Ground))
    } else if b == DEL {
        none(s)
    } else if b == ESC {
        none(s.escape())
    } else if s.st == State::DcsEntry && is_private_byte(b) {
        none(PState { st: State::DcsParam, private: Some(b), ..s })
    } else if header && (is_digit_byte(b) || b == 0x3a && has_flag(
        s.interest,
        VT_PARSER_DCS_COLON_PARAMS,
    )) {
        none(PState { st: State::DcsParam, cur: capped_push(s.cur, b), ..s })
    } else if header && b == 0x3b {
        none(s.next_param().goto(State::DcsParam))
    } else if is_intermediate_byte(b) {
        none(
            s.push_int(
                b,
                State::DcsInt,
                if s.st == State::DcsInt {
                    State::Ground
                } else {
                    State::DcsInt
                },
            ),
        )
    } else if is_final_byte(b) {
        one(s.sent(State::DcsPassthrough), s.dcs_tok(b))
    } else {
        none(s.goto(State::DcsIgnore))
    }
}

pub open spec fn step_string(s: PState, b: u8) -> (PState, Seq<Tok>) {
    match s.st {
        State::DcsIgnore => if b == CAN || b == SUB {
            none(s.goto(State::Ground))
        } else if b == ESC {
            none(s.goto(State::DcsIgnoreEsc))
        } else {
            none(s)
        },
        State::DcsIgnoreEsc => if b == CAN || b == SUB || b == ST_FINAL {
            none(s.goto(State::Ground))
        } else if b == DEL || b == ESC {
            none(s)
        } else {
            none(s.goto(State::DcsIgnore))
        },
        State::SosPmApcString => if b == CAN || b == SUB {
            none(s.goto(State::Ground))
        } else if b == ESC {
            none(s.goto(State::SpaEsc))
        } else {
            none(s)
        },
        State::SpaEsc => if b == ST_FINAL {
            none(s.goto(State::Ground))
        } else if b == DEL || b == ESC {
            none(s)
        } else {
            none(s.goto(State::SosPmApcString))
        },
        State::DcsPassthrough => if b == CAN || b == SUB {
            one(s.goto(State::Ground), Tok::DcsCancel)
        } else if b == DEL {
            none(s)
        } else if b == ESC {
            none(s.goto(State::DcsEsc))
        } else {
            one(s, Tok::Data(VTEmit::Dcs, b))
        },
        State::DcsEsc => if b == ST_FINAL {
            one(s.goto(State::Ground), Tok::DcsEnd)
        } else if b == DEL {
            none(s)
        } else if b == ESC {
            one(s, Tok::Data(VTEmit::Dcs, ESC))
        } else {
            (
                s.goto(State::DcsPassthrough),
                seq![Tok::Data(VTEmit::Dcs, ESC), Tok::Data(VTEmit::Dcs, b)],
            )
        },
        State::OscString => if b == CAN || b == SUB {
            one(s.goto(State::Ground), Tok::OscCancel)
        } else if b == BEL {
            one(s.goto(State::Ground), Tok::OscEnd(true))
        } else if b == ESC {
            none(s.goto(State::OscEsc))
        } else if is_printable_byte(b) {
            one(s, Tok::Data(VTEmit::Osc, b))
        } else {
            none(s)
        },
        _ => if b == ST_FINAL {
            one(s.goto(State::Ground), Tok::OscEnd(false))
        } else if b == DEL {
            none(s)
        } else if b == ESC {
            one(s, Tok::Data(VTEmit::Osc, ESC))
        } else {
            (
                s.goto(State::OscString),
                seq![Tok::Data(VTEmit::Osc, ESC), Tok::Data(VTEmit::Osc, b)],
            )
        },
    }
}

/// One byte, before the interest mask is applied.
#[verifier::opaque]
pub open spec fn core_step(s: PState, b: u8) -> (PState, Seq<Tok>) {
    match s.st {
        State::Ground => step_ground(s, b),
        State::Escape => step_escape(s, b),
        State::EscInt => step_esc_int(s, b),
        State::EscSs2 => step_ss(s, b, SS2_INTRO),
        State::EscSs3 => step_ss(s, b, SS3_INTRO),
        State::CsiEntry | State::CsiParam | State::CsiInt => step_csi(s, b),
        State::CsiIgnore => step_csi_ignore(s, b),
        State::DcsEntry | State::DcsParam | State::DcsInt => step_dcs(s, b),
        _ => step_string(s, b),
    }
}

/// Whether a parser built with `interest` hands out token `t`. Text and C0
/// controls always go out.
pub open spec fn wanted(interest: u8, t: Tok) -> bool {
    match t {
        Tok::Data(k, _) => k != VTEmit::Osc || has_flag(interest, VT_PARSER_INTEREST_OSC),
        Tok::C0(_) => true,
        Tok::Esc(_) | Tok::Ss2(_) | Tok::Ss3(_) => has_flag(interest, VT_PARSER_INTEREST_OTHER),
        Tok::EscInvalid(_) => has_flag(interest, VT_PARSER_INTEREST_ESCAPE_RECOVERY),
        Tok::Csi(..) => has_flag(interest, VT_PARSER_INTEREST_CSI),
        Tok::DcsStart(..) | Tok::DcsEnd | Tok::DcsCancel => has_flag(
            interest,
            VT_PARSER_INTEREST_DCS,
        ),
        Tok::OscStart | Tok::OscEnd(_) | Tok::OscCancel => has_flag(
            interest,
            VT_PARSER_INTEREST_OSC,
        ),
    }
}

/// The tokens of `ts` that a parser built with `interest` hands out.
pub open spec fn keep(interest: u8, ts: Seq<Tok>) -> Seq<Tok>
    decreases ts.len(),
{
    if ts.len() == 0 {
        ts
    } else if wanted(interest, ts.last()) {
        keep(interest, ts.drop_last()).push(ts.last())
    } else {
        keep(interest, ts.drop_last())
    }
}

/// One byte.
pub open spec fn step(s: PState, b: u8) -> (PState, Seq<Tok>) {
    (core_step(s, b).0, keep(s.interest, core_step(s, b).1))
}

pub proof fn lemma_step_interest(s: PState, b: u8)
    ensures
        step(s, b).0.interest == s.interest,
{
    reveal(core_step);
}

pub proof fn lemma_run_interest(s: PState, input: Seq<u8>)
    ensures
        run(s, input).0.interest == s.interest,
    decreases input.len(),
{
    if input.len() > 0 {
        lemma_run_interest(s, input.drop_last());
        lemma_step_interest(run(s, input.drop_last()).0, input.last());
    }
}

/// What an idle notification does: an escape that is still open is given up.
pub open spec fn idle_step(s: PState) -> (PState, Seq<Tok>) {
    let g = s.goto(State::Ground);
    match s.st {
        State::Escape => (g, seq![Tok::C0(ESC)]),
        State::EscInt => (g, keep(s.interest, seq![s.invalid_prefix()])),
        State::EscSs2 => (g, keep(s.interest, seq![Tok::EscInvalid(EscInvalid::One(SS2_INTRO))])),
        State::EscSs3 => (g, keep(s.interest, seq![Tok::EscInvalid(EscInvalid::One(SS3_INTRO))])),
        _ => (s, Seq::empty()),
    }
}

/// What the end of the stream does: an open body is cancelled and the parser
/// starts over.
pub open spec fn finish_step(s: PState) -> (PState, Seq<Tok>) {
    let fresh = PState {
        st: State::Ground,
        ints: VTIntermediate { b0: 0, b1: 0 },
        params: Seq::empty(),
        cur: Seq::empty(),
        private: None,
        interest: s.interest,
    };
    match s.st {
        State::DcsPassthrough | State::DcsEsc => (fresh, keep(s.interest, seq![Tok::DcsCancel])),
        State::OscString | State::OscEsc => (fresh, keep(s.interest, seq![Tok::OscCancel])),
        _ => (fresh, Seq::empty()),
    }
}

/// The state after `input` and the tokens it produced.
pub open spec fn run(s: PState, input: Seq<u8>) -> (PState, Seq<Tok>)
    decreases input.len(),
{
    if input.len() == 0 {
        (s, Seq::empty())
    } else {
        let r = run(s, input.drop_last());
        let t = step(r.0, input.last());
        (t.0, r.1 + t.1)
    }
}

} // verus!
