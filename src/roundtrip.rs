//! Re-encoding: the wire bytes of a trace give back the input, except where
//! the automaton drops bytes.
use vstd::prelude::*;

use crate::event::{
    Tok, VTEmit, VTEvent, VTIntermediate, data_toks, encode_all, flatten, is_intermediate_byte,
    join_params, opt_seq,
};
use crate::header::{LIST_CAP, PARAM_CAP};
use crate::parser::initial;
use crate::model::{
    PState, State, core_step, has_flag, is_digit_byte, is_esc_final_byte, is_final_byte, is_printable_byte,
    is_private_byte, keep, run, step, wanted,
};
use crate::{
    BEL, CAN, CSI_INTRO, DCS_INTRO, DEL, ESC, OSC_INTRO, SS2_INTRO, SS3_INTRO, ST_FINAL, SUB,
    VT_PARSER_INTEREST_ALL, VT_PARSER_INTEREST_CSI, VT_PARSER_INTEREST_DCS,
};

verus! {

/// The wire bytes of a token.
pub open spec fn tok_bytes(t: Tok) -> Seq<u8> {
    match t {
        Tok::Data(_, b) => seq![b],
        Tok::C0(b) => seq![b],
        Tok::Esc(e) => seq![ESC] + opt_seq(e.private) + e.intermediates.bytes() + seq![e.final_byte],
        Tok::EscInvalid(e) => seq![ESC] + e.bytes(),
        Tok::Ss2(c) => seq![ESC, SS2_INTRO, c],
        Tok::Ss3(c) => seq![ESC, SS3_INTRO, c],
        Tok::Csi(p, ps, i, f) => seq![ESC, CSI_INTRO] + opt_seq(p) + join_params(ps) + i.bytes()
            + seq![f],
        Tok::DcsStart(p, ps, i, f) => seq![ESC, DCS_INTRO] + opt_seq(p) + join_params(ps)
            + i.bytes() + seq![f],
        Tok::DcsEnd => seq![ESC, ST_FINAL],
        Tok::DcsCancel | Tok::OscCancel => seq![CAN],
        Tok::OscStart => seq![ESC, OSC_INTRO],
        Tok::OscEnd(bel) => if bel {
            seq![BEL]
        } else {
            seq![ESC, ST_FINAL]
        },
    }
}

/// The wire bytes of tokens, in order.
pub open spec fn toks_bytes(ts: Seq<Tok>) -> Seq<u8>
    decreases ts.len(),
{
    if ts.len() == 0 {
        Seq::empty()
    } else {
        toks_bytes(ts.drop_last()) + tok_bytes(ts.last())
    }
}

/// The bytes of the sequence being read, not yet handed out.
pub open spec fn pending(s: PState) -> Seq<u8> {
    let header = opt_seq(s.private) + join_params(s.params.push(s.cur)) + s.ints.bytes();
    match s.st {
        State::Escape | State::DcsEsc | State::OscEsc => seq![ESC],
        State::EscInt => seq![ESC] + opt_seq(s.private) + s.ints.bytes(),
        State::EscSs2 => seq![ESC, SS2_INTRO],
        State::EscSs3 => seq![ESC, SS3_INTRO],
        State::CsiEntry | State::CsiParam | State::CsiInt => seq![ESC, CSI_INTRO] + header,
        State::DcsEntry | State::DcsParam | State::DcsInt => seq![ESC, DCS_INTRO] + header,
        _ => Seq::empty(),
    }
}

/// What holds of the header collectors in each state.
pub open spec fn header_inv(s: PState) -> bool {
    let clear = s.ints.b0 == 0 && s.private is None && s.params.len() == 0 && s.cur.len() == 0;
    &&& s.ints.wf()
    &&& (s.st == State::Escape || s.st == State::CsiEntry || s.st == State::DcsEntry) ==> clear
    &&& (s.st == State::CsiParam || s.st == State::DcsParam) ==> s.ints.b0 == 0
}

/// Whether byte `b` in state `s` is kept: not discarded, not part of a
/// sequence that is abandoned or ignored, and not a recovery event.
pub open spec fn lossless(s: PState, b: u8) -> bool {
    let int_ok = is_intermediate_byte(b) && s.ints.pushed(b) is Some;
    match s.st {
        State::Ground => true,
        State::Escape => is_intermediate_byte(b) || is_private_byte(b) || (b == CSI_INTRO
            && has_flag(s.interest, VT_PARSER_INTEREST_CSI)) || (b == DCS_INTRO && has_flag(
            s.interest,
            VT_PARSER_INTEREST_DCS,
        )) || b == OSC_INTRO || b == SS2_INTRO || b == SS3_INTRO || (is_esc_final_byte(b)
            && b != 0x58 && b != 0x5e && b != 0x5f && b != CSI_INTRO && b != DCS_INTRO) || b == ESC,
        State::EscInt => int_ok || is_esc_final_byte(b) || (b == ESC
            && s.private is None && s.ints.b0 == 0),
        State::EscSs2 | State::EscSs3 => b != CAN && b != SUB && b != ESC,
        State::CsiEntry | State::CsiParam | State::CsiInt => {
            let header = s.st == State::CsiEntry || s.st == State::CsiParam;
            ||| s.st == State::CsiEntry && is_private_byte(b)
            ||| header && (is_digit_byte(b) || b == 0x3a) && s.cur.len() < PARAM_CAP
            ||| header && b == 0x3b && s.params.len() < LIST_CAP
            ||| int_ok
            ||| is_final_byte(b) && s.params.len() < LIST_CAP
        },
        State::DcsEntry | State::DcsParam | State::DcsInt => {
            let header = s.st == State::DcsEntry || s.st == State::DcsParam;
            ||| s.st == State::DcsEntry && is_private_byte(b)
            ||| header && is_digit_byte(b) && s.cur.len() < PARAM_CAP
            ||| header && b == 0x3b && s.params.len() < LIST_CAP
            ||| header && b == 0x3a && has_flag(s.interest, crate::VT_PARSER_DCS_COLON_PARAMS)
                && s.cur.len() < PARAM_CAP
            ||| int_ok
            ||| is_final_byte(b) && s.params.len() < LIST_CAP
        },
        State::DcsEsc | State::OscEsc => b != DEL,
        // SUB cancels like CAN, and goes back out as CAN.
        State::DcsPassthrough => b != DEL && b != SUB,
        State::OscString => b == CAN || b == BEL || b == ESC || is_printable_byte(b),
        _ => false,
    }
}

/// Every byte of `input` is kept, fed from `s`.
pub open spec fn all_lossless(s: PState, input: Seq<u8>) -> bool
    decreases input.len(),
{
    if input.len() == 0 {
        true
    } else {
        all_lossless(s, input.drop_last()) && lossless(run(s, input.drop_last()).0, input.last())
    }
}

proof fn lemma_pushed_bytes(i: VTIntermediate, c: u8)
    requires
        i.wf(),
        i.pushed(c) is Some,
    ensures
        i.pushed(c).unwrap().bytes() == i.bytes().push(c),
        i.pushed(c).unwrap().wf(),
{
    assert(i.pushed(c).unwrap().bytes() =~= i.bytes().push(c));
}

proof fn lemma_join_push(ps: Seq<Seq<u8>>, cur: Seq<u8>, b: u8)
    ensures
        join_params(ps.push(cur.push(b))) == join_params(ps.push(cur)) + seq![b],
        join_params(ps.push(cur).push(Seq::empty())) == join_params(ps.push(cur)) + seq![0x3bu8],
{
    assert(ps.push(cur.push(b)).drop_last() =~= ps);
    assert(ps.push(cur).drop_last() =~= ps);
    assert(ps.push(cur).push(Seq::<u8>::empty()).drop_last() =~= ps.push(cur));
    if ps.len() > 0 {
        assert(join_params(ps) + seq![0x3bu8] + cur.push(b) =~= join_params(ps) + seq![0x3bu8]
            + cur + seq![b]);
    }
    assert(join_params(ps.push(cur)) + seq![0x3bu8] + Seq::<u8>::empty() =~= join_params(
        ps.push(cur),
    ) + seq![0x3bu8]);
}

/// A finished header joins like the one being read.
proof fn lemma_join_finish(s: PState)
    ensures
        s.params.len() < LIST_CAP ==> join_params(s.finish_params().params) == join_params(
            s.params.push(s.cur),
        ),
{
    if !(s.cur.len() > 0 || s.params.len() > 0) {
        assert(s.params.push(s.cur) =~= seq![s.cur]);
        assert(s.cur =~= Seq::<u8>::empty());
    }
}

proof fn lemma_toks_small(ts: Seq<Tok>)
    requires
        ts.len() <= 2,
    ensures
        toks_bytes(ts) == (if ts.len() == 0 {
            Seq::<u8>::empty()
        } else if ts.len() == 1 {
            tok_bytes(ts[0])
        } else {
            tok_bytes(ts[0]) + tok_bytes(ts[1])
        }),
{
    if ts.len() >= 1 {
        let d = ts.drop_last();
        assert(toks_bytes(ts) == toks_bytes(d) + tok_bytes(ts.last()));
        if d.len() == 1 {
            let e = d.drop_last();
            assert(e.len() == 0);
            assert(toks_bytes(e) == Seq::<u8>::empty());
            assert(toks_bytes(d) == toks_bytes(e) + tok_bytes(d.last()));
            assert(toks_bytes(d) =~= tok_bytes(ts[0]));
        } else {
            assert(d.len() == 0);
            assert(toks_bytes(d) == Seq::<u8>::empty());
            assert(toks_bytes(ts) =~= tok_bytes(ts[0]));
        }
    }
}

#[verifier::rlimit(40)]
proof fn lemma_rt_ground(s: PState, b: u8)
    requires
        s.st == State::Ground,
        header_inv(s),
        lossless(s, b),
    ensures
        toks_bytes(core_step(s, b).1) + pending(core_step(s, b).0) == pending(s) + seq![b],
        header_inv(core_step(s, b).0),
        core_step(s, b).0.interest == s.interest,
{
    reveal(core_step);
    lemma_toks_small(core_step(s, b).1);
    assert(join_params(seq![Seq::<u8>::empty()]) == Seq::<u8>::empty());
    assert(Seq::<Seq<u8>>::empty().push(Seq::<u8>::empty()) =~= seq![Seq::<u8>::empty()]);
    assert(toks_bytes(core_step(s, b).1) + pending(core_step(s, b).0) =~= pending(s) + seq![b]);
}

#[verifier::rlimit(40)]
proof fn lemma_rt_escape(s: PState, b: u8)
    requires
        s.st == State::Escape,
        header_inv(s),
        lossless(s, b),
    ensures
        toks_bytes(core_step(s, b).1) + pending(core_step(s, b).0) == pending(s) + seq![b],
        header_inv(core_step(s, b).0),
        core_step(s, b).0.interest == s.interest,
{
    reveal(core_step);
    lemma_toks_small(core_step(s, b).1);
    assert(s.ints.bytes() =~= Seq::<u8>::empty());
    assert(s.cur =~= Seq::<u8>::empty());
    assert(s.params =~= Seq::<Seq<u8>>::empty());
    assert(s.params.push(s.cur) =~= seq![Seq::<u8>::empty()]);
    assert(join_params(seq![Seq::<u8>::empty()]) == Seq::<u8>::empty());
    assert(Seq::<Seq<u8>>::empty().push(Seq::<u8>::empty()) =~= seq![Seq::<u8>::empty()]);
    assert(toks_bytes(core_step(s, b).1) + pending(core_step(s, b).0) =~= pending(s) + seq![b]);
}

#[verifier::rlimit(40)]
proof fn lemma_rt_esc_int(s: PState, b: u8)
    requires
        s.st == State::EscInt || s.st == State::EscSs2 || s.st == State::EscSs3,
        header_inv(s),
        lossless(s, b),
    ensures
        toks_bytes(core_step(s, b).1) + pending(core_step(s, b).0) == pending(s) + seq![b],
        header_inv(core_step(s, b).0),
        core_step(s, b).0.interest == s.interest,
{
    reveal(core_step);
    lemma_toks_small(core_step(s, b).1);
    if is_intermediate_byte(b) && s.ints.pushed(b) is Some {
        lemma_pushed_bytes(s.ints, b);
    }
    assert(join_params(seq![Seq::<u8>::empty()]) == Seq::<u8>::empty());
    assert(Seq::<Seq<u8>>::empty().push(Seq::<u8>::empty()) =~= seq![Seq::<u8>::empty()]);
    assert(toks_bytes(core_step(s, b).1) + pending(core_step(s, b).0) =~= pending(s) + seq![b]);
}

#[verifier::rlimit(40)]
proof fn lemma_rt_csi(s: PState, b: u8)
    requires
        s.st == State::CsiEntry || s.st == State::CsiParam || s.st == State::CsiInt,
        header_inv(s),
        lossless(s, b),
    ensures
        toks_bytes(core_step(s, b).1) + pending(core_step(s, b).0) == pending(s) + seq![b],
        header_inv(core_step(s, b).0),
        core_step(s, b).0.interest == s.interest,
{
    reveal(core_step);
    lemma_toks_small(core_step(s, b).1);
    if is_intermediate_byte(b) && s.ints.pushed(b) is Some {
        lemma_pushed_bytes(s.ints, b);
    }
    lemma_join_push(s.params, s.cur, b);
    lemma_join_finish(s);
    assert(s.ints.b0 == 0 ==> s.ints.bytes() =~= Seq::<u8>::empty());
    assert(join_params(seq![Seq::<u8>::empty()]) == Seq::<u8>::empty());
    assert(Seq::<Seq<u8>>::empty().push(Seq::<u8>::empty()) =~= seq![Seq::<u8>::empty()]);
    assert(toks_bytes(core_step(s, b).1) + pending(core_step(s, b).0) =~= pending(s) + seq![b]);
}

#[verifier::rlimit(40)]
proof fn lemma_rt_dcs(s: PState, b: u8)
    requires
        s.st == State::DcsEntry || s.st == State::DcsParam || s.st == State::DcsInt,
        header_inv(s),
        lossless(s, b),
    ensures
        toks_bytes(core_step(s, b).1) + pending(core_step(s, b).0) == pending(s) + seq![b],
        header_inv(core_step(s, b).0),
        core_step(s, b).0.interest == s.interest,
{
    reveal(core_step);
    lemma_toks_small(core_step(s, b).1);
    if is_intermediate_byte(b) && s.ints.pushed(b) is Some {
        lemma_pushed_bytes(s.ints, b);
    }
    lemma_join_push(s.params, s.cur, b);
    lemma_join_finish(s);
    assert(s.ints.b0 == 0 ==> s.ints.bytes() =~= Seq::<u8>::empty());
    assert(join_params(seq![Seq::<u8>::empty()]) == Seq::<u8>::empty());
    assert(Seq::<Seq<u8>>::empty().push(Seq::<u8>::empty()) =~= seq![Seq::<u8>::empty()]);
    assert(toks_bytes(core_step(s, b).1) + pending(core_step(s, b).0) =~= pending(s) + seq![b]);
}

#[verifier::rlimit(40)]
proof fn lemma_rt_string(s: PState, b: u8)
    requires
        s.st == State::DcsPassthrough || s.st == State::DcsEsc || s.st == State::OscString || s.st == State::OscEsc,
        header_inv(s),
        lossless(s, b),
    ensures
        toks_bytes(core_step(s, b).1) + pending(core_step(s, b).0) == pending(s) + seq![b],
        header_inv(core_step(s, b).0),
        core_step(s, b).0.interest == s.interest,
{
    reveal(core_step);
    lemma_toks_small(core_step(s, b).1);
    assert(join_params(seq![Seq::<u8>::empty()]) == Seq::<u8>::empty());
    assert(Seq::<Seq<u8>>::empty().push(Seq::<u8>::empty()) =~= seq![Seq::<u8>::empty()]);
    assert(toks_bytes(core_step(s, b).1) + pending(core_step(s, b).0) =~= pending(s) + seq![b]);
}

proof fn lemma_step_round_trip(s: PState, b: u8)
    requires
        header_inv(s),
        lossless(s, b),
    ensures
        toks_bytes(core_step(s, b).1) + pending(core_step(s, b).0) == pending(s) + seq![b],
        header_inv(core_step(s, b).0),
        core_step(s, b).0.interest == s.interest,
{
    match s.st {
        State::Ground => lemma_rt_ground(s, b),
        State::Escape => lemma_rt_escape(s, b),
        State::EscInt | State::EscSs2 | State::EscSs3 => lemma_rt_esc_int(s, b),
        State::CsiEntry | State::CsiParam | State::CsiInt => lemma_rt_csi(s, b),
        State::DcsEntry | State::DcsParam | State::DcsInt => lemma_rt_dcs(s, b),
        _ => lemma_rt_string(s, b),
    }
}

proof fn lemma_toks_concat(a: Seq<Tok>, b: Seq<Tok>)
    ensures
        toks_bytes(a + b) == toks_bytes(a) + toks_bytes(b),
    decreases b.len(),
{
    if b.len() == 0 {
        assert(a + b =~= a);
        assert(toks_bytes(a) + toks_bytes(b) =~= toks_bytes(a));
    } else {
        lemma_toks_concat(a, b.drop_last());
        assert((a + b).drop_last() =~= a + b.drop_last());
        assert((a + b).last() == b.last());
        assert(toks_bytes(a) + toks_bytes(b.drop_last()) + tok_bytes(b.last()) =~= toks_bytes(a)
            + toks_bytes(b));
    }
}

proof fn lemma_keep_all(ts: Seq<Tok>)
    ensures
        keep(VT_PARSER_INTEREST_ALL, ts) == ts,
    decreases ts.len(),
{
    if ts.len() > 0 {
        lemma_keep_all(ts.drop_last());
        assert(has_flag(VT_PARSER_INTEREST_ALL, VT_PARSER_INTEREST_CSI)) by (bit_vector);
        assert(has_flag(VT_PARSER_INTEREST_ALL, VT_PARSER_INTEREST_DCS)) by (bit_vector);
        assert(has_flag(VT_PARSER_INTEREST_ALL, crate::VT_PARSER_INTEREST_OSC)) by (bit_vector);
        assert(has_flag(VT_PARSER_INTEREST_ALL, crate::VT_PARSER_INTEREST_ESCAPE_RECOVERY))
            by (bit_vector);
        assert(has_flag(VT_PARSER_INTEREST_ALL, crate::VT_PARSER_INTEREST_OTHER)) by (bit_vector);
        assert(wanted(VT_PARSER_INTEREST_ALL, ts.last()));
        assert(ts.drop_last().push(ts.last()) =~= ts);
    }
}

/// Round trip: fed to a parser that hands out everything, an input none of
/// whose bytes is dropped (`all_lossless`) comes back from the wire bytes of
/// the tokens followed by the sequence still being read; the sequence read
/// before comes first. From the ground state back to it, that is the input.
pub proof fn law_round_trip(s: PState, input: Seq<u8>)
    requires
        s.interest == VT_PARSER_INTEREST_ALL,
        header_inv(s),
        all_lossless(s, input),
    ensures
        toks_bytes(run(s, input).1) + pending(run(s, input).0) == pending(s) + input,
        header_inv(run(s, input).0),
        run(s, input).0.interest == s.interest,
    decreases input.len(),
{
    if input.len() == 0 {
        assert(toks_bytes(Seq::<Tok>::empty()) == Seq::<u8>::empty());
        assert(pending(s) + input =~= pending(s));
        assert(Seq::<u8>::empty() + pending(s) =~= pending(s));
    } else {
        let d = input.drop_last();
        let b = input.last();
        law_round_trip(s, d);
        let r = run(s, d);
        lemma_step_round_trip(r.0, b);
        lemma_keep_all(core_step(r.0, b).1);
        lemma_toks_concat(r.1, step(r.0, b).1);
        assert(d.push(b) =~= input);
        let c = core_step(r.0, b);
        assert(step(r.0, b) == (c.0, c.1));
        assert(toks_bytes(c.1) + pending(c.0) == pending(r.0) + seq![b]);
        assert(toks_bytes(r.1 + c.1) == toks_bytes(r.1) + toks_bytes(c.1));
        assert(toks_bytes(r.1) + toks_bytes(c.1) + pending(c.0) =~= toks_bytes(r.1) + (toks_bytes(
            c.1,
        ) + pending(c.0)));
        assert(toks_bytes(r.1) + (pending(r.0) + seq![b]) =~= (toks_bytes(r.1) + pending(r.0))
            + seq![b]);
        assert(pending(s) + d + seq![b] =~= pending(s) + input);
    }
}

proof fn lemma_data_bytes(k: VTEmit, v: Seq<u8>)
    ensures
        toks_bytes(data_toks(k, v)) == v,
    decreases v.len(),
{
    if v.len() > 0 {
        lemma_data_bytes(k, v.drop_last());
        assert(data_toks(k, v).drop_last() =~= data_toks(k, v.drop_last()));
        assert(v.drop_last() + seq![v.last()] =~= v);
    } else {
        assert(data_toks(k, v) =~= Seq::<Tok>::empty());
    }
}

proof fn lemma_event_bytes(e: VTEvent)
    ensures
        toks_bytes(e.toks()) == e.encoded(),
{
    match e {
        VTEvent::Raw(v) => lemma_data_bytes(VTEmit::Ground, v@),
        VTEvent::DcsData(v) => lemma_data_bytes(VTEmit::Dcs, v@),
        VTEvent::OscData(v) => lemma_data_bytes(VTEmit::Osc, v@),
        VTEvent::DcsEnd(v) => {
            lemma_data_bytes(VTEmit::Dcs, v@);
            assert(data_toks(VTEmit::Dcs, v@).push(Tok::DcsEnd).drop_last() =~= data_toks(
                VTEmit::Dcs,
                v@,
            ));
        },
        VTEvent::OscEnd { data, used_bel } => {
            lemma_data_bytes(VTEmit::Osc, data@);
            assert(data_toks(VTEmit::Osc, data@).push(Tok::OscEnd(used_bel)).drop_last()
                =~= data_toks(VTEmit::Osc, data@));
        },
        _ => {
            lemma_toks_small(e.toks());
            assert(toks_bytes(e.toks()) =~= e.encoded());
        },
    }
}

/// The encodings of events are the wire bytes of their tokens.
pub proof fn lemma_encode_all(evs: Seq<VTEvent>)
    ensures
        encode_all(evs) == toks_bytes(flatten(evs)),
    decreases evs.len(),
{
    if evs.len() > 0 {
        lemma_encode_all(evs.drop_last());
        lemma_event_bytes(evs.last());
        lemma_toks_concat(flatten(evs.drop_last()), evs.last().toks());
    }
}

/// Round trip of events: when a new parser that hands out everything keeps
/// every byte of `input` and ends in the ground state, the encodings of
/// events whose tokens are those of `input` give back `input`.
pub proof fn law_round_trip_events(input: Seq<u8>, evs: Seq<VTEvent>)
    requires
        all_lossless(initial(VT_PARSER_INTEREST_ALL), input),
        run(initial(VT_PARSER_INTEREST_ALL), input).0.st == State::Ground,
        flatten(evs) == run(initial(VT_PARSER_INTEREST_ALL), input).1,
    ensures
        encode_all(evs) == input,
{
    let s = initial(VT_PARSER_INTEREST_ALL);
    law_round_trip(s, input);
    lemma_encode_all(evs);
    assert(pending(s) =~= Seq::<u8>::empty());
    assert(Seq::<u8>::empty() + input =~= input);
    assert(toks_bytes(run(s, input).1) + Seq::<u8>::empty() =~= toks_bytes(run(s, input).1));
}

} // verus!
