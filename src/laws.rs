//! Laws of the automaton, stated over [`run`] (what every feed entry point is
//! proved to follow) and proved here.
use vstd::prelude::*;

use crate::event::Tok;
use crate::model::{PState, State, core_step, finish_step, has_flag, keep, run, step, wanted};
use crate::event::{VTEvent, flatten};
use crate::parser::{
    all_nonempty, feed_groups, initial, lemma_feed_groups, lemma_flatten_concat_list, toks_list,
};
use crate::{VT_PARSER_INTEREST_ALL, VT_PARSER_INTEREST_CSI, VT_PARSER_INTEREST_DCS, VT_PARSER_INTEREST_OSC};

verus! {

/// Feeding `a` and then `b` ends in the state, and gives the tokens, of
/// feeding `a + b`: the trace does not depend on where the input is cut.
pub proof fn lemma_run_concat(s: PState, a: Seq<u8>, b: Seq<u8>)
    ensures
        run(s, a + b).0 == run(run(s, a).0, b).0,
        run(s, a + b).1 == run(s, a).1 + run(run(s, a).0, b).1,
    decreases b.len(),
{
    if b.len() == 0 {
        assert(a + b =~= a);
        assert(run(s, a).1 + run(run(s, a).0, b).1 =~= run(s, a).1);
    } else {
        lemma_run_concat(s, a, b.drop_last());
        assert((a + b).drop_last() =~= a + b.drop_last());
        assert((a + b).last() == b.last());
        let m = run(s, a).0;
        let t = step(run(m, b.drop_last()).0, b.last());
        assert(run(s, a).1 + (run(m, b.drop_last()).1 + t.1) =~= (run(s, a).1 + run(
            m,
            b.drop_last(),
        ).1) + t.1);
    }
}

/// Chunks one after the other.
pub open spec fn concat_chunks(cs: Seq<Seq<u8>>) -> Seq<u8>
    decreases cs.len(),
{
    if cs.len() == 0 {
        Seq::empty()
    } else {
        concat_chunks(cs.drop_last()) + cs.last()
    }
}

/// The state and tokens after feeding the chunks in turn.
pub open spec fn run_chunks(s: PState, cs: Seq<Seq<u8>>) -> (PState, Seq<Tok>)
    decreases cs.len(),
{
    if cs.len() == 0 {
        (s, Seq::empty())
    } else {
        let r = run_chunks(s, cs.drop_last());
        let t = run(r.0, cs.last());
        (t.0, r.1 + t.1)
    }
}

/// Chunk-size independence: feeding any chunking of an input gives the state
/// and the tokens of feeding it in one piece.
pub proof fn law_chunking(s: PState, cs: Seq<Seq<u8>>)
    ensures
        run_chunks(s, cs) == run(s, concat_chunks(cs)),
    decreases cs.len(),
{
    if cs.len() == 0 {
        assert(run(s, Seq::<u8>::empty()) == (s, Seq::<Tok>::empty()));
    } else {
        law_chunking(s, cs.drop_last());
        lemma_run_concat(s, concat_chunks(cs.drop_last()), cs.last());
    }
}

/// Abort equivalence: after a feed that stopped at byte `n`, feeding the
/// rest of the input gives the remaining tokens, and the end state, of
/// feeding the whole input at once.
pub proof fn law_abort_resume(s: PState, input: Seq<u8>, n: int)
    requires
        0 <= n <= input.len(),
    ensures
        run(run(s, input.take(n)).0, input.skip(n)).0 == run(s, input).0,
        run(s, input.take(n)).1 + run(run(s, input.take(n)).0, input.skip(n)).1 == run(
            s,
            input,
        ).1,
{
    lemma_run_concat(s, input.take(n), input.skip(n));
    assert(input.take(n) + input.skip(n) =~= input);
}

// ---- framing

/// 1 while a DCS body is open (and DCS events are handed out), else 0.
pub open spec fn dcs_open(s: PState) -> int {
    if has_flag(s.interest, VT_PARSER_INTEREST_DCS) && (s.st == State::DcsPassthrough || s.st
        == State::DcsEsc) {
        1
    } else {
        0
    }
}

/// 1 while an OSC body is open (and OSC events are handed out), else 0.
pub open spec fn osc_open(s: PState) -> int {
    if has_flag(s.interest, VT_PARSER_INTEREST_OSC) && (s.st == State::OscString || s.st
        == State::OscEsc) {
        1
    } else {
        0
    }
}

pub open spec fn dcs_weight(t: Tok) -> int {
    match t {
        Tok::DcsStart(..) => 1,
        Tok::DcsEnd | Tok::DcsCancel => -1,
        _ => 0,
    }
}

pub open spec fn osc_weight(t: Tok) -> int {
    match t {
        Tok::OscStart => 1,
        Tok::OscEnd(_) | Tok::OscCancel => -1,
        _ => 0,
    }
}

/// DCS starts minus DCS ends and cancels.
pub open spec fn dcs_balance(ts: Seq<Tok>) -> int
    decreases ts.len(),
{
    if ts.len() == 0 {
        0
    } else {
        dcs_balance(ts.drop_last()) + dcs_weight(ts.last())
    }
}

/// OSC starts minus OSC ends and cancels.
pub open spec fn osc_balance(ts: Seq<Tok>) -> int
    decreases ts.len(),
{
    if ts.len() == 0 {
        0
    } else {
        osc_balance(ts.drop_last()) + osc_weight(ts.last())
    }
}

proof fn lemma_balance_concat(a: Seq<Tok>, b: Seq<Tok>)
    ensures
        dcs_balance(a + b) == dcs_balance(a) + dcs_balance(b),
        osc_balance(a + b) == osc_balance(a) + osc_balance(b),
    decreases b.len(),
{
    if b.len() == 0 {
        assert(a + b =~= a);
    } else {
        lemma_balance_concat(a, b.drop_last());
        assert((a + b).drop_last() =~= a + b.drop_last());
        assert((a + b).last() == b.last());
    }
}

proof fn lemma_balance_small(ts: Seq<Tok>)
    requires
        ts.len() <= 2,
    ensures
        dcs_balance(ts) == (if ts.len() == 0 {
            0
        } else if ts.len() == 1 {
            dcs_weight(ts[0])
        } else {
            dcs_weight(ts[0]) + dcs_weight(ts[1])
        }),
        osc_balance(ts) == (if ts.len() == 0 {
            0
        } else if ts.len() == 1 {
            osc_weight(ts[0])
        } else {
            osc_weight(ts[0]) + osc_weight(ts[1])
        }),
{
    if ts.len() >= 1 {
        let d = ts.drop_last();
        assert(ts.last() == ts[ts.len() - 1]);
        assert(dcs_balance(ts) == dcs_balance(d) + dcs_weight(ts.last()));
        assert(osc_balance(ts) == osc_balance(d) + osc_weight(ts.last()));
        if d.len() == 1 {
            let e = d.drop_last();
            assert(e.len() == 0);
            assert(dcs_balance(e) == 0);
            assert(osc_balance(e) == 0);
            assert(d.last() == ts[0]);
            assert(dcs_balance(d) == dcs_balance(e) + dcs_weight(d.last()));
            assert(osc_balance(d) == osc_balance(e) + osc_weight(d.last()));
        } else {
            assert(d.len() == 0);
            assert(dcs_balance(d) == 0);
            assert(osc_balance(d) == 0);
        }
    }
}

proof fn lemma_balance_keep(i: u8, ts: Seq<Tok>)
    ensures
        dcs_balance(keep(i, ts)) == if has_flag(i, VT_PARSER_INTEREST_DCS) {
            dcs_balance(ts)
        } else {
            0
        },
        osc_balance(keep(i, ts)) == if has_flag(i, VT_PARSER_INTEREST_OSC) {
            osc_balance(ts)
        } else {
            0
        },
    decreases ts.len(),
{
    if ts.len() > 0 {
        lemma_balance_keep(i, ts.drop_last());
        let k = keep(i, ts.drop_last());
        if wanted(i, ts.last()) {
            assert(k.push(ts.last()).drop_last() =~= k);
        }
    }
}

/// What one byte does to the balances before the interest mask.
proof fn lemma_core_framing(s: PState, b: u8)
    ensures
        ({
            let r = core_step(s, b);
            let body = |st: State| (st == State::DcsPassthrough || st == State::DcsEsc);
            let osc = |st: State| (st == State::OscString || st == State::OscEsc);
            &&& r.1.len() <= 2
            &&& dcs_balance(r.1) == (if body(r.0.st) {
                1int
            } else {
                0
            }) - (if body(s.st) {
                1int
            } else {
                0
            })
            &&& osc_balance(r.1) == (if osc(r.0.st) {
                1int
            } else {
                0
            }) - (if osc(s.st) {
                1int
            } else {
                0
            })
            &&& r.0.interest == s.interest
        }),
{
    reveal(core_step);
    lemma_balance_small(core_step(s, b).1);
}

proof fn lemma_step_framing(s: PState, b: u8)
    ensures
        dcs_balance(step(s, b).1) == dcs_open(step(s, b).0) - dcs_open(s),
        osc_balance(step(s, b).1) == osc_open(step(s, b).0) - osc_open(s),
        step(s, b).0.interest == s.interest,
{
    lemma_core_framing(s, b);
    lemma_balance_keep(s.interest, core_step(s, b).1);
}

proof fn lemma_run_framing(s: PState, input: Seq<u8>)
    ensures
        dcs_balance(run(s, input).1) == dcs_open(run(s, input).0) - dcs_open(s),
        osc_balance(run(s, input).1) == osc_open(run(s, input).0) - osc_open(s),
    decreases input.len(),
{
    if input.len() == 0 {
    } else {
        lemma_run_framing(s, input.drop_last());
        let r = run(s, input.drop_last());
        lemma_step_framing(r.0, input.last());
        lemma_balance_concat(r.1, step(r.0, input.last()).1);
    }
}

/// Framing: in the tokens that a new parser gives for any input, DCS starts
/// minus DCS ends and cancels is 1 while a DCS body is open and 0 otherwise,
/// so it never leaves 0..=1; the same holds of OSC. Ending the stream brings
/// both to 0.
pub proof fn law_framing(interest: u8, input: Seq<u8>)
    ensures
        ({
            let r = run(initial(interest), input);
            let all = r.1 + finish_step(r.0).1;
            &&& dcs_balance(r.1) == dcs_open(r.0)
            &&& osc_balance(r.1) == osc_open(r.0)
            &&& 0 <= dcs_balance(r.1) <= 1
            &&& 0 <= osc_balance(r.1) <= 1
            &&& dcs_balance(all) == 0
            &&& osc_balance(all) == 0
        }),
{
    let s = initial(interest);
    lemma_run_framing(s, input);
    let r = run(s, input);
    lemma_balance_concat(r.1, finish_step(r.0).1);
    lemma_balance_keep(r.0.interest, seq![Tok::DcsCancel]);
    lemma_balance_keep(r.0.interest, seq![Tok::OscCancel]);
    lemma_balance_small(seq![Tok::DcsCancel]);
    lemma_balance_small(seq![Tok::OscCancel]);
}

// ---- interest

pub open spec fn with_interest(s: PState, i: u8) -> PState {
    PState { interest: i, ..s }
}

/// Whether two masks parse CSI and DCS sequences the same way.
pub open spec fn same_parsing(a: u8, b: u8) -> bool {
    &&& has_flag(a, VT_PARSER_INTEREST_CSI) == has_flag(b, VT_PARSER_INTEREST_CSI)
    &&& has_flag(a, VT_PARSER_INTEREST_DCS) == has_flag(b, VT_PARSER_INTEREST_DCS)
    &&& has_flag(a, crate::VT_PARSER_DCS_COLON_PARAMS) == has_flag(
        b,
        crate::VT_PARSER_DCS_COLON_PARAMS,
    )
}

proof fn lemma_core_interest(s: PState, b: u8, i: u8)
    requires
        same_parsing(s.interest, i),
    ensures
        core_step(with_interest(s, i), b) == (with_interest(core_step(s, b).0, i), core_step(
            s,
            b,
        ).1),
{
    reveal(core_step);
}

proof fn lemma_keep_concat(i: u8, a: Seq<Tok>, b: Seq<Tok>)
    ensures
        keep(i, a + b) == keep(i, a) + keep(i, b),
    decreases b.len(),
{
    if b.len() == 0 {
        assert(a + b =~= a);
        assert(keep(i, a) + keep(i, b) =~= keep(i, a));
    } else {
        lemma_keep_concat(i, a, b.drop_last());
        assert((a + b).drop_last() =~= a + b.drop_last());
        assert((a + b).last() == b.last());
        if wanted(i, b.last()) {
            assert(keep(i, a) + keep(i, b.drop_last()).push(b.last()) =~= (keep(i, a) + keep(
                i,
                b.drop_last(),
            )).push(b.last()));
        }
    }
}

proof fn lemma_keep_keep(i: u8, j: u8, ts: Seq<Tok>)
    requires
        forall|t: Tok| wanted(j, t),
    ensures
        keep(i, keep(j, ts)) == keep(i, ts),
    decreases ts.len(),
{
    if ts.len() > 0 {
        lemma_keep_keep(i, j, ts.drop_last());
        let k = keep(j, ts.drop_last());
        assert(k.push(ts.last()).drop_last() =~= k);
    }
}

proof fn lemma_all_wanted()
    ensures
        forall|t: Tok| wanted(VT_PARSER_INTEREST_ALL, t),
{
    assert(has_flag(VT_PARSER_INTEREST_ALL, VT_PARSER_INTEREST_CSI)) by (bit_vector);
    assert(has_flag(VT_PARSER_INTEREST_ALL, VT_PARSER_INTEREST_DCS)) by (bit_vector);
    assert(has_flag(VT_PARSER_INTEREST_ALL, VT_PARSER_INTEREST_OSC)) by (bit_vector);
    assert(has_flag(VT_PARSER_INTEREST_ALL, crate::VT_PARSER_INTEREST_ESCAPE_RECOVERY))
        by (bit_vector);
    assert(has_flag(VT_PARSER_INTEREST_ALL, crate::VT_PARSER_INTEREST_OTHER)) by (bit_vector);
}

/// Interest-filter soundness, for masks that keep the CSI and DCS flags of
/// `s`: a parser built with mask `i` ends in the state of a parser that
/// hands out everything, and gives exactly that parser's tokens filtered to
/// the classes in `i` (text and C0 controls always pass).
pub proof fn law_interest_filter(s: PState, i: u8, input: Seq<u8>)
    requires
        s.interest == VT_PARSER_INTEREST_ALL,
        same_parsing(s.interest, i),
    ensures
        run(with_interest(s, i), input).0 == with_interest(run(s, input).0, i),
        run(with_interest(s, i), input).1 == keep(i, run(s, input).1),
    decreases input.len(),
{
    if input.len() == 0 {
        assert(keep(i, Seq::<Tok>::empty()) == Seq::<Tok>::empty());
    } else {
        law_interest_filter(s, i, input.drop_last());
        let r = run(s, input.drop_last());
        let b = input.last();
        crate::model::lemma_run_interest(s, input.drop_last());
        lemma_core_interest(r.0, b, i);
        lemma_keep_concat(i, r.1, step(r.0, b).1);
        lemma_all_wanted();
        lemma_keep_keep(i, VT_PARSER_INTEREST_ALL, core_step(r.0, b).1);
        crate::model::lemma_step_interest(r.0, b);
    }
}

// ---- the same laws over the events that feeds hand out

/// Chunking, over events: the events of feeding `a` and then `b` carry the
/// tokens of the events of feeding `a + b` in one piece, so the two traces
/// differ at most in where body runs are cut.
pub proof fn law_chunked_events(
    s: PState,
    a: Seq<u8>,
    b: Seq<u8>,
    ea: Seq<VTEvent>,
    eb: Seq<VTEvent>,
    e: Seq<VTEvent>,
)
    requires
        toks_list(ea) == feed_groups(Seq::empty(), s, a),
        toks_list(eb) == feed_groups(Seq::empty(), run(s, a).0, b),
        toks_list(e) == feed_groups(Seq::empty(), s, a + b),
    ensures
        flatten(ea + eb) == flatten(e),
{
    let z = Seq::<VTEvent>::empty();
    assert(toks_list(z) =~= Seq::<Seq<Tok>>::empty());
    assert(all_nonempty(toks_list(z)));
    lemma_feed_groups(z, s, a);
    lemma_feed_groups(z, run(s, a).0, b);
    lemma_feed_groups(z, s, a + b);
    lemma_flatten_concat_list(ea);
    lemma_flatten_concat_list(eb);
    lemma_flatten_concat_list(e);
    crate::parser::lemma_flatten_concat(ea, eb);
    lemma_run_concat(s, a, b);
    assert(flatten(z) == Seq::<Tok>::empty());
    assert(Seq::<Tok>::empty() + run(s, a).1 =~= run(s, a).1);
    assert(Seq::<Tok>::empty() + run(run(s, a).0, b).1 =~= run(run(s, a).0, b).1);
    assert(Seq::<Tok>::empty() + run(s, a + b).1 =~= run(s, a + b).1);
}

/// Framing, over events: among the events a new parser hands out for
/// `input`, DCS starts minus DCS ends and cancels is 1 while a DCS body is
/// open and 0 otherwise, the same for OSC, and the events of the end of the
/// stream bring both to 0.
pub proof fn law_framing_events(interest: u8, input: Seq<u8>, e: Seq<VTEvent>, f: Seq<VTEvent>)
    requires
        toks_list(e) == feed_groups(Seq::empty(), initial(interest), input),
        flatten(f) == finish_step(run(initial(interest), input).0).1,
    ensures
        dcs_balance(flatten(e)) == dcs_open(run(initial(interest), input).0),
        osc_balance(flatten(e)) == osc_open(run(initial(interest), input).0),
        dcs_balance(flatten(e + f)) == 0,
        osc_balance(flatten(e + f)) == 0,
{
    let z = Seq::<VTEvent>::empty();
    assert(toks_list(z) =~= Seq::<Seq<Tok>>::empty());
    assert(all_nonempty(toks_list(z)));
    let s = initial(interest);
    lemma_feed_groups(z, s, input);
    lemma_flatten_concat_list(e);
    assert(flatten(z) == Seq::<Tok>::empty());
    assert(Seq::<Tok>::empty() + run(s, input).1 =~= run(s, input).1);
    law_framing(interest, input);
    crate::parser::lemma_flatten_concat(e, f);
}

} // verus!
