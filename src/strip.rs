//! Stripping escape sequences: only the text of the ground state is kept.
use vstd::prelude::*;

use std::borrow::Cow;
use vstd::string::StringSliceAdditionalSpecFns;

use crate::event::{Tok, VTEmit, VTEvent, data_toks, flatten};
use crate::model::run;
use crate::parser::{VTPushParser, all_wf, feed_groups, initial, lemma_flatten_push, text_only, toks_list};
use vstd::utf8::{decode_utf8, valid_utf8};
use crate::VT_PARSER_INTEREST_NONE;

verus! {

/// The ground-state text among tokens.
pub open spec fn text_of(ts: Seq<Tok>) -> Seq<u8>
    decreases ts.len(),
{
    if ts.len() == 0 {
        Seq::empty()
    } else {
        text_of(ts.drop_last()) + match ts.last() {
            Tok::Data(VTEmit::Ground, b) => seq![b],
            _ => Seq::empty(),
        }
    }
}

/// The text that stripping `s` keeps.
pub open spec fn stripped(s: Seq<u8>) -> Seq<u8> {
    text_of(run(initial(VT_PARSER_INTEREST_NONE), s).1)
}

/// What `String::from_utf8_lossy` makes of some bytes.
pub uninterp spec fn utf8_lossy(b: Seq<u8>) -> Seq<char>;

/// Relies on `String::from_utf8_lossy`: the text of `b`, with each invalid
/// sequence replaced; the result depends on `b` alone, and valid UTF-8 comes
/// back as it is.
#[verifier::external_body]
fn lossy_string(b: &[u8]) -> (r: String)
    ensures
        r@ == utf8_lossy(b@),
        valid_utf8(b@) ==> r@ == decode_utf8(b@),
{
    String::from_utf8_lossy(b).into_owned()
}

/// Relies on `String::push_str`: appends `t`.
#[verifier::external_body]
fn append_str(out: &mut String, t: &str)
    ensures
        final(out)@ == old(out)@ + t@,
{
    out.push_str(t)
}

/// The text runs among event groups, each read as UTF-8 on its own.
pub open spec fn lossy_runs(gs: Seq<Seq<Tok>>) -> Seq<char>
    decreases gs.len(),
{
    if gs.len() == 0 {
        Seq::empty()
    } else {
        lossy_runs(gs.drop_last()) + if text_of(gs.last()).len() > 0 {
            utf8_lossy(text_of(gs.last()))
        } else {
            Seq::empty()
        }
    }
}

proof fn lemma_text_concat(a: Seq<Tok>, b: Seq<Tok>)
    ensures
        text_of(a + b) == text_of(a) + text_of(b),
    decreases b.len(),
{
    if b.len() == 0 {
        assert(a + b =~= a);
        assert(text_of(a) + text_of(b) =~= text_of(a));
    } else {
        lemma_text_concat(a, b.drop_last());
        assert((a + b).drop_last() =~= a + b.drop_last());
        assert((a + b).last() == b.last());
        assert(text_of(a) + text_of(b.drop_last()) + match b.last() {
            Tok::Data(VTEmit::Ground, x) => seq![x],
            _ => Seq::empty(),
        } =~= text_of(a) + text_of(b));
    }
}

proof fn lemma_text_data(k: VTEmit, v: Seq<u8>)
    ensures
        text_of(data_toks(k, v)) == (if k == VTEmit::Ground {
            v
        } else {
            Seq::empty()
        }),
    decreases v.len(),
{
    if v.len() > 0 {
        lemma_text_data(k, v.drop_last());
        assert(data_toks(k, v).drop_last() =~= data_toks(k, v.drop_last()));
        assert(data_toks(k, v).last() == Tok::Data(k, v.last()));
        if k == VTEmit::Ground {
            assert(v.drop_last().push(v.last()) =~= v);
        }
    } else {
        assert(data_toks(k, v) =~= Seq::<Tok>::empty());
    }
}

proof fn lemma_text_single(t: Tok)
    ensures
        text_of(seq![t]) == match t {
            Tok::Data(VTEmit::Ground, b) => seq![b],
            _ => Seq::<u8>::empty(),
        },
{
    assert(seq![t].drop_last() =~= Seq::<Tok>::empty());
    assert(text_of(Seq::<Tok>::empty()) == Seq::<u8>::empty());
    assert(seq![t].last() == t);
    assert(Seq::<u8>::empty() + match t {
        Tok::Data(VTEmit::Ground, b) => seq![b],
        _ => Seq::<u8>::empty(),
    } =~= match t {
        Tok::Data(VTEmit::Ground, b) => seq![b],
        _ => Seq::<u8>::empty(),
    });
}

/// The ground-state text of an event.
proof fn lemma_text_event(e: VTEvent)
    ensures
        text_of(e.toks()) == (match e {
            VTEvent::Raw(v) => v@,
            _ => Seq::empty(),
        }),
{
    match e {
        VTEvent::Raw(v) => lemma_text_data(VTEmit::Ground, v@),
        VTEvent::DcsData(v) => lemma_text_data(VTEmit::Dcs, v@),
        VTEvent::OscData(v) => lemma_text_data(VTEmit::Osc, v@),
        VTEvent::DcsEnd(v) => {
            lemma_text_data(VTEmit::Dcs, v@);
            lemma_text_concat(data_toks(VTEmit::Dcs, v@), seq![Tok::DcsEnd]);
            assert(data_toks(VTEmit::Dcs, v@).push(Tok::DcsEnd) =~= data_toks(VTEmit::Dcs, v@)
                + seq![Tok::DcsEnd]);
            lemma_text_single(Tok::DcsEnd);
            assert(text_of(data_toks(VTEmit::Dcs, v@) + seq![Tok::DcsEnd]) =~= Seq::<u8>::empty());
        },
        VTEvent::OscEnd { data, used_bel } => {
            lemma_text_data(VTEmit::Osc, data@);
            lemma_text_concat(data_toks(VTEmit::Osc, data@), seq![Tok::OscEnd(used_bel)]);
            assert(data_toks(VTEmit::Osc, data@).push(Tok::OscEnd(used_bel)) =~= data_toks(
                VTEmit::Osc,
                data@,
            ) + seq![Tok::OscEnd(used_bel)]);
            lemma_text_single(Tok::OscEnd(used_bel));
            assert(text_of(data_toks(VTEmit::Osc, data@) + seq![Tok::OscEnd(used_bel)]) =~= Seq::<
                u8,
            >::empty());
        },
        _ => {
            assert(e.toks().len() == 1);
            assert(e.toks() =~= seq![e.toks()[0]]);
            lemma_text_single(e.toks()[0]);
            assert(!(e.toks()[0] is Data));
        },
    }
}

/// The text of the `Raw` events of `evs`, in order.
fn raw_text(evs: &Vec<VTEvent>) -> (r: Vec<u8>)
    ensures
        r@ == text_of(flatten(evs@)),
{
    let mut out: Vec<u8> = Vec::new();
    let mut i: usize = 0;
    while i < evs.len()
        invariant
            0 <= i <= evs@.len(),
            out@ == text_of(flatten(evs@.take(i as int))),
        decreases evs@.len() - i,
    {
        proof {
            lemma_flatten_push(evs@.take(i as int), evs@[i as int]);
            assert(evs@.take(i as int).push(evs@[i as int]) =~= evs@.take(i as int + 1));
            lemma_text_concat(flatten(evs@.take(i as int)), evs@[i as int].toks());
            lemma_text_event(evs@[i as int]);
        }
        match &evs[i] {
            VTEvent::Raw(v) => {
                out.extend_from_slice(v.as_slice());
            },
            _ => {},
        }
        i += 1;
    }
    proof {
        assert(evs@.take(i as int) =~= evs@);
    }
    out
}

fn same_bytes(a: &[u8], b: &[u8]) -> (r: bool)
    ensures
        r == (a@ == b@),
{
    if a.len() != b.len() {
        return false;
    }
    let mut i: usize = 0;
    while i < a.len()
        invariant
            0 <= i <= a@.len(),
            a@.len() == b@.len(),
            forall|k: int| 0 <= k < i ==> a@[k] == b@[k],
        decreases a@.len() - i,
    {
        if a[i] != b[i] {
            return false;
        }
        i += 1;
    }
    assert(a@ =~= b@);
    true
}

/// The text that stripping `s` keeps, as a vector.
fn strip_to_vec(s: &[u8]) -> (r: Vec<u8>)
    ensures
        r@ == stripped(s@),
        text_only(s@) ==> r@ == s@,
{
    let mut parser = VTPushParser::new_with_interest(VT_PARSER_INTEREST_NONE);
    let evs = parser.feed(s);
    proof {
        assert(flatten(Seq::<VTEvent>::empty()) == Seq::<Tok>::empty());
        assert(Seq::<Tok>::empty() + run(initial(VT_PARSER_INTEREST_NONE), s@).1 =~= run(
            initial(VT_PARSER_INTEREST_NONE),
            s@,
        ).1);
        if text_only(s@) && s@.len() > 0 {
            lemma_flatten_push(Seq::empty(), evs@[0]);
            assert(Seq::<VTEvent>::empty().push(evs@[0]) =~= evs@);
            lemma_text_event(evs@[0]);
        }
        if s@.len() == 0 {
            assert(s@ =~= Seq::<u8>::empty());
            assert(run(initial(VT_PARSER_INTEREST_NONE), s@).1 == Seq::<Tok>::empty());
        }
    }
    raw_text(&evs)
}

/// The bytes a stripped result holds.
pub open spec fn cow_bytes(c: &Cow<'_, [u8]>) -> Seq<u8> {
    match c {
        Cow::Borrowed(b) => b@,
        Cow::Owned(v) => v@,
    }
}

/// Strips escape sequences (and C0 controls) from `s`, keeping the text.
/// When nothing is stripped, `s` itself comes back.
pub fn strip_ansi_bytes(s: &[u8]) -> (r: Cow<'_, [u8]>)
    ensures
        cow_bytes(&r) == stripped(s@),
        (r is Borrowed) == (stripped(s@) == s@),
        text_only(s@) ==> r is Borrowed,
{
    let v = strip_to_vec(s);
    if same_bytes(v.as_slice(), s) {
        Cow::Borrowed(s)
    } else {
        Cow::Owned(v)
    }
}

/// Strips escape sequences (and C0 controls) from `s`. When nothing is
/// stripped, `s` itself comes back; otherwise each run of kept text is read
/// as UTF-8, with each invalid sequence replaced.
pub fn strip_ansi_string(s: &str) -> (r: Cow<'_, str>)
    ensures
        (r is Borrowed) == (stripped(s.spec_bytes()) == s.spec_bytes()),
        r is Borrowed ==> r@ == s@,
        r is Owned ==> r@ == lossy_runs(
            feed_groups(Seq::empty(), initial(VT_PARSER_INTEREST_NONE), s.spec_bytes()),
        ),
        text_only(s.spec_bytes()) ==> r is Borrowed,
{
    let bytes = s.as_bytes();
    let v = strip_to_vec(bytes);
    if same_bytes(v.as_slice(), bytes) {
        return Cow::Borrowed(s);
    }
    let mut parser = VTPushParser::new_with_interest(VT_PARSER_INTEREST_NONE);
    let evs = parser.feed(bytes);
    proof {
        assert(toks_list(Seq::<VTEvent>::empty()) =~= Seq::<Seq<Tok>>::empty());
    }
    let ghost gs = toks_list(evs@);
    let mut out = String::new();
    let mut i: usize = 0;
    proof {
        assert(gs.take(0) =~= Seq::<Seq<Tok>>::empty());
        assert(out@ =~= lossy_runs(gs.take(0)));
    }
    while i < evs.len()
        invariant
            0 <= i <= evs@.len(),
            gs == toks_list(evs@),
            forall|k: int| 0 <= k < evs@.len() ==> (#[trigger] evs@[k]).toks().len() > 0,
            out@ == lossy_runs(gs.take(i as int)),
        decreases evs@.len() - i,
    {
        proof {
            assert(gs.take(i as int + 1).drop_last() =~= gs.take(i as int));
            assert(gs.take(i as int + 1).last() == evs@[i as int].toks());
            lemma_text_event(evs@[i as int]);
        }
        match &evs[i] {
            VTEvent::Raw(t) => {
                proof {
                    assert(evs@[i as int].toks().len() == t@.len());
                }
                let l = lossy_string(t.as_slice());
                append_str(&mut out, l.as_str());
            },
            _ => {},
        }
        i += 1;
    }
    proof {
        assert(gs.take(i as int) =~= gs);
    }
    Cow::Owned(out)
}

/// Strips escape sequences from `s`, handing each run of text to `cb`.
pub fn strip_ansi_bytes_callback<F: FnMut(&[u8])>(s: &[u8], cb: &mut F)
    requires
        forall|x: &[u8], g: F| call_requires(g, (x,)),
{
    let mut stripper = StreamingStripper::new();
    stripper.feed(s, cb);
}

/// A stripper for a stream: feed it chunks, get the text runs.
pub struct StreamingStripper {
    parser: VTPushParser,
}

impl StreamingStripper {
    pub closed spec fn wf(&self) -> bool {
        self.parser.wf() && self.parser@.interest == VT_PARSER_INTEREST_NONE
    }

    /// The state of the parser underneath.
    pub closed spec fn state(&self) -> crate::model::PState {
        self.parser@
    }

    pub fn new() -> (r: Self)
        ensures
            r.wf(),
            r.state() == initial(VT_PARSER_INTEREST_NONE),
    {
        StreamingStripper { parser: VTPushParser::new_with_interest(VT_PARSER_INTEREST_NONE) }
    }

    /// Feeds a chunk, handing each run of text to `cb`.
    pub fn feed<F: FnMut(&[u8])>(&mut self, s: &[u8], cb: &mut F)
        requires
            old(self).wf(),
            forall|x: &[u8], g: F| call_requires(g, (x,)),
        ensures
            final(self).wf(),
            final(self).state() == run(old(self).state(), s@).0,
    {
        let evs = self.parser.feed(s);
        proof {
            crate::model::lemma_run_interest(old(self).parser@, s@);
        }
        let mut i: usize = 0;
        while i < evs.len()
            invariant
                forall|x: &[u8], g: F| call_requires(g, (x,)),
            decreases evs@.len() - i,
        {
            match &evs[i] {
                VTEvent::Raw(v) => {
                    cb(v.as_slice());
                },
                _ => {},
            }
            i += 1;
        }
    }
}

} // verus!
