//! A parser that can hand raw input to the caller for a while: after an
//! event, the callback may ask for the next bytes, chars or everything up to
//! a terminator as `Capture` events, ended by `CaptureEnd`.
use vstd::prelude::*;

use crate::event::VTEvent;
use crate::laws::lemma_run_concat;
use crate::model::{PState, run};
use crate::parser::VTPushParser;
use crate::VT_PARSER_INTEREST_DEFAULT;

verus! {

/// What to capture after the event just handed out.
#[derive(Debug, Clone, Copy, PartialEq, Eq)]
pub enum VTInputCapture {
    /// Keep parsing. This must be the answer to capture events.
    Nothing,
    /// Capture a number of bytes.
    Count(usize),
    /// Capture a number of UTF-8 chars.
    CountUtf8(usize),
    /// Capture bytes until the terminator; the terminator is consumed.
    Terminator(&'static [u8]),
}

/// An event of the capturing parser.
#[derive(Debug)]
pub enum VTCaptureEvent {
    VTEvent(VTEvent),
    Capture(Vec<u8>),
    CaptureEnd,
}

pub open spec fn is_start_byte(b: u8) -> bool {
    b & 0xc0 != 0x80
}

/// The number of bytes of `s` that start a UTF-8 char.
pub open spec fn starts_in(s: Seq<u8>) -> int
    decreases s.len(),
{
    if s.len() == 0 {
        0
    } else {
        starts_in(s.drop_last()) + if is_start_byte(s.last()) {
            1int
        } else {
            0int
        }
    }
}

/// The capture in progress.
pub enum VTCaptureInternal {
    Off,
    Count(usize),
    CountUtf8(usize),
    /// The terminator and how much of it has matched.
    Terminator(&'static [u8], usize),
}

impl VTCaptureInternal {
    fn is_off(&self) -> (r: bool)
        ensures
            r == (*self is Off),
    {
        match self {
            VTCaptureInternal::Off => true,
            _ => false,
        }
    }

    pub open spec fn wf(self) -> bool {
        match self {
            VTCaptureInternal::Terminator(t, f) => f < t@.len(),
            _ => true,
        }
    }

    /// Decreases while a capture makes progress.
    pub open spec fn weight(self) -> int {
        match self {
            VTCaptureInternal::Off => 0,
            VTCaptureInternal::Terminator(_, f) => if f > 0 {
                2
            } else {
                1
            },
            _ => 1,
        }
    }

    /// Captures from `input[pos..]`. Returns where it stopped and the
    /// captured bytes, if any.
    pub fn feed(&mut self, input: &[u8], pos: usize) -> (r: (usize, Option<Vec<u8>>))
        requires
            old(self).wf(),
            !(*old(self) is Off),
            pos < input@.len(),
        ensures
            final(self).wf(),
            pos <= r.0 <= input@.len(),
            r.0 == pos ==> final(self).weight() < old(self).weight(),
            r.0 > pos || (*final(self) is Off) || final(self).weight() < old(self).weight(),
            match *old(self) {
                VTCaptureInternal::Count(n) => {
                    let m = if n <= input@.len() - pos {
                        n as int
                    } else {
                        input@.len() - pos
                    };
                    &&& r.0 == pos + m
                    &&& r.1 == (if m > 0 {
                        Some(r.1.unwrap())
                    } else {
                        None::<Vec<u8>>
                    })
                    &&& m > 0 ==> r.1.unwrap()@ == input@.subrange(pos as int, r.0 as int)
                    &&& *final(self) == if m == n {
                        VTCaptureInternal::Off
                    } else {
                        VTCaptureInternal::Count((n - m) as usize)
                    }
                },
                VTCaptureInternal::CountUtf8(n) => {
                    let c = input@.subrange(pos as int, r.0 as int);
                    &&& r.1 is Some && r.1.unwrap()@ == c
                    &&& if *final(self) is Off {
                        starts_in(c) == n && (r.0 == input@.len() || is_start_byte(input@[r.0 as int]))
                    } else {
                        r.0 == input@.len() && starts_in(c) < n && *final(self)
                            == VTCaptureInternal::CountUtf8((n - starts_in(c)) as usize)
                    }
                },
                VTCaptureInternal::Terminator(t, f) => if f == 0 {
                    let c = r.1.unwrap()@;
                    let p = pos + c.len();
                    &&& r.1 is Some
                    &&& p <= input@.len()
                    &&& c == input@.subrange(pos as int, p)
                    &&& forall|k: int| pos <= k < p ==> input@[k] != t@[0]
                    &&& if p < input@.len() {
                        &&& input@[p] == t@[0]
                        &&& r.0 == p + 1
                        &&& *final(self) == if t@.len() == 1 {
                            VTCaptureInternal::Off
                        } else {
                            VTCaptureInternal::Terminator(t, 1)
                        }
                    } else {
                        r.0 == p && *final(self) == VTCaptureInternal::Terminator(t, 0)
                    }
                } else {
                    let m = r.0 - pos;
                    &&& input@.subrange(pos as int, r.0 as int) == t@.subrange(f as int, f + m)
                    &&& match *final(self) {
                        VTCaptureInternal::Off => f + m == t@.len() && r.1 is None,
                        VTCaptureInternal::Terminator(t2, g) => {
                            &&& t2 == t
                            &&& if g == 0 {
                                &&& r.1 is Some
                                &&& r.1.unwrap()@ == t@.subrange(0, f + m)
                                &&& input@[r.0 as int] != t@[f + m]
                            } else {
                                &&& g == f + m
                                &&& r.0 == input@.len()
                                &&& r.1 is None
                            }
                        },
                        _ => false,
                    }
                },
                VTCaptureInternal::Off => true,
            },
    {
        match *self {
            VTCaptureInternal::Off => (pos, None),
            VTCaptureInternal::Count(n) => {
                let avail = input.len() - pos;
                let m = if n <= avail {
                    n
                } else {
                    avail
                };
                *self = if m == n {
                    VTCaptureInternal::Off
                } else {
                    VTCaptureInternal::Count(n - m)
                };
                if m > 0 {
                    (pos + m, Some(copy_range(input, pos, pos + m)))
                } else {
                    (pos, None)
                }
            },
            VTCaptureInternal::CountUtf8(n) => {
                let mut found: usize = 0;
                let mut j: usize = pos;
                // Count starts up to the n-th, then take its continuation bytes.
                while j < input.len() && (found < n || !(input[j] & 0xc0 != 0x80))
                    invariant
                        pos <= j <= input@.len(),
                        found as int == starts_in(input@.subrange(pos as int, j as int)),
                        found <= n,
                    decreases input@.len() - j,
                {
                    proof {
                        assert(input@.subrange(pos as int, j as int + 1).drop_last()
                            =~= input@.subrange(pos as int, j as int));
                    }
                    if input[j] & 0xc0 != 0x80 {
                        found += 1;
                    }
                    j += 1;
                }
                if found == n {
                    *self = VTCaptureInternal::Off;
                } else {
                    *self = VTCaptureInternal::CountUtf8(n - found);
                }
                (j, Some(copy_range(input, pos, j)))
            },
            VTCaptureInternal::Terminator(t, f) => {
                if t.len() == 0 {
                    *self = VTCaptureInternal::Off;
                    return (pos, None);
                }
                if f == 0 {
                    let mut j: usize = pos;
                    while j < input.len() && input[j] != t[0]
                        invariant
                            pos <= j <= input@.len(),
                            t@.len() > 0,
                            forall|k: int| pos <= k < j ==> input@[k] != t@[0],
                        decreases input@.len() - j,
                    {
                        j += 1;
                    }
                    if j < input.len() {
                        *self = if t.len() == 1 {
                            VTCaptureInternal::Off
                        } else {
                            VTCaptureInternal::Terminator(t, 1)
                        };
                        (j + 1, Some(copy_range(input, pos, j)))
                    } else {
                        (j, Some(copy_range(input, pos, j)))
                    }
                } else {
                    let mut g: usize = f;
                    let mut j: usize = pos;
                    while g < t.len() && j < input.len() && input[j] == t[g]
                        invariant
                            f <= g <= t@.len(),
                            pos <= j <= input@.len(),
                            g - f == j - pos,
                            input@.subrange(pos as int, j as int) == t@.subrange(f as int, g as int),
                        decreases t@.len() - g,
                    {
                        proof {
                            assert(input@.subrange(pos as int, j as int + 1) =~= t@.subrange(
                                f as int,
                                g as int + 1,
                            ));
                        }
                        g += 1;
                        j += 1;
                    }
                    if g == t.len() {
                        *self = VTCaptureInternal::Off;
                        (j, None)
                    } else if j == input.len() {
                        *self = VTCaptureInternal::Terminator(t, g);
                        (j, None)
                    } else {
                        // The partial match fails: what matched is captured
                        // bytes after all, and matching starts over here.
                        *self = VTCaptureInternal::Terminator(t, 0);
                        (j, Some(copy_range(t, 0, g)))
                    }
                }
            },
        }
    }
}

/// The capture that an answer of the callback starts.
pub open spec fn started(c: VTInputCapture) -> VTCaptureInternal {
    match c {
        VTInputCapture::Nothing => VTCaptureInternal::Off,
        VTInputCapture::Count(n) => VTCaptureInternal::Count(n),
        VTInputCapture::CountUtf8(n) => VTCaptureInternal::CountUtf8(n),
        VTInputCapture::Terminator(t) => if t@.len() == 0 {
            VTCaptureInternal::Off
        } else {
            VTCaptureInternal::Terminator(t, 0)
        },
    }
}

fn start_capture(c: VTInputCapture) -> (r: VTCaptureInternal)
    ensures
        r == started(c),
        r.wf(),
{
    match c {
        VTInputCapture::Nothing => VTCaptureInternal::Off,
        VTInputCapture::Count(n) => VTCaptureInternal::Count(n),
        VTInputCapture::CountUtf8(n) => VTCaptureInternal::CountUtf8(n),
        VTInputCapture::Terminator(t) => if t.len() == 0 {
            VTCaptureInternal::Off
        } else {
            VTCaptureInternal::Terminator(t, 0)
        },
    }
}

/// A parser whose callback may divert the input that follows an event: the
/// diverted bytes come out as `Capture` events and `CaptureEnd`, and are not
/// parsed.
pub struct VTCapturePushParser {
    parser: VTPushParser,
    capture: VTCaptureInternal,
}

impl VTCapturePushParser {
    pub closed spec fn wf(&self) -> bool {
        self.parser.wf() && self.capture.wf()
    }

    /// The state of the underlying parser.
    pub closed spec fn parser_state(&self) -> PState {
        self.parser@
    }

    /// Whether a capture is in progress.
    pub closed spec fn capturing(&self) -> bool {
        !(self.capture is Off)
    }

    /// The capture in progress.
    pub closed spec fn capture(&self) -> VTCaptureInternal {
        self.capture
    }

    pub fn new() -> (r: Self)
        ensures
            r.wf(),
            !r.capturing(),
            r.parser_state() == crate::parser::initial(VT_PARSER_INTEREST_DEFAULT),
    {
        Self::new_with_interest(VT_PARSER_INTEREST_DEFAULT)
    }

    pub fn new_with_interest(interest: u8) -> (r: Self)
        ensures
            r.wf(),
            !r.capturing(),
            r.parser_state() == crate::parser::initial(interest),
    {
        VTCapturePushParser {
            parser: VTPushParser::new_with_interest(interest),
            capture: VTCaptureInternal::Off,
        }
    }

    pub fn is_ground(&self) -> (r: bool)
        ensures
            r == (self.parser_state().st == crate::model::State::Ground),
    {
        self.parser.is_ground()
    }

    /// See [`VTPushParser::idle`].
    pub fn idle(&mut self) -> (r: Option<VTCaptureEvent>)
        requires
            old(self).wf(),
        ensures
            final(self).wf(),
            final(self).parser_state() == crate::model::idle_step(old(self).parser_state()).0,
            final(self).capturing() == old(self).capturing(),
            match r {
                None => crate::model::idle_step(old(self).parser_state()).1.len() == 0,
                Some(VTCaptureEvent::VTEvent(e)) => e.toks() == crate::model::idle_step(
                    old(self).parser_state(),
                ).1 && e.toks().len() > 0,
                Some(_) => false,
            },
    {
        match self.parser.idle() {
            Some(e) => Some(VTCaptureEvent::VTEvent(e)),
            None => None,
        }
    }

    /// Feeds `input`. Each event goes to `cb`; its answer for a parser event
    /// may start a capture, which takes the bytes that follow.
    pub fn feed_with<F: FnMut(VTCaptureEvent) -> VTInputCapture>(&mut self, input: &[u8], cb: &mut F)
        requires
            old(self).wf(),
            forall|e: VTCaptureEvent, g: F| call_requires(g, (e,)),
        ensures
            final(self).wf(),
            // Without captures, this is a plain feed.
            !old(self).capturing() && (forall|e: VTCaptureEvent, g: F, x: VTInputCapture|
                call_ensures(g, (e,), x) ==> x == VTInputCapture::Nothing) ==> !final(self).capturing()
                && final(self).parser_state() == run(old(self).parser_state(), input@).0,
            // A byte count that the input does not reach takes all of it.
            old(self).capture() is Count && input@.len() < old(self).capture()->Count_0
                ==> final(self).capture() == VTCaptureInternal::Count(
                (old(self).capture()->Count_0 - input@.len()) as usize,
            ) && final(self).parser_state() == old(self).parser_state(),
    {
        let ghost s0 = self.parser@;
        let ghost quiet = !old(self).capturing() && (forall|e: VTCaptureEvent, g: F, x: VTInputCapture|
            call_ensures(g, (e,), x) ==> x == VTInputCapture::Nothing);
        let mut pos: usize = 0;
        proof {
            assert(input@.take(0) =~= Seq::<u8>::empty());
        }
        while pos < input.len()
            invariant
                pos <= input@.len(),
                self.wf(),
                forall|e: VTCaptureEvent, g: F| call_requires(g, (e,)),
                quiet == (!old(self).capturing() && (forall|e: VTCaptureEvent, g: F, x: VTInputCapture|
                    call_ensures(g, (e,), x) ==> x == VTInputCapture::Nothing)),
                s0 == old(self).parser@,
                quiet ==> self.capture is Off && self.parser@ == run(s0, input@.take(pos as int)).0,
                old(self).capture is Count && input@.len() < old(self).capture->Count_0 ==> (pos
                    == 0 && self.capture == old(self).capture || pos == input@.len()
                    && self.capture == VTCaptureInternal::Count(
                    (old(self).capture->Count_0 - input@.len()) as usize,
                )) && self.parser@ == s0,
            decreases 3 * (input@.len() - pos) + self.capture.weight(),
        {
            if self.capture.is_off() {
                let ghost before = pos;
                let (mut evs, next) = self.parser.feed_next(input, pos);
                proof {
                    if quiet {
                        lemma_run_concat(s0, input@.take(before as int), input@.subrange(
                            before as int,
                            next as int,
                        ));
                        assert(input@.take(before as int) + input@.subrange(before as int, next as int)
                            =~= input@.take(next as int));
                    }
                }
                pos = next;
                while evs.len() > 0
                    invariant
                        self.wf(),
                        forall|e: VTCaptureEvent, g: F| call_requires(g, (e,)),
                        quiet == (!old(self).capturing() && (forall|
                            e: VTCaptureEvent,
                            g: F,
                            x: VTInputCapture,
                        | call_ensures(g, (e,), x) ==> x == VTInputCapture::Nothing)),
                        s0 == old(self).parser@,
                        quiet ==> self.capture is Off && self.parser@ == run(
                            s0,
                            input@.take(pos as int),
                        ).0,
                    decreases evs.len(),
                {
                    let e = evs.remove(0);
                    let answer = cb(VTCaptureEvent::VTEvent(e));
                    if self.capture.is_off() {
                        self.capture = start_capture(answer);
                    }
                    proof {
                        if quiet {
                            assert(answer == VTInputCapture::Nothing);
                        }
                    }
                }
            } else {
                let (next, captured) = self.capture.feed(input, pos);
                pos = next;
                if let Some(c) = captured {
                    cb(VTCaptureEvent::Capture(c));
                }
                if self.capture.is_off() {
                    cb(VTCaptureEvent::CaptureEnd);
                }
            }
        }
        proof {
            assert(input@.take(input@.len() as int) =~= input@);
        }
    }
}

impl Default for VTCapturePushParser {
    fn default() -> (r: Self)
        ensures
            r.wf(),
            !r.capturing(),
            r.parser_state() == crate::parser::initial(VT_PARSER_INTEREST_DEFAULT),
    {
        VTCapturePushParser::new()
    }
}

/// A copy of `s[from..to]`.
fn copy_range(s: &[u8], from: usize, to: usize) -> (r: Vec<u8>)
    requires
        from <= to <= s@.len(),
    ensures
        r@ == s@.subrange(from as int, to as int),
{
    let mut v: Vec<u8> = Vec::new();
    let mut i: usize = from;
    while i < to
        invariant
            from <= i <= to <= s@.len(),
            v@ == s@.subrange(from as int, i as int),
        decreases to - i,
    {
        v.push(s[i]);
        i += 1;
        proof {
            assert(v@ =~= s@.subrange(from as int, i as int));
        }
    }
    v
}

} // verus!
