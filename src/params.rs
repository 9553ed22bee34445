//! Views of parameters: raw bytes, numbers, and colon-separated
//! sub-parameters.
use vstd::prelude::*;
use vstd::slice::SliceAdditionalExecFns;

use crate::event::{CSI, DCS, ParamBuf, VTEvent, join_params};

verus! {

pub open spec fn is_digit_char(b: u8) -> bool {
    0x30 <= b <= 0x39
}

/// The decimal value of the digits `d`, or `cap` if it is `cap` or more.
pub open spec fn decimal_capped(d: Seq<u8>, cap: int) -> int
    decreases d.len(),
{
    if d.len() == 0 {
        0
    } else {
        let v = decimal_capped(d.drop_last(), cap) * 10 + (d.last() - 0x30);
        if v >= cap {
            cap
        } else {
            v
        }
    }
}

proof fn lemma_capped_bounds(d: Seq<u8>, cap: int)
    requires
        cap > 0,
        forall|i: int| 0 <= i < d.len() ==> is_digit_char(#[trigger] d[i]),
    ensures
        0 <= decimal_capped(d, cap) <= cap,
    decreases d.len(),
{
    if d.len() > 0 {
        lemma_capped_bounds(d.drop_last(), cap);
        assert(is_digit_char(d[d.len() - 1]));
    }
}

/// `s` without a leading `+`.
pub open spec fn digits_part(s: Seq<u8>) -> Seq<u8> {
    if s.len() > 0 && s[0] == 0x2b {
        s.drop_first()
    } else {
        s
    }
}

pub open spec fn all_digits(d: Seq<u8>) -> bool {
    forall|i: int| 0 <= i < d.len() ==> is_digit_char(#[trigger] d[i])
}

/// How Rust reads an unsigned integer below `cap`: an optional `+`, then at
/// least one decimal digit, and nothing else.
pub open spec fn parse_unsigned(s: Seq<u8>, cap: int) -> Option<int> {
    let d = digits_part(s);
    if d.len() == 0 || !all_digits(d) {
        None
    } else if decimal_capped(d, cap) >= cap {
        None
    } else {
        Some(decimal_capped(d, cap))
    }
}

/// Reads `s` as an unsigned integer below `cap`.
fn parse_capped(s: &[u8], cap: u64) -> (r: Option<u64>)
    requires
        0 < cap < 0xffff_ffff_ffff,
    ensures
        r == (match parse_unsigned(s@, cap as int) {
            Some(v) => Some(v as u64),
            None => None::<u64>,
        }),
        r matches Some(v) ==> v < cap && parse_unsigned(s@, cap as int) == Some(v as int),
{
    let start: usize = if s.len() > 0 && s[0] == 0x2b {
        1
    } else {
        0
    };
    let ghost d = digits_part(s@);
    proof {
        assert(d =~= s@.subrange(start as int, s@.len() as int));
    }
    if start == s.len() {
        return None;
    }
    let mut acc: u64 = 0;
    let mut i: usize = start;
    while i < s.len()
        invariant
            start <= i <= s@.len(),
            d == digits_part(s@),
            d == s@.subrange(start as int, s@.len() as int),
            0 < cap < 0xffff_ffff_ffff,
            acc as int == decimal_capped(s@.subrange(start as int, i as int), cap as int),
            acc <= cap,
            forall|k: int| start <= k < i ==> is_digit_char(#[trigger] s@[k]),
        decreases s@.len() - i,
    {
        let c = s[i];
        if !(c >= 0x30 && c <= 0x39) {
            proof {
                assert(!is_digit_char(d[i - start]));
                assert(!all_digits(d));
            }
            return None;
        }
        proof {
            assert(s@.subrange(start as int, i as int + 1).drop_last() =~= s@.subrange(
                start as int,
                i as int,
            ));
        }
        let v = acc * 10 + (c - 0x30) as u64;
        acc = if v >= cap {
            cap
        } else {
            v
        };
        i += 1;
    }
    proof {
        assert(s@.subrange(start as int, i as int) =~= d);
        assert forall|k: int| 0 <= k < d.len() implies is_digit_char(#[trigger] d[k]) by {
            assert(d[k] == s@[k + start]);
        }
        lemma_capped_bounds(d, cap as int);
    }
    if acc >= cap {
        None
    } else {
        Some(acc)
    }
}

/// `s` cut at each colon.
pub open spec fn fragments(s: Seq<u8>) -> Seq<Seq<u8>>
    decreases s.len(),
{
    if s.len() == 0 {
        seq![Seq::empty()]
    } else {
        let p = fragments(s.drop_last());
        if s.last() == 0x3a {
            p.push(Seq::empty())
        } else {
            p.update(p.len() - 1, p.last().push(s.last()))
        }
    }
}

proof fn lemma_fragments_len(s: Seq<u8>)
    ensures
        fragments(s).len() >= 1,
    decreases s.len(),
{
    if s.len() > 0 {
        lemma_fragments_len(s.drop_last());
    }
}

/// The number a sub-parameter stands for: none when it is empty or not a
/// number below 65536.
pub open spec fn sub_value(f: Seq<u8>) -> Option<u16> {
    match parse_unsigned(f, 0x10000) {
        Some(v) => Some(v as u16),
        None => None,
    }
}

pub open spec fn sub_values(s: Seq<u8>) -> Seq<Option<u16>> {
    fragments(s).map_values(|f: Seq<u8>| sub_value(f))
}

fn sub_value_of(f: &[u8]) -> (r: Option<u16>)
    ensures
        r == sub_value(f@),
{
    match parse_capped(f, 0x10000) {
        Some(v) => Some(v as u16),
        None => None,
    }
}

/// One parameter, read as numbers: colons separate sub-parameters.
#[derive(Debug, Clone, Default)]
pub struct NumericParam {
    pub param: Vec<u8>,
}

impl NumericParam {
    /// The parameter as a single number: none if it is empty, holds a colon,
    /// or is not a number below 65536.
    pub fn sole(&self) -> (r: Option<u16>)
        ensures
            r == (if self.param@.len() > 0 && !self.param@.contains(0x3a) {
                sub_value(self.param@)
            } else {
                None
            }),
    {
        let mut i: usize = 0;
        while i < self.param.len()
            invariant
                0 <= i <= self.param@.len(),
                forall|k: int| 0 <= k < i ==> self.param@[k] != 0x3a,
            decreases self.param@.len() - i,
        {
            if self.param[i] == 0x3a {
                return None;
            }
            i += 1;
        }
        if self.param.len() == 0 {
            None
        } else {
            sub_value_of(self.param.as_slice())
        }
    }

    /// The value of each sub-parameter, in order.
    pub fn values(&self) -> (r: Vec<Option<u16>>)
        ensures
            r@ == sub_values(self.param@),
    {
        let s = self.param.as_slice();
        let mut out: Vec<Option<u16>> = Vec::new();
        let mut start: usize = 0;
        let mut i: usize = 0;
        proof {
            lemma_fragments_len(s@.take(0));
            assert(s@.take(0) =~= Seq::<u8>::empty());
        }
        while i < s.len()
            invariant
                0 <= start <= i <= s@.len(),
                fragments(s@.take(i as int)).len() >= 1,
                out@ == fragments(s@.take(i as int)).drop_last().map_values(
                    |f: Seq<u8>| sub_value(f),
                ),
                fragments(s@.take(i as int)).last() == s@.subrange(start as int, i as int),
            decreases s@.len() - i,
        {
            proof {
                assert(s@.take(i as int + 1).drop_last() =~= s@.take(i as int));
            }
            if s[i] == 0x3a {
                let v = sub_value_of(slice_range(s, start, i));
                out.push(v);
                start = i + 1;
                proof {
                    let p = fragments(s@.take(i as int));
                    assert(fragments(s@.take(i as int + 1)) == p.push(Seq::empty()));
                    assert(p.push(Seq::empty()).drop_last() =~= p);
                    assert(p =~= p.drop_last().push(p.last()));
                    assert(out@ =~= p.map_values(|f: Seq<u8>| sub_value(f)));
                    assert(s@.subrange(start as int, i as int + 1) =~= Seq::<u8>::empty());
                }
            } else {
                proof {
                    let p = fragments(s@.take(i as int));
                    let q = p.update(p.len() - 1, p.last().push(s@[i as int]));
                    assert(fragments(s@.take(i as int + 1)) == q);
                    assert(q.drop_last() =~= p.drop_last());
                    assert(q.last() =~= s@.subrange(start as int, i as int + 1));
                }
            }
            i += 1;
        }
        let v = sub_value_of(slice_range(s, start, s.len()));
        out.push(v);
        proof {
            let p = fragments(s@.take(i as int));
            assert(s@.take(i as int) =~= s@);
            assert(p =~= p.drop_last().push(p.last()));
            assert(out@ =~= p.map_values(|f: Seq<u8>| sub_value(f)));
        }
        out
    }

    /// The value of the first sub-parameter.
    pub fn first(&self) -> (r: Option<u16>)
        ensures
            r == sub_values(self.param@)[0],
    {
        let v = self.values();
        proof {
            lemma_fragments_len(self.param@);
        }
        v[0]
    }

    pub fn is_empty(&self) -> (r: bool)
        ensures
            r == (self.param@.len() == 0),
    {
        self.param.len() == 0
    }

    /// The number of sub-parameters.
    pub fn len(&self) -> (r: usize)
        ensures
            r == fragments(self.param@).len(),
    {
        let v = self.values();
        v.len()
    }

    /// Writes the sub-parameters to the front of `buf`, zero for one with no
    /// value. Returns their number, in `Err` when `buf` is too short (and then
    /// writes nothing).
    pub fn try_write(&self, buf: &mut [u16]) -> (r: Result<usize, usize>)
        ensures
            match r {
                Ok(n) => {
                    &&& n == fragments(self.param@).len()
                    &&& n <= old(buf)@.len()
                    &&& final(buf)@.len() == old(buf)@.len()
                    &&& forall|i: int|
                        0 <= i < n ==> #[trigger] final(buf)@[i] == match sub_values(
                            self.param@,
                        )[i] {
                            Some(v) => v,
                            None => 0,
                        }
                    &&& forall|i: int| n <= i < old(buf)@.len() ==> #[trigger] final(buf)@[i] == old(buf)@[i]
                },
                Err(n) => n == fragments(self.param@).len() && old(buf)@.len() < n && final(buf)@
                    == old(buf)@,
            },
    {
        let v = self.values();
        write_values(&v, buf)
    }
}

/// Writes `v` to the front of `buf`, zero for `None`.
fn write_values(v: &Vec<Option<u16>>, buf: &mut [u16]) -> (r: Result<usize, usize>)
    ensures
        match r {
            Ok(n) => {
                &&& n == v@.len()
                &&& n <= old(buf)@.len()
                &&& final(buf)@.len() == old(buf)@.len()
                &&& forall|i: int|
                    0 <= i < n ==> #[trigger] final(buf)@[i] == match v@[i] {
                        Some(x) => x,
                        None => 0,
                    }
                &&& forall|i: int| n <= i < old(buf)@.len() ==> #[trigger] final(buf)@[i] == old(buf)@[i]
            },
            Err(n) => n == v@.len() && old(buf)@.len() < n && final(buf)@ == old(buf)@,
        },
{
    if buf.len() < v.len() {
        return Err(v.len());
    }
    let ghost orig = buf@;
    let mut i: usize = 0;
    while i < v.len()
        invariant
            0 <= i <= v@.len() <= orig.len(),
            buf@.len() == orig.len(),
            forall|k: int|
                0 <= k < i ==> #[trigger] buf@[k] == match v@[k] {
                    Some(x) => x,
                    None => 0,
                },
            forall|k: int| i <= k < orig.len() ==> #[trigger] buf@[k] == orig[k],
        decreases v@.len() - i,
    {
        let x = match v[i] {
            Some(x) => x,
            None => 0,
        };
        buf.set(i, x);
        i += 1;
    }
    Ok(v.len())
}

/// `s[from..to]`.
fn slice_range(s: &[u8], from: usize, to: usize) -> (r: &[u8])
    requires
        from <= to <= s@.len(),
    ensures
        r@ == s@.subrange(from as int, to as int),
{
    vstd::slice::slice_subrange(s, from, to)
}

/// All parameters of a header, read as numbers.
#[derive(Debug, Clone, Default)]
pub struct NumericParamBuf {
    pub params: Vec<Vec<u8>>,
}

impl NumericParamBuf {
    pub fn empty() -> (r: Self)
        ensures
            r.params@.len() == 0,
    {
        NumericParamBuf { params: Vec::new() }
    }

    pub fn len(&self) -> (r: usize)
        ensures
            r == self.params@.len(),
    {
        self.params.len()
    }

    pub fn is_empty(&self) -> (r: bool)
        ensures
            r == (self.params@.len() == 0),
    {
        self.params.len() == 0
    }

    /// Parameter `index`.
    pub fn get(&self, index: usize) -> (r: Option<NumericParam>)
        ensures
            match r {
                Some(p) => index < self.params@.len() && p.param@ == self.params@[index as int]@,
                None => index >= self.params@.len(),
            },
    {
        if index < self.params.len() {
            Some(NumericParam { param: copy_bytes(&self.params[index]) })
        } else {
            None
        }
    }

    pub fn first(&self) -> (r: Option<NumericParam>)
        ensures
            match r {
                Some(p) => self.params@.len() > 0 && p.param@ == self.params@[0]@,
                None => self.params@.len() == 0,
            },
    {
        self.get(0)
    }

    /// Writes each parameter's sole value (zero for none) to the front of
    /// `buf`. Returns their number, in `Err` when `buf` is too short.
    pub fn try_write(&self, buf: &mut [u16]) -> (r: Result<usize, usize>)
        ensures
            match r {
                Ok(n) => {
                    &&& n == self.params@.len()
                    &&& n <= old(buf)@.len()
                    &&& final(buf)@.len() == old(buf)@.len()
                    &&& forall|i: int|
                        0 <= i < n ==> #[trigger] final(buf)@[i] == match (NumericParam {
                            param: self.params@[i],
                        }).sole_spec() {
                            Some(v) => v,
                            None => 0,
                        }
                },
                Err(n) => n == self.params@.len() && old(buf)@.len() < n && final(buf)@
                    == old(buf)@,
            },
    {
        let mut v: Vec<Option<u16>> = Vec::new();
        let mut i: usize = 0;
        while i < self.params.len()
            invariant
                0 <= i <= self.params@.len(),
                v@.len() == i,
                forall|k: int|
                    0 <= k < i ==> #[trigger] v@[k] == (NumericParam {
                        param: self.params@[k],
                    }).sole_spec(),
            decreases self.params@.len() - i,
        {
            let p = NumericParam { param: copy_bytes(&self.params[i]) };
            let x = p.sole();
            proof {
                assert(p.sole_spec() == (NumericParam { param: self.params@[i as int] }).sole_spec());
            }
            v.push(x);
            i += 1;
        }
        write_values(&v, buf)
    }
}

impl NumericParam {
    /// What [`NumericParam::sole`] returns.
    pub open spec fn sole_spec(self) -> Option<u16> {
        if self.param@.len() > 0 && !self.param@.contains(0x3a) {
            sub_value(self.param@)
        } else {
            None
        }
    }
}

fn copy_bytes(v: &Vec<u8>) -> (r: Vec<u8>)
    ensures
        r@ == v@,
{
    let mut r: Vec<u8> = Vec::new();
    r.extend_from_slice(v.as_slice());
    r
}

/// A copy of a parameter list.
pub fn copy_params(p: &ParamBuf) -> (r: ParamBuf)
    ensures
        r@ == p@,
{
    let mut v: Vec<Vec<u8>> = Vec::new();
    let mut i: usize = 0;
    while i < p.params.len()
        invariant
            0 <= i <= p.params@.len(),
            v@.len() == i,
            forall|k: int| 0 <= k < i ==> (#[trigger] v@[k])@ == p.params@[k]@,
        decreases p.params@.len() - i,
    {
        v.push(copy_bytes(&p.params[i]));
        i += 1;
    }
    let r = ParamBuf { params: v };
    assert(r@ =~= p@);
    r
}

/// Another name for [`ParamBuf`]: parameters always own their bytes.
pub type ParamBufOwned = ParamBuf;

impl ParamBuf {
    pub fn empty() -> (r: Self)
        ensures
            r@ == Seq::<Seq<u8>>::empty(),
    {
        let r = ParamBuf { params: Vec::new() };
        assert(r@ =~= Seq::<Seq<u8>>::empty());
        r
    }

    /// Parameters with the given bytes.
    pub fn new(params: &[&[u8]]) -> (r: Self)
        ensures
            r@.len() == params@.len(),
            forall|i: int| 0 <= i < params@.len() ==> #[trigger] r@[i] == params@[i]@,
    {
        let mut v: Vec<Vec<u8>> = Vec::new();
        let mut i: usize = 0;
        while i < params.len()
            invariant
                0 <= i <= params@.len(),
                v@.len() == i,
                forall|k: int| 0 <= k < i ==> (#[trigger] v@[k])@ == params@[k]@,
            decreases params@.len() - i,
        {
            let mut p: Vec<u8> = Vec::new();
            p.extend_from_slice(params[i]);
            v.push(p);
            i += 1;
        }
        ParamBuf { params: v }
    }

    pub fn len(&self) -> (r: usize)
        ensures
            r == self@.len(),
    {
        self.params.len()
    }

    pub fn is_empty(&self) -> (r: bool)
        ensures
            r == (self@.len() == 0),
    {
        self.params.len() == 0
    }

    /// The bytes of parameter `index`.
    pub fn get(&self, index: usize) -> (r: Option<&[u8]>)
        ensures
            match r {
                Some(p) => index < self@.len() && p@ == self@[index as int],
                None => index >= self@.len(),
            },
    {
        if index < self.params.len() {
            Some(self.params[index].as_slice())
        } else {
            None
        }
    }

    /// Parameter `index` read as an unsigned integer.
    pub fn try_parse(&self, index: usize) -> (r: Option<usize>)
        ensures
            match r {
                Some(v) => index < self@.len() && parse_unsigned(self@[index as int], 0x1_0000_0000)
                    == Some(v as int),
                None => index >= self@.len() || parse_unsigned(
                    self@[index as int],
                    0x1_0000_0000,
                ) is None,
            },
    {
        if index < self.params.len() {
            match parse_capped(self.params[index].as_slice(), 0x1_0000_0000) {
                Some(v) => Some(v as usize),
                None => None,
            }
        } else {
            None
        }
    }

    /// A copy of this list.
    pub fn to_owned(&self) -> (r: ParamBufOwned)
        ensures
            r@ == self@,
    {
        copy_params(self)
    }

    /// The number of bytes the parameters take on the wire.
    pub fn byte_len(&self) -> (r: usize)
        ensures
            r == join_params(self@).len(),
    {
        let mut v: Vec<u8> = Vec::new();
        crate::event::push_params(&mut v, self);
        assert(v@ =~= join_params(self@));
        v.len()
    }

    /// The parameters read as numbers.
    pub fn numeric(&self) -> (r: NumericParamBuf)
        ensures
            r.params@.len() == self@.len(),
            forall|i: int| 0 <= i < self@.len() ==> (#[trigger] r.params@[i])@ == self@[i],
    {
        let c = copy_params(self);
        NumericParamBuf { params: c.params }
    }
}

impl VTEvent {
    /// The control sequence, if this is one.
    pub fn csi(&self) -> (r: Option<CSI>)
        ensures
            match (self, r) {
                (VTEvent::Csi(c), Some(d)) => d.private == c.private && d.params@ == c.params@
                    && d.intermediates == c.intermediates && d.final_byte == c.final_byte,
                (VTEvent::Csi(_), None) => false,
                (_, r) => r is None,
            },
    {
        match self {
            VTEvent::Csi(c) => Some(
                CSI {
                    private: c.private,
                    params: copy_params(&c.params),
                    intermediates: c.intermediates,
                    final_byte: c.final_byte,
                },
            ),
            _ => None,
        }
    }
}

/// Another name for [`VTEvent`]: events always own their bytes.
pub type VTOwnedEvent = VTEvent;

impl VTEvent {
    /// A copy of this event.
    pub fn to_owned(&self) -> (r: VTOwnedEvent)
        ensures
            r.variant() == self.variant(),
            r.toks() == self.toks(),
            r.encoded() == self.encoded(),
            r.wf() == self.wf(),
    {
        match self {
            VTEvent::Raw(v) => VTEvent::Raw(copy_bytes(v)),
            VTEvent::C0(b) => VTEvent::C0(*b),
            VTEvent::Esc(e) => VTEvent::Esc(*e),
            VTEvent::EscInvalid(e) => VTEvent::EscInvalid(*e),
            VTEvent::Ss2(s) => VTEvent::Ss2(*s),
            VTEvent::Ss3(s) => VTEvent::Ss3(*s),
            VTEvent::Csi(c) => VTEvent::Csi(
                CSI {
                    private: c.private,
                    params: copy_params(&c.params),
                    intermediates: c.intermediates,
                    final_byte: c.final_byte,
                },
            ),
            VTEvent::DcsStart(d) => VTEvent::DcsStart(
                DCS {
                    private: d.private,
                    params: copy_params(&d.params),
                    intermediates: d.intermediates,
                    final_byte: d.final_byte,
                },
            ),
            VTEvent::DcsData(v) => VTEvent::DcsData(copy_bytes(v)),
            VTEvent::DcsEnd(v) => VTEvent::DcsEnd(copy_bytes(v)),
            VTEvent::DcsCancel => VTEvent::DcsCancel,
            VTEvent::OscStart => VTEvent::OscStart,
            VTEvent::OscData(v) => VTEvent::OscData(copy_bytes(v)),
            VTEvent::OscEnd { data, used_bel } => VTEvent::OscEnd {
                data: copy_bytes(data),
                used_bel: *used_bel,
            },
            VTEvent::OscCancel => VTEvent::OscCancel,
        }
    }
}

} // verus!
