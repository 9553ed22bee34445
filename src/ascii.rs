//! ASCII control names, and the `<NAME>` notation for bytes.
use vstd::prelude::*;

use vstd::string::StringSliceAdditionalSpecFns;

verus! {

pub open spec fn upper(b: u8) -> u8 {
    if 0x61 <= b <= 0x7a {
        (b - 0x20) as u8
    } else {
        b
    }
}

/// A name of at most three bytes packed into one number, case folded:
/// the length, then the bytes.
pub open spec fn name_key(name: Seq<u8>) -> int
    decreases name.len(),
{
    if name.len() == 0 {
        0
    } else {
        name_key(name.drop_last()) * 256 + upper(name.last()) + if name.len() == 1 {
            256int
        } else {
            0int
        }
    }
}

/// The control byte a packed name stands for.
pub open spec fn control_of_key(k: u32) -> Option<u8> {
    match k {
        0x14e554c => Some(0u8), // NUL
        0x1534f48 => Some(1u8), // SOH
        0x1535458 => Some(2u8), // STX
        0x1455458 => Some(3u8), // ETX
        0x1454f54 => Some(4u8), // EOT
        0x1454e51 => Some(5u8), // ENQ
        0x141434b => Some(6u8), // ACK
        0x142454c => Some(7u8), // BEL
        0x14253 => Some(8u8), // BS
        0x14854 => Some(9u8), // HT
        0x1544142 => Some(9u8), // TAB
        0x14c46 => Some(10u8), // LF
        0x15654 => Some(11u8), // VT
        0x14646 => Some(12u8), // FF
        0x14352 => Some(13u8), // CR
        0x1534f => Some(14u8), // SO
        0x15349 => Some(15u8), // SI
        0x1444c45 => Some(16u8), // DLE
        0x1444331 => Some(17u8), // DC1
        0x1444332 => Some(18u8), // DC2
        0x1444333 => Some(19u8), // DC3
        0x1444334 => Some(20u8), // DC4
        0x14e414b => Some(21u8), // NAK
        0x153594e => Some(22u8), // SYN
        0x1455442 => Some(23u8), // ETB
        0x143414e => Some(24u8), // CAN
        0x1454d => Some(25u8), // EM
        0x1535542 => Some(26u8), // SUB
        0x1455343 => Some(27u8), // ESC
        0x14653 => Some(28u8), // FS
        0x14753 => Some(29u8), // GS
        0x15253 => Some(30u8), // RS
        0x15553 => Some(31u8), // US
        0x15350 => Some(32u8), // SP
        0x144454c => Some(127u8), // DEL
        _ => None,
    }
}

fn control_by_key(k: u32) -> (r: Option<u8>)
    ensures
        r == control_of_key(k),
{
    match k {
        0x14e554c => Some(0), // NUL
        0x1534f48 => Some(1), // SOH
        0x1535458 => Some(2), // STX
        0x1455458 => Some(3), // ETX
        0x1454f54 => Some(4), // EOT
        0x1454e51 => Some(5), // ENQ
        0x141434b => Some(6), // ACK
        0x142454c => Some(7), // BEL
        0x14253 => Some(8), // BS
        0x14854 => Some(9), // HT
        0x1544142 => Some(9), // TAB
        0x14c46 => Some(10), // LF
        0x15654 => Some(11), // VT
        0x14646 => Some(12), // FF
        0x14352 => Some(13), // CR
        0x1534f => Some(14), // SO
        0x15349 => Some(15), // SI
        0x1444c45 => Some(16), // DLE
        0x1444331 => Some(17), // DC1
        0x1444332 => Some(18), // DC2
        0x1444333 => Some(19), // DC3
        0x1444334 => Some(20), // DC4
        0x14e414b => Some(21), // NAK
        0x153594e => Some(22), // SYN
        0x1455442 => Some(23), // ETB
        0x143414e => Some(24), // CAN
        0x1454d => Some(25), // EM
        0x1535542 => Some(26), // SUB
        0x1455343 => Some(27), // ESC
        0x14653 => Some(28), // FS
        0x14753 => Some(29), // GS
        0x15253 => Some(30), // RS
        0x15553 => Some(31), // US
        0x15350 => Some(32), // SP
        0x144454c => Some(127), // DEL
        _ => None,
    }
}

/// The control byte a `<NAME>` stands for, if any.
pub open spec fn control_code(name: Seq<u8>) -> Option<u8> {
    if 2 <= name.len() <= 3 {
        control_of_key(name_key(name) as u32)
    } else {
        None
    }
}

pub open spec fn hex_digit(b: u8) -> Option<u8> {
    if 0x30 <= b <= 0x39 {
        Some((b - 0x30) as u8)
    } else if 0x41 <= b <= 0x46 {
        Some((b - 0x37) as u8)
    } else if 0x61 <= b <= 0x66 {
        Some((b - 0x57) as u8)
    } else {
        None
    }
}

/// The byte a two-digit hex name stands for, if it is one.
pub open spec fn hex_byte(name: Seq<u8>) -> Option<u8> {
    if name.len() == 2 && hex_digit(name[0]) is Some && hex_digit(name[1]) is Some {
        Some((hex_digit(name[0]).unwrap() * 16 + hex_digit(name[1]).unwrap()) as u8)
    } else {
        None
    }
}

/// Where the first `>` of `s` is, or `s.len()`.
pub open spec fn find_close(s: Seq<u8>) -> int
    decreases s.len(),
{
    if s.len() == 0 {
        0
    } else if s[0] == 0x3e {
        0
    } else {
        1 + find_close(s.drop_first())
    }
}

proof fn lemma_find_close(s: Seq<u8>, j: int)
    requires
        0 <= j <= s.len(),
        forall|k: int| 0 <= k < j ==> s[k] != 0x3e,
        j == s.len() || s[j] == 0x3e,
    ensures
        find_close(s) == j,
    decreases s.len(),
{
    if s.len() > 0 && j > 0 {
        lemma_find_close(s.drop_first(), j - 1);
    }
}

/// The bytes that a string in `<NAME>` notation stands for: `<ESC>`, `<1B>`
/// and the like become the byte; anything else stands for itself.
pub open spec fn decoded(s: Seq<u8>) -> Seq<u8>
    decreases s.len(),
{
    if s.len() == 0 {
        Seq::empty()
    } else if s[0] == 0x3c {
        let rest = s.drop_first();
        let k = find_close(rest);
        let name = rest.take(k);
        let closed = k < rest.len();
        let after = if closed && 0 <= k {
            rest.skip(k + 1)
        } else {
            Seq::empty()
        };
        let piece = match hex_byte(name) {
            Some(b) => seq![b],
            None => match control_code(name) {
                Some(c) => seq![c],
                None => seq![0x3cu8] + name + if closed {
                    seq![0x3eu8]
                } else {
                    Seq::empty()
                },
            },
        };
        piece + decoded(after)
    } else {
        seq![s[0]] + decoded(s.drop_first())
    }
}

fn hex_digit_of(b: u8) -> (r: Option<u8>)
    ensures
        r == hex_digit(b),
{
    if b >= 0x30 && b <= 0x39 {
        Some(b - 0x30)
    } else if b >= 0x41 && b <= 0x46 {
        Some(b - 0x37)
    } else if b >= 0x61 && b <= 0x66 {
        Some(b - 0x57)
    } else {
        None
    }
}

fn upper_of(b: u8) -> (r: u8)
    ensures
        r == upper(b),
{
    if b >= 0x61 && b <= 0x7a {
        b - 0x20
    } else {
        b
    }
}

/// The byte that `s[from..to]` names, as hex or as a control name.
fn named_byte(s: &[u8], from: usize, to: usize) -> (r: Option<u8>)
    requires
        from <= to <= s@.len(),
    ensures
        r == (match hex_byte(s@.subrange(from as int, to as int)) {
            Some(b) => Some(b),
            None => control_code(s@.subrange(from as int, to as int)),
        }),
{
    let ghost name = s@.subrange(from as int, to as int);
    if to - from == 2 {
        if let (Some(h), Some(l)) = (hex_digit_of(s[from]), hex_digit_of(s[from + 1])) {
            return Some(h * 16 + l);
        }
    }
    if to - from < 2 || to - from > 3 {
        return None;
    }
    let mut k: u32 = 0;
    let mut i: usize = from;
    proof {
        assert(name.take(0) =~= Seq::<u8>::empty());
    }
    while i < to
        invariant
            from <= i <= to <= s@.len(),
            to - from <= 3,
            name == s@.subrange(from as int, to as int),
            k as int == name_key(name.take(i - from)),
            i - from == 0 ==> k == 0,
            i - from == 1 ==> k < 0x200,
            i - from == 2 ==> k < 0x2_0000,
            i - from == 3 ==> k < 0x200_0000,
        decreases to - i,
    {
        proof {
            assert(name.take(i - from + 1).drop_last() =~= name.take(i - from));
            assert(name.take(i - from + 1).last() == s@[i as int]);
        }
        let u = upper_of(s[i]) as u32;
        k = k * 256 + u + if i == from {
            256
        } else {
            0
        };
        i += 1;
    }
    proof {
        assert(name.take(to - from) =~= name);
    }
    control_by_key(k)
}

/// The bytes that `input`, in `<NAME>` notation, stands for.
pub fn decode_string(input: &str) -> (r: Vec<u8>)
    ensures
        r@ == decoded(input.spec_bytes()),
{
    let s = input.as_bytes();
    let mut out: Vec<u8> = Vec::new();
    let mut i: usize = 0;
    proof {
        assert(s@.skip(0) =~= s@);
    }
    while i < s.len()
        invariant
            0 <= i <= s@.len(),
            out@ + decoded(s@.skip(i as int)) == decoded(s@),
        decreases s@.len() - i,
    {
        let ghost t = s@.skip(i as int);
        let ghost before = out@;
        if s[i] == 0x3c {
            let mut j: usize = i + 1;
            while j < s.len() && s[j] != 0x3e
                invariant
                    i + 1 <= j <= s@.len(),
                    forall|k: int| i + 1 <= k < j ==> s@[k] != 0x3e,
                decreases s@.len() - j,
            {
                j += 1;
            }
            let closed = j < s.len();
            proof {
                let rest = t.drop_first();
                assert(rest =~= s@.skip(i as int + 1));
                lemma_find_close(rest, j - i - 1);
                assert(rest.take(j - i - 1) =~= s@.subrange(i as int + 1, j as int));
                if closed {
                    assert(rest.skip(j - i) =~= s@.skip(j as int + 1));
                }
            }
            match named_byte(s, i + 1, j) {
                Some(b) => {
                    out.push(b);
                },
                None => {
                    out.push(0x3c);
                    let mut k: usize = i + 1;
                    while k < j
                        invariant
                            i + 1 <= k <= j <= s@.len(),
                            out@ == before + seq![0x3cu8] + s@.subrange(i as int + 1, k as int),
                        decreases j - k,
                    {
                        out.push(s[k]);
                        k += 1;
                        proof {
                            assert(out@ =~= before + seq![0x3cu8] + s@.subrange(i as int + 1, k as int));
                        }
                    }
                    if closed {
                        out.push(0x3e);
                    }
                },
            }
            if closed {
                i = j + 1;
            } else {
                i = j;
                proof {
                    assert(s@.skip(i as int) =~= Seq::<u8>::empty());
                }
            }
            proof {
                assert(out@ + decoded(s@.skip(i as int)) =~= before + decoded(t));
            }
        } else {
            out.push(s[i]);
            proof {
                assert(t.drop_first() =~= s@.skip(i as int + 1));
                assert(out@ + decoded(s@.skip(i as int + 1)) =~= before + decoded(t));
            }
            i += 1;
        }
    }
    proof {
        assert(s@.skip(i as int) =~= Seq::<u8>::empty());
        assert(out@ + decoded(s@.skip(i as int)) =~= out@);
    }
    out
}

} // verus!
