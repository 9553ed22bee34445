//! The header collectors, held in `smallvec::SmallVec`s. Verus cannot
//! declare `SmallVec` itself (its parameter is bound by the outside trait
//! `smallvec::Array`), so each instance sits in a struct of this module that
//! only the wrappers below open.
use vstd::prelude::*;

use smallvec::SmallVec;

verus! {

/// The bytes of the parameter being read. Short parameters stay inline.
#[verifier::external_body]
pub struct ParamBytes {
    inner: SmallVec<[u8; 32]>,
}

/// The bytes a [`ParamBytes`] holds.
pub uninterp spec fn param_bytes(p: ParamBytes) -> Seq<u8>;

/// The longest parameter. Growing past it, `SmallVec::push` could need a
/// capacity above `isize::MAX` bytes, where it panics.
pub const PARAM_CAP: usize = usize::MAX / 4;

/// Relies on `SmallVec::new`: an empty vector.
#[verifier::external_body]
pub fn param_new() -> (r: ParamBytes)
    ensures
        param_bytes(r) == Seq::<u8>::empty(),
{
    ParamBytes { inner: SmallVec::new() }
}

/// Relies on `SmallVec::push`: appends `b`. It panics only when the new
/// capacity (the next power of two above the length) overflows, which needs
/// a length of `PARAM_CAP` or more.
#[verifier::external_body]
pub fn param_push(p: &mut ParamBytes, b: u8)
    requires
        param_bytes(*old(p)).len() < PARAM_CAP,
    ensures
        param_bytes(*final(p)) == param_bytes(*old(p)).push(b),
{
    p.inner.push(b)
}

/// Relies on `SmallVec::as_slice`: the elements, in order.
#[verifier::external_body]
pub fn param_slice(p: &ParamBytes) -> (r: &[u8])
    ensures
        r@ == param_bytes(*p),
{
    p.inner.as_slice()
}

/// The finished parameters of the header being read. A few stay inline.
#[verifier::external_body]
pub struct ParamList {
    inner: SmallVec<[Vec<u8>; 8]>,
}

/// The parameters a [`ParamList`] holds.
pub uninterp spec fn param_list(p: ParamList) -> Seq<Vec<u8>>;

/// The most parameters a header keeps. Growing past it, `SmallVec::push`
/// could need a capacity above `isize::MAX` bytes, where it panics.
pub const LIST_CAP: usize = usize::MAX / 64;

/// Relies on `SmallVec::new`: an empty vector.
#[verifier::external_body]
pub fn list_new() -> (r: ParamList)
    ensures
        param_list(r) == Seq::<Vec<u8>>::empty(),
{
    ParamList { inner: SmallVec::new() }
}

/// Relies on `SmallVec::push`: appends `v`. It panics only when the new
/// capacity overflows, which needs a length of `LIST_CAP` or more.
#[verifier::external_body]
pub fn list_push(p: &mut ParamList, v: Vec<u8>)
    requires
        param_list(*old(p)).len() < LIST_CAP,
    ensures
        param_list(*final(p)) == param_list(*old(p)).push(v),
{
    p.inner.push(v)
}

/// Relies on `SmallVec::as_slice`: the elements, in order.
#[verifier::external_body]
pub fn list_slice(p: &ParamList) -> (r: &[Vec<u8>])
    ensures
        r@ == param_list(*p),
{
    p.inner.as_slice()
}

} // verus!
