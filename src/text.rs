//! Null-terminated text fields.
use vstd::prelude::*;

use crate::cursor::ByteReader;
use crate::GmaError;

verus! {

/// The text that lossy UTF-8 decoding makes of `b`.
pub uninterp spec fn utf8_lossy(b: Seq<u8>) -> Seq<char>;

/// Relies on `String::from_utf8_lossy`: it never fails, replaces malformed
/// sequences, and its result depends on the bytes alone.
#[verifier::external_body]
fn decode_lossy(b: &[u8]) -> (r: String)
    ensures
        r@ == utf8_lossy(b@),
{
    String::from_utf8_lossy(b).into_owned()
}

/// The number of bytes before the first zero byte at or after `p`, if there is one.
pub open spec fn cstr_len(s: Seq<u8>, p: int) -> Option<nat>
    decreases s.len() - p,
{
    if p < 0 || p >= s.len() {
        None
    } else if s[p] == 0 {
        Some(0)
    } else {
        match cstr_len(s, p + 1) {
            Some(n) => Some(n + 1),
            None => None,
        }
    }
}

/// Reads bytes up to and including a zero byte and decodes those before it.
pub fn ztstr(r: &mut ByteReader) -> (res: Result<String, GmaError>)
    requires
        old(r).wf(),
    ensures
        final(r).wf(),
        final(r).bytes() == old(r).bytes(),
        match cstr_len(old(r).bytes(), old(r).pos()) {
            Some(n) => res is Ok
                && res->Ok_0@ == utf8_lossy(old(r).bytes().subrange(old(r).pos(), old(r).pos() + n))
                && final(r).pos() == old(r).pos() + n + 1,
            None => res == Err::<String, GmaError>(GmaError::Truncated),
        },
{
    let ghost s = r.bytes();
    let ghost p0 = r.pos();
    let mut buffer: Vec<u8> = Vec::new();
    loop
        invariant
            r.wf(),
            r.bytes() == s,
            s == old(r).bytes(),
            p0 == old(r).pos(),
            0 <= p0 <= r.pos(),
            buffer@ == s.subrange(p0, r.pos()),
            cstr_len(s, p0) == match cstr_len(s, r.pos()) {
                Some(n) => Some((n + (r.pos() - p0)) as nat),
                None => None::<nat>,
            },
        decreases s.len() - r.pos(),
    {
        let ghost before = r.pos();
        let b = r.read_u8();
        match b {
            Ok(byte) => {
                assert(s[before] == byte);
                if byte == 0 {
                    assert(cstr_len(s, before) == Some(0nat));
                    return Ok(decode_lossy(buffer.as_slice()));
                }
                buffer.push(byte);
                assert(buffer@ =~= s.subrange(p0, r.pos()));
                assert(cstr_len(s, before) == match cstr_len(s, before + 1) {
                    Some(n) => Some((n + 1) as nat),
                    None => None::<nat>,
                });
            },
            Err(e) => {
                assert(cstr_len(s, before) is None);
                return Err(e);
            },
        }
    }
}

} // verus!
