//! The wire side of the lookup: building the JSON request body that is
//! posted to the remote identity service, and classifying the JSON
//! response body into a verdict.

use vstd::prelude::*;

use crate::verdict::{LookupError, SpecVerdict, Verdict};

verus! {

/// The existence code with which the remote service confirms an
/// existing account.
pub const FOUND_CODE: i64 = 0;

/// Hex digit (lower case) for a value below 16, as a byte.
pub open spec fn spec_hex_digit(n: u8) -> u8 {
    if n < 10 {
        (48 + n) as u8
    } else {
        (87 + n) as u8
    }
}

/// How one byte of a string appears inside a JSON string literal:
/// quote and backslash are escaped, control characters take their
/// short escape or the `\u00xx` form, everything else stands as is.
pub open spec fn spec_escape_byte(b: u8) -> Seq<u8> {
    if b == 34 {
        seq![92u8, 34u8]
    } else if b == 92 {
        seq![92u8, 92u8]
    } else if b == 8 {
        seq![92u8, 98u8]
    } else if b == 9 {
        seq![92u8, 116u8]
    } else if b == 10 {
        seq![92u8, 110u8]
    } else if b == 12 {
        seq![92u8, 102u8]
    } else if b == 13 {
        seq![92u8, 114u8]
    } else if b < 32 {
        seq![92u8, 117u8, 48u8, 48u8, spec_hex_digit(b / 16), spec_hex_digit(b % 16)]
    } else {
        seq![b]
    }
}

/// A whole string escaped for use inside a JSON string literal.
pub open spec fn spec_escape(s: Seq<u8>) -> Seq<u8>
    decreases s.len(),
{
    if s.len() == 0 {
        Seq::empty()
    } else {
        spec_escape(s.drop_last()) + spec_escape_byte(s.last())
    }
}

/// The bytes of `{"Username":"`, the opening of the request payload.
pub open spec fn spec_request_prefix() -> Seq<u8> {
    seq![123u8, 34u8, 85u8, 115u8, 101u8, 114u8, 110u8, 97u8, 109u8, 101u8, 34u8, 58u8, 34u8]
}

/// The request payload for one address: a single-field JSON object
/// keyed `Username`, holding the address as a JSON string.
pub open spec fn spec_request_body(addr: Seq<u8>) -> Seq<u8> {
    spec_request_prefix() + spec_escape(addr) + seq![34u8, 125u8]
}

fn hex_digit(n: u8) -> (r: u8)
    requires
        n < 16,
    ensures
        r == spec_hex_digit(n),
{
    if n < 10 {
        48 + n
    } else {
        87 + n
    }
}

fn push_escaped_byte(out: &mut Vec<u8>, b: u8)
    ensures
        final(out)@ == old(out)@ + spec_escape_byte(b),
{
    if b == 34 {
        out.push(92);
        out.push(34);
    } else if b == 92 {
        out.push(92);
        out.push(92);
    } else if b == 8 {
        out.push(92);
        out.push(98);
    } else if b == 9 {
        out.push(92);
        out.push(116);
    } else if b == 10 {
        out.push(92);
        out.push(110);
    } else if b == 12 {
        out.push(92);
        out.push(102);
    } else if b == 13 {
        out.push(92);
        out.push(114);
    } else if b < 32 {
        out.push(92);
        out.push(117);
        out.push(48);
        out.push(48);
        out.push(hex_digit(b / 16));
        out.push(hex_digit(b % 16));
    } else {
        out.push(b);
    }
    assert(out@ =~= old(out)@ + spec_escape_byte(b));
}

/// Build the JSON request body sent for one address.
pub fn request_body(addr: &[u8]) -> (r: Vec<u8>)
    ensures
        r@ == spec_request_body(addr@),
{
    let mut r: Vec<u8> = Vec::new();
    r.push(123);
    r.push(34);
    r.push(85);
    r.push(115);
    r.push(101);
    r.push(114);
    r.push(110);
    r.push(97);
    r.push(109);
    r.push(101);
    r.push(34);
    r.push(58);
    r.push(34);
    proof {
        assert(r@ =~= spec_request_prefix());
        assert(addr@.take(0) =~= Seq::<u8>::empty());
    }
    let mut i: usize = 0;
    while i < addr.len()
        invariant
            0 <= i <= addr@.len(),
            r@ == spec_request_prefix() + spec_escape(addr@.take(i as int)),
        decreases addr@.len() - i,
    {
        push_escaped_byte(&mut r, addr[i]);
        proof {
            assert(addr@.take(i + 1).drop_last() =~= addr@.take(i as int));
            assert(addr@.take(i + 1).last() == addr@[i as int]);
            assert(r@ =~= spec_request_prefix() + spec_escape(addr@.take(i + 1)));
        }
        i = i + 1;
    }
    proof {
        assert(addr@.take(addr@.len() as int) =~= addr@);
    }
    r.push(34);
    r.push(125);
    proof {
        assert(r@ =~= spec_request_body(addr@));
    }
    r
}

/// The existence code carried by a response body: the integer under
/// the `IfExistsResult` key of the JSON object the body holds, or
/// nothing if the body is not a JSON object with such an integer.
pub uninterp spec fn spec_exists_code(body: Seq<u8>) -> Option<i64>;

/// Relies on `serde_json::from_slice::<serde_json::Value>`,
/// `serde_json::Value::get` and `serde_json::Value::as_i64`: parsing a
/// byte string into a JSON value, looking a key up in it and reading
/// the integer under it depend on the bytes alone, and an empty body
/// is not valid JSON.
#[verifier::external_body]
fn decode_exists_code(body: &[u8]) -> (r: Option<i64>)
    ensures
        r == spec_exists_code(body@),
        body@.len() == 0 ==> r is None,
{
    match serde_json::from_slice::<serde_json::Value>(body) {
        Ok(doc) => match doc.get("IfExistsResult") {
            Some(code) => code.as_i64(),
            None => None,
        },
        Err(_) => None,
    }
}

/// What classifying a response body for `addr` yields: a verdict
/// whenever the body decodes to an existence code, and the verdict
/// confirms existence exactly for the found sentinel.
pub open spec fn spec_classify(addr: Seq<u8>, body: Seq<u8>) -> Option<SpecVerdict> {
    match spec_exists_code(body) {
        Some(code) => Some(SpecVerdict { address: addr, exists: code == FOUND_CODE }),
        None => None,
    }
}

/// The verdict for `addr` once a response has decoded to the
/// existence code `code`: existence is confirmed exactly for the
/// found sentinel, and every other code counts as "does not exist".
pub fn verdict_for(addr: Vec<u8>, code: i64) -> (v: Verdict)
    ensures
        v@.address == addr@,
        v@.exists == (code == FOUND_CODE),
{
    Verdict { address: addr, exists: code == FOUND_CODE }
}

/// Classify a response body into the verdict for `addr`; a body that
/// does not decode is a per-address decode failure, never a "does not
/// exist" verdict.
pub fn classify_response(addr: Vec<u8>, body: &[u8]) -> (r: Result<Verdict, LookupError>)
    ensures
        match spec_classify(addr@, body@) {
            Some(v) => r matches Ok(rv) && rv@ == v,
            None => r matches Err(e) && e == LookupError::Decode,
        },
{
    match decode_exists_code(body) {
        Some(code) => Ok(verdict_for(addr, code)),
        None => Err(LookupError::Decode),
    }
}

/// What a whole lookup yields, given the transport's outcome for the
/// posted request: no response is a transport failure, a response body
/// is classified.
pub open spec fn spec_lookup(addr: Seq<u8>, response: Option<Seq<u8>>) -> Result<
    SpecVerdict,
    LookupError,
> {
    match response {
        None => Err(LookupError::Transport),
        Some(body) => match spec_classify(addr, body) {
            Some(v) => Ok(v),
            None => Err(LookupError::Decode),
        },
    }
}

/// The decision half of one lookup: the transport's outcome (the
/// response body, or nothing on a network failure) comes in as a
/// value, and the verdict or the per-address failure comes out. At
/// most one verdict ever arises from one address.
pub fn lookup_outcome(addr: Vec<u8>, response: Option<Vec<u8>>) -> (r: Result<
    Verdict,
    LookupError,
>)
    ensures
        match spec_lookup(addr@, response.deep_view()) {
            Ok(v) => r matches Ok(rv) && rv@ == v,
            Err(e) => r matches Err(re) && re == e,
        },
{
    match response {
        None => Err(LookupError::Transport),
        Some(body) => {
            proof {
                assert(body.deep_view() =~= body@);
            }
            classify_response(addr, body.as_slice())
        },
    }
}

} // verus!
