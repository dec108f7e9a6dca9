//! Response decoding for the wire protocol.
//!
//! A response frame carries a JSON object whose members are string
//! keys with string or `null` values.  The backend promises exactly
//! one of the members `error` and `success`, each a string; the
//! decoder reads the object, takes `error` over `success` when both
//! appear, treats a missing pair as the distinct `unexpected result`
//! outcome, and treats anything that is not such an object — or a
//! non-string value under either key — as a fatal, unrecoverable
//! reply.

use vstd::prelude::*;
use vstd::utf8::decode_utf8;
use vstd::utf8::encode_scalar;
use vstd::utf8::valid_utf8;

use crate::codec::encoded_request;
use crate::codec::escape_byte;
use crate::codec::escape_bytes;
use crate::codec::hex_digit;
use crate::codec::lemma_escape_plain;
use crate::codec::null_lit;
use crate::codec::obj_mid;
use crate::codec::obj_prefix;
use crate::codec::quoted;

verus! {

/// A JSON value of the response subset: a string's raw (unescaped)
/// content bytes, or `null`.
pub enum JsonVal {
    Str(Seq<u8>),
    Null,
}

/// Whitespace as JSON knows it: space, tab, line feed, carriage
/// return.
pub open spec fn is_ws(b: u8) -> bool {
    b == 0x20 || b == 0x09 || b == 0x0a || b == 0x0d
}

/// The first index at or after `i` holding a non-whitespace byte, or
/// the end of `s`.
pub open spec fn skip_ws(s: Seq<u8>, i: int) -> int
    decreases s.len() - i,
{
    if i < 0 || i >= s.len() {
        i
    } else if is_ws(s[i]) {
        skip_ws(s, i + 1)
    } else {
        i
    }
}

/// The value of one hexadecimal digit, upper or lower case.
pub open spec fn hex_val(b: u8) -> Option<u8> {
    if 0x30 <= b && b <= 0x39 {
        Some((b - 0x30) as u8)
    } else if 0x61 <= b && b <= 0x66 {
        Some((b - 0x57) as u8)
    } else if 0x41 <= b && b <= 0x46 {
        Some((b - 0x37) as u8)
    } else {
        None
    }
}

/// Four hexadecimal digits starting at `i`, read as one code unit.
pub open spec fn parse_hex4(s: Seq<u8>, i: int) -> Option<u32> {
    if 0 <= i && i + 4 <= s.len() {
        match (hex_val(s[i]), hex_val(s[i + 1]), hex_val(s[i + 2]), hex_val(s[i + 3])) {
            (Some(a), Some(b), Some(c), Some(d)) => Some(
                ((a as int) * 0x1000 + (b as int) * 0x100 + (c as int) * 0x10 + (d as int)) as u32,
            ),
            _ => None,
        }
    } else {
        None
    }
}

/// The byte a two-character escape stands for, if the character after
/// the backslash is one of the eight short escapes.
pub open spec fn simple_unescape(e: u8) -> Option<u8> {
    if e == 0x22 {
        Some(0x22u8)
    } else if e == 0x5c {
        Some(0x5cu8)
    } else if e == 0x2f {
        Some(0x2fu8)
    } else if e == 0x62 {
        Some(0x08u8)
    } else if e == 0x66 {
        Some(0x0cu8)
    } else if e == 0x6e {
        Some(0x0au8)
    } else if e == 0x72 {
        Some(0x0du8)
    } else if e == 0x74 {
        Some(0x09u8)
    } else {
        None
    }
}

/// Parse string content starting at `i`, just after the opening
/// quote: the content bytes (escapes resolved, `\uXXXX` re-encoded as
/// UTF-8, surrogate pairs combined) and the index after the closing
/// quote.  Unescaped control bytes, bad escapes and lone surrogates
/// fail the parse.
pub open spec fn parse_string_body(s: Seq<u8>, i: int) -> Option<(Seq<u8>, int)>
    decreases s.len() - i,
{
    if i < 0 || i >= s.len() {
        None
    } else if s[i] == 0x22 {
        Some((Seq::empty(), i + 1))
    } else if s[i] == 0x5c {
        if i + 2 <= s.len() {
            let e = s[i + 1];
            if e == 0x75 {
                match parse_hex4(s, i + 2) {
                    Some(cu) => if 0xD800 <= cu && cu < 0xDC00 {
                        if i + 12 <= s.len() && s[i + 6] == 0x5c && s[i + 7] == 0x75 {
                            match parse_hex4(s, i + 8) {
                                Some(cu2) => if 0xDC00 <= cu2 && cu2 < 0xE000 {
                                    match parse_string_body(s, i + 12) {
                                        Some((c, j)) => Some(
                                            (
                                                encode_scalar(
                                                    (0x10000 + (cu - 0xD800) * 0x400 + (cu2
                                                        - 0xDC00)) as u32,
                                                ) + c,
                                                j,
                                            ),
                                        ),
                                        None => None,
                                    }
                                } else {
                                    None
                                },
                                None => None,
                            }
                        } else {
                            None
                        }
                    } else if 0xDC00 <= cu && cu < 0xE000 {
                        None
                    } else {
                        match parse_string_body(s, i + 6) {
                            Some((c, j)) => Some((encode_scalar(cu) + c, j)),
                            None => None,
                        }
                    },
                    None => None,
                }
            } else {
                match simple_unescape(e) {
                    Some(u) => match parse_string_body(s, i + 2) {
                        Some((c, j)) => Some((seq![u] + c, j)),
                        None => None,
                    },
                    None => None,
                }
            }
        } else {
            None
        }
    } else if s[i] < 0x20 {
        None
    } else {
        match parse_string_body(s, i + 1) {
            Some((c, j)) => Some((seq![s[i]] + c, j)),
            None => None,
        }
    }
}

/// Parse one value of the subset at `i`: a string or `null`.
pub open spec fn parse_value(s: Seq<u8>, i: int) -> Option<(JsonVal, int)> {
    if 0 <= i && i < s.len() && s[i] == 0x22 {
        match parse_string_body(s, i + 1) {
            Some((c, j)) => Some((JsonVal::Str(c), j)),
            None => None,
        }
    } else if 0 <= i && i + 4 <= s.len() && s[i] == 0x6e && s[i + 1] == 0x75 && s[i + 2] == 0x6c
        && s[i + 3] == 0x6c {
        Some((JsonVal::Null, i + 4))
    } else {
        None
    }
}

/// The content bytes of the key `error`.
pub open spec fn error_key() -> Seq<u8> {
    seq![0x65u8, 0x72u8, 0x72u8, 0x6fu8, 0x72u8]
}

/// The content bytes of the key `success`.
pub open spec fn success_key() -> Seq<u8> {
    seq![0x73u8, 0x75u8, 0x63u8, 0x63u8, 0x65u8, 0x73u8, 0x73u8]
}

/// Parse the members of the response object from the first key at
/// `i` to the closing brace, carrying the values seen so far under
/// the keys `error` and `success`; a repeated key keeps its last
/// value.  Returns those two values and the index after the brace.
pub open spec fn parse_members(
    s: Seq<u8>,
    i: int,
    err: Option<JsonVal>,
    succ: Option<JsonVal>,
) -> Option<((Option<JsonVal>, Option<JsonVal>), int)>
    decreases s.len() - i,
{
    if i < 0 || i >= s.len() || s[i] != 0x22 {
        None
    } else {
        match parse_string_body(s, i + 1) {
            None => None,
            Some((key, j)) => {
                let j2 = skip_ws(s, j);
                if !(0 <= j2 && j2 < s.len() && s[j2] == 0x3a) {
                    None
                } else {
                    match parse_value(s, skip_ws(s, j2 + 1)) {
                        None => None,
                        Some((v, j4)) => {
                            let err2 = if key == error_key() {
                                Some(v)
                            } else {
                                err
                            };
                            let succ2 = if key == success_key() {
                                Some(v)
                            } else {
                                succ
                            };
                            let j5 = skip_ws(s, j4);
                            if 0 <= j5 && j5 < s.len() && s[j5] == 0x2c {
                                let j6 = skip_ws(s, j5 + 1);
                                if i < j6 && j6 <= s.len() {
                                    parse_members(s, j6, err2, succ2)
                                } else {
                                    None
                                }
                            } else if 0 <= j5 && j5 < s.len() && s[j5] == 0x7d {
                                Some(((err2, succ2), j5 + 1))
                            } else {
                                None
                            }
                        },
                    }
                }
            },
        }
    }
}

/// Parse a whole response frame: optional whitespace (the CR LF
/// terminator included), one object of the subset, optional trailing
/// whitespace, nothing else.  The result is what stood under the keys
/// `error` and `success`.
pub open spec fn parse_response(s: Seq<u8>) -> Option<(Option<JsonVal>, Option<JsonVal>)> {
    let i = skip_ws(s, 0);
    if !(0 <= i && i < s.len() && s[i] == 0x7b) {
        None
    } else {
        let j = skip_ws(s, i + 1);
        if 0 <= j && j < s.len() && s[j] == 0x7d {
            if skip_ws(s, j + 1) == s.len() {
                Some((None, None))
            } else {
                None
            }
        } else {
            match parse_members(s, j, None, None) {
                Some(((e, sc), k)) => if skip_ws(s, k) == s.len() {
                    Some((e, sc))
                } else {
                    None
                },
                None => None,
            }
        }
    }
}

/// What a response frame means: the backend's error string wins over
/// its success string, a well-formed object with neither is the
/// protocol-level `unexpected result`, and everything else — broken
/// JSON or a non-string value under either key — is fatal.
pub enum Outcome {
    Success(Seq<u8>),
    Failure(Seq<u8>),
    Unexpected,
    Invalid,
}

/// The meaning of a response frame's bytes.
pub open spec fn response_outcome(s: Seq<u8>) -> Outcome {
    match parse_response(s) {
        None => Outcome::Invalid,
        Some((e, sc)) => match e {
            Some(JsonVal::Str(b)) => Outcome::Failure(b),
            Some(JsonVal::Null) => Outcome::Invalid,
            None => match sc {
                Some(JsonVal::Str(b)) => Outcome::Success(b),
                Some(JsonVal::Null) => Outcome::Invalid,
                None => Outcome::Unexpected,
            },
        },
    }
}

fn skip_ws_exec(s: &[u8], i: usize) -> (r: usize)
    requires
        i <= s@.len(),
    ensures
        r == skip_ws(s@, i as int),
        i <= r <= s@.len(),
{
    let mut cur = i;
    while cur < s.len() && (s[cur] == 0x20 || s[cur] == 0x09 || s[cur] == 0x0a || s[cur] == 0x0d)
        invariant
            i <= cur <= s@.len(),
            skip_ws(s@, i as int) == skip_ws(s@, cur as int),
        decreases s@.len() - cur,
    {
        proof {
            assert(skip_ws(s@, cur as int) == skip_ws(s@, cur as int + 1));
        }
        cur = cur + 1;
    }
    cur
}

fn hex_val_exec(b: u8) -> (r: Option<u8>)
    ensures
        r == hex_val(b),
{
    if 0x30 <= b && b <= 0x39 {
        Some(b - 0x30)
    } else if 0x61 <= b && b <= 0x66 {
        Some(b - 0x57)
    } else if 0x41 <= b && b <= 0x46 {
        Some(b - 0x37)
    } else {
        None
    }
}

fn parse_hex4_exec(s: &[u8], i: usize) -> (r: Option<u32>)
    requires
        i <= s@.len(),
    ensures
        r == parse_hex4(s@, i as int),
{
    if s.len() - i < 4 {
        return None;
    }
    let a = hex_val_exec(s[i]);
    let b = hex_val_exec(s[i + 1]);
    let c = hex_val_exec(s[i + 2]);
    let d = hex_val_exec(s[i + 3]);
    match (a, b, c, d) {
        (Some(a), Some(b), Some(c), Some(d)) => Some(
            (a as u32) * 0x1000 + (b as u32) * 0x100 + (c as u32) * 0x10 + (d as u32),
        ),
        _ => None,
    }
}

/// Append the UTF-8 encoding of one Unicode scalar value.
fn push_scalar(out: &mut Vec<u8>, cp: u32)
    requires
        cp < 0xD800 || (0xE000 <= cp && cp <= 0x10FFFF),
    ensures
        final(out)@ == old(out)@ + encode_scalar(cp),
{
    if cp < 0x80 {
        out.push(#[verifier::truncate] ((cp & 0x7F) as u8));
        proof {
            assert(out@ =~= old(out)@ + encode_scalar(cp));
        }
    } else if cp < 0x800 {
        out.push(0xC0 | (#[verifier::truncate] (((cp >> 6) & 0x1F) as u8)));
        out.push(0x80 | (#[verifier::truncate] ((cp & 0x3F) as u8)));
        proof {
            assert(out@ =~= old(out)@ + encode_scalar(cp));
        }
    } else if cp < 0x10000 {
        out.push(0xE0 | (#[verifier::truncate] (((cp >> 12) & 0x0F) as u8)));
        out.push(0x80 | (#[verifier::truncate] (((cp >> 6) & 0x3F) as u8)));
        out.push(0x80 | (#[verifier::truncate] ((cp & 0x3F) as u8)));
        proof {
            assert(out@ =~= old(out)@ + encode_scalar(cp));
        }
    } else {
        out.push(0xF0 | (#[verifier::truncate] (((cp >> 18) & 0x7) as u8)));
        out.push(0x80 | (#[verifier::truncate] (((cp >> 12) & 0x3F) as u8)));
        out.push(0x80 | (#[verifier::truncate] (((cp >> 6) & 0x3F) as u8)));
        out.push(0x80 | (#[verifier::truncate] ((cp & 0x3F) as u8)));
        proof {
            assert(out@ =~= old(out)@ + encode_scalar(cp));
        }
    }
}

fn parse_string_exec(s: &[u8], i: usize) -> (r: Option<(Vec<u8>, usize)>)
    requires
        i <= s@.len(),
    ensures
        match r {
            Some((c, j)) => parse_string_body(s@, i as int) == Some((c@, j as int)) && i < j
                <= s@.len(),
            None => parse_string_body(s@, i as int) is None,
        },
{
    let mut acc: Vec<u8> = Vec::new();
    let mut cur = i;
    loop
        invariant
            i <= cur <= s@.len(),
            match parse_string_body(s@, cur as int) {
                Some((c, j)) => parse_string_body(s@, i as int) == Some((acc@ + c, j)),
                None => parse_string_body(s@, i as int) is None,
            },
        decreases s@.len() - cur,
    {
        if cur >= s.len() {
            return None;
        }
        let b = s[cur];
        if b == 0x22 {
            proof {
                assert(parse_string_body(s@, cur as int) == Some(
                    (Seq::<u8>::empty(), cur as int + 1),
                ));
                assert(acc@ + Seq::<u8>::empty() =~= acc@);
            }
            return Some((acc, cur + 1));
        }
        let ghost cur0 = cur as int;
        let ghost acc0 = acc@;
        if b == 0x5c {
            if s.len() - cur < 2 {
                return None;
            }
            let e = s[cur + 1];
            if e == 0x75 {
                match parse_hex4_exec(s, cur + 2) {
                    None => {
                        return None;
                    },
                    Some(cu) => {
                        if 0xD800 <= cu && cu < 0xDC00 {
                            if s.len() - cur >= 12 && s[cur + 6] == 0x5c && s[cur + 7] == 0x75 {
                                match parse_hex4_exec(s, cur + 8) {
                                    None => {
                                        return None;
                                    },
                                    Some(cu2) => {
                                        if 0xDC00 <= cu2 && cu2 < 0xE000 {
                                            let cp = 0x10000 + (cu - 0xD800) * 0x400 + (cu2
                                                - 0xDC00);
                                            push_scalar(&mut acc, cp);
                                            cur = cur + 12;
                                            proof {
                                                lemma_string_step(
                                                    s@,
                                                    i as int,
                                                    cur0,
                                                    cur as int,
                                                    acc0,
                                                    encode_scalar(cp),
                                                );
                                            }
                                        } else {
                                            return None;
                                        }
                                    },
                                }
                            } else {
                                return None;
                            }
                        } else if 0xDC00 <= cu && cu < 0xE000 {
                            return None;
                        } else {
                            push_scalar(&mut acc, cu);
                            cur = cur + 6;
                            proof {
                                lemma_string_step(
                                    s@,
                                    i as int,
                                    cur0,
                                    cur as int,
                                    acc0,
                                    encode_scalar(cu),
                                );
                            }
                        }
                    },
                }
            } else {
                let u = match simple_unescape_exec(e) {
                    Some(u) => u,
                    None => {
                        return None;
                    },
                };
                acc.push(u);
                cur = cur + 2;
                proof {
                    assert(acc@ =~= acc0 + seq![u]);
                    lemma_string_step(s@, i as int, cur0, cur as int, acc0, seq![u]);
                }
            }
        } else if b < 0x20 {
            return None;
        } else {
            acc.push(b);
            cur = cur + 1;
            proof {
                assert(acc@ =~= acc0 + seq![b]);
                lemma_string_step(s@, i as int, cur0, cur as int, acc0, seq![b]);
            }
        }
    }
}

/// One step of the string parse: when the content at `c0` is one
/// fragment `piece` followed by the content at `c1`, accumulating the
/// fragment keeps the loop's relation to the whole parse.
proof fn lemma_string_step(s: Seq<u8>, i: int, c0: int, c1: int, acc0: Seq<u8>, piece: Seq<u8>)
    requires
        match parse_string_body(s, c0) {
            Some((c, j)) => parse_string_body(s, i) == Some((acc0 + c, j)),
            None => parse_string_body(s, i) is None,
        },
        match parse_string_body(s, c1) {
            Some((c, j)) => parse_string_body(s, c0) == Some((piece + c, j)),
            None => parse_string_body(s, c0) is None,
        },
    ensures
        match parse_string_body(s, c1) {
            Some((c, j)) => parse_string_body(s, i) == Some(((acc0 + piece) + c, j)),
            None => parse_string_body(s, i) is None,
        },
{
    match parse_string_body(s, c1) {
        Some((c, j)) => {
            assert(acc0 + (piece + c) =~= (acc0 + piece) + c);
        },
        None => {},
    }
}

fn simple_unescape_exec(e: u8) -> (r: Option<u8>)
    ensures
        r == simple_unescape(e),
{
    if e == 0x22 {
        Some(0x22)
    } else if e == 0x5c {
        Some(0x5c)
    } else if e == 0x2f {
        Some(0x2f)
    } else if e == 0x62 {
        Some(0x08)
    } else if e == 0x66 {
        Some(0x0c)
    } else if e == 0x6e {
        Some(0x0a)
    } else if e == 0x72 {
        Some(0x0d)
    } else if e == 0x74 {
        Some(0x09)
    } else {
        None
    }
}

/// A parsed value of the subset, as held at run time.
pub enum Val {
    Str(Vec<u8>),
    Null,
}

impl View for Val {
    type V = JsonVal;

    open spec fn view(&self) -> JsonVal {
        match self {
            Val::Str(v) => JsonVal::Str(v@),
            Val::Null => JsonVal::Null,
        }
    }
}

/// The value under an optional, at the spec level.
pub open spec fn opt_view(v: Option<Val>) -> Option<JsonVal> {
    match v {
        Some(x) => Some(x@),
        None => None,
    }
}

fn parse_value_exec(s: &[u8], i: usize) -> (r: Option<(Val, usize)>)
    requires
        i <= s@.len(),
    ensures
        match r {
            Some((v, j)) => parse_value(s@, i as int) == Some((v@, j as int)) && i < j <= s@.len(),
            None => parse_value(s@, i as int) is None,
        },
{
    if i < s.len() && s[i] == 0x22 {
        match parse_string_exec(s, i + 1) {
            Some((c, j)) => Some((Val::Str(c), j)),
            None => None,
        }
    } else if s.len() - i >= 4 && s[i] == 0x6e && s[i + 1] == 0x75 && s[i + 2] == 0x6c && s[i + 3]
        == 0x6c {
        Some((Val::Null, i + 4))
    } else {
        None
    }
}

fn is_error_key(key: &Vec<u8>) -> (r: bool)
    ensures
        r == (key@ == error_key()),
{
    if key.len() != 5 {
        return false;
    }
    let r = key[0] == 0x65 && key[1] == 0x72 && key[2] == 0x72 && key[3] == 0x6f && key[4] == 0x72;
    proof {
        if r {
            assert(key@ =~= error_key());
        }
    }
    r
}

fn is_success_key(key: &Vec<u8>) -> (r: bool)
    ensures
        r == (key@ == success_key()),
{
    if key.len() != 7 {
        return false;
    }
    let r = key[0] == 0x73 && key[1] == 0x75 && key[2] == 0x63 && key[3] == 0x63 && key[4] == 0x65
        && key[5] == 0x73 && key[6] == 0x73;
    proof {
        if r {
            assert(key@ =~= success_key());
        }
    }
    r
}

fn parse_members_exec(s: &[u8], i: usize) -> (r: Option<(Option<Val>, Option<Val>, usize)>)
    requires
        i <= s@.len(),
    ensures
        match r {
            Some((e, sc, j)) => parse_members(s@, i as int, None, None) == Some(
                ((opt_view(e), opt_view(sc)), j as int),
            ) && j <= s@.len(),
            None => parse_members(s@, i as int, None, None) is None,
        },
{
    let mut err: Option<Val> = None;
    let mut succ: Option<Val> = None;
    let mut cur = i;
    loop
        invariant
            i <= cur <= s@.len(),
            parse_members(s@, i as int, None, None) == parse_members(
                s@,
                cur as int,
                opt_view(err),
                opt_view(succ),
            ),
        decreases s@.len() - cur,
    {
        if cur >= s.len() || s[cur] != 0x22 {
            return None;
        }
        let ghost cur0 = cur as int;
        let ghost err0 = opt_view(err);
        let ghost succ0 = opt_view(succ);
        let (key, j) = match parse_string_exec(s, cur + 1) {
            Some(kj) => kj,
            None => {
                return None;
            },
        };
        let j2 = skip_ws_exec(s, j);
        if !(j2 < s.len() && s[j2] == 0x3a) {
            return None;
        }
        let j3 = skip_ws_exec(s, j2 + 1);
        let (v, j4) = match parse_value_exec(s, j3) {
            Some(vj) => vj,
            None => {
                return None;
            },
        };
        let ghost vv = v@;
        if is_error_key(&key) {
            err = Some(v);
        } else if is_success_key(&key) {
            succ = Some(v);
        }
        proof {
            assert(error_key().len() != success_key().len());
            assert(opt_view(err) == if key@ == error_key() {
                Some(vv)
            } else {
                err0
            });
            assert(opt_view(succ) == if key@ == success_key() {
                Some(vv)
            } else {
                succ0
            });
        }
        let j5 = skip_ws_exec(s, j4);
        if j5 < s.len() && s[j5] == 0x2c {
            let j6 = skip_ws_exec(s, j5 + 1);
            proof {
                assert(parse_members(s@, cur0, err0, succ0) == parse_members(
                    s@,
                    j6 as int,
                    opt_view(err),
                    opt_view(succ),
                ));
            }
            cur = j6;
        } else if j5 < s.len() && s[j5] == 0x7d {
            proof {
                assert(parse_members(s@, cur0, err0, succ0) == Some(
                    ((opt_view(err), opt_view(succ)), j5 as int + 1),
                ));
            }
            return Some((err, succ, j5 + 1));
        } else {
            return None;
        }
    }
}

/// A decoded response, as handed to callers: the payload strings are
/// the UTF-8 reading of the content bytes.
pub enum Decoded {
    Success(String),
    Failure(String),
    Unexpected,
    Invalid,
}

/// What `decode` returns for a frame: the frame's meaning, with
/// string payloads read as UTF-8; content that is not valid UTF-8 is
/// as fatal as broken JSON.
pub open spec fn decode_post(s: Seq<u8>, r: Decoded) -> bool {
    match response_outcome(s) {
        Outcome::Success(b) => if valid_utf8(b) {
            match r {
                Decoded::Success(p) => p@ == decode_utf8(b),
                _ => false,
            }
        } else {
            r is Invalid
        },
        Outcome::Failure(b) => if valid_utf8(b) {
            match r {
                Decoded::Failure(p) => p@ == decode_utf8(b),
                _ => false,
            }
        } else {
            r is Invalid
        },
        Outcome::Unexpected => r is Unexpected,
        Outcome::Invalid => r is Invalid,
    }
}

proof fn lemma_hex_digit_val(n: u8)
    requires
        n < 16,
    ensures
        hex_val(hex_digit(n)) == Some(n),
{
}

/// The string parser undoes the encoder's escaping: wherever a buffer
/// holds the escaped form of `s` followed by a closing quote, parsing
/// string content there yields exactly `s` and stops just past the
/// quote.
pub proof fn lemma_escape_unescape(buf: Seq<u8>, i: int, s: Seq<u8>)
    requires
        0 <= i,
        i + escape_bytes(s).len() + 1 <= buf.len(),
        buf.subrange(i, i + escape_bytes(s).len() as int) == escape_bytes(s),
        buf[i + escape_bytes(s).len()] == 0x22,
    ensures
        parse_string_body(buf, i) == Some((s, i + escape_bytes(s).len() + 1)),
    decreases s.len(),
{
    let esc = escape_bytes(s);
    if s.len() == 0 {
        assert(buf[i] == 0x22);
    } else {
        let b = s[0];
        let rest = s.drop_first();
        let eb = escape_byte(b);
        let k = eb.len() as int;
        let esc_rest = escape_bytes(rest);
        assert(esc == eb + esc_rest);
        assert forall|j: int| 0 <= j < k implies buf[i + j] == eb[j] by {
            assert(buf.subrange(i, i + esc.len() as int)[j] == buf[i + j]);
            assert((eb + esc_rest)[j] == eb[j]);
        }
        assert(buf.subrange(i + k, i + k + esc_rest.len() as int) =~= esc_rest) by {
            assert forall|j: int| 0 <= j < esc_rest.len() implies buf.subrange(
                i + k,
                i + k + esc_rest.len() as int,
            )[j] == esc_rest[j] by {
                assert(buf.subrange(i + k, i + k + esc_rest.len() as int)[j] == buf[i + k + j]);
                assert(buf.subrange(i, i + esc.len() as int)[k + j] == buf[i + k + j]);
                assert((eb + esc_rest)[k + j] == esc_rest[j]);
            }
        }
        lemma_escape_unescape(buf, i + k, rest);
        assert(seq![b] + rest =~= s);
        if b == 0x22 || b == 0x5c {
            assert(buf[i] == 0x5c && buf[i + 1] == b);
        } else if b == 0x08 || b == 0x0c || b == 0x0a || b == 0x0d || b == 0x09 {
            assert(buf[i] == 0x5c);
            assert(simple_unescape(buf[i + 1]) == Some(b));
        } else if b < 0x20 {
            assert(buf[i] == 0x5c && buf[i + 1] == 0x75);
            assert(buf[i + 2] == 0x30 && buf[i + 3] == 0x30);
            assert(buf[i + 4] == hex_digit(b / 16) && buf[i + 5] == hex_digit(b % 16));
            lemma_hex_digit_val(b / 16);
            lemma_hex_digit_val(b % 16);
            assert(hex_val(0x30u8) == Some(0u8));
            let cu = parse_hex4(buf, i + 2).unwrap();
            assert(cu == ((b / 16) as int * 0x10 + (b % 16) as int) as u32);
            assert((b / 16) as int * 0x10 + (b % 16) as int == b as int) by (nonlinear_arith);
            assert(cu == b as u32);
            assert(cu & 0x7F == cu) by (bit_vector)
                requires
                    cu < 0x20,
            ;
            assert(encode_scalar(cu) =~= seq![b]);
        } else {
            assert(buf[i] == b);
        }
    }
}

/// Law: decoding inverts encoding for any string value.  Wherever a
/// buffer holds the quoted, escaped form of the content bytes `s`,
/// the value parser reads back exactly `s`, whatever escapes the
/// encoder had to use.
pub proof fn lemma_quoted_round_trip(buf: Seq<u8>, i: int, s: Seq<u8>)
    requires
        0 <= i,
        i + quoted(s).len() <= buf.len(),
        buf.subrange(i, i + quoted(s).len() as int) == quoted(s),
    ensures
        parse_value(buf, i) == Some((JsonVal::Str(s), i + quoted(s).len())),
{
    let esc = escape_bytes(s);
    let q = quoted(s);
    assert(q.len() == esc.len() + 2);
    assert(buf[i] == 0x22) by {
        assert(buf.subrange(i, i + q.len() as int)[0] == buf[i]);
        assert(q[0] == 0x22);
    }
    assert(buf.subrange(i + 1, i + 1 + esc.len() as int) =~= esc) by {
        assert forall|j: int| 0 <= j < esc.len() implies buf.subrange(
            i + 1,
            i + 1 + esc.len() as int,
        )[j] == esc[j] by {
            assert(buf.subrange(i + 1, i + 1 + esc.len() as int)[j] == buf[i + 1 + j]);
            assert(buf.subrange(i, i + q.len() as int)[1 + j] == buf[i + 1 + j]);
            assert(q[1 + j] == esc[j]);
        }
    }
    assert(buf[i + 1 + esc.len()] == 0x22) by {
        assert(buf.subrange(i, i + q.len() as int)[q.len() - 1] == buf[i + q.len() - 1]);
        assert(q[q.len() - 1] == 0x22);
    }
    lemma_escape_unescape(buf, i + 1, s);
}

/// The byte layout of an encoded request frame: where the fixed
/// punctuation, the two keys, the quoted values and the terminator
/// sit.
#[verifier::rlimit(100)]
#[verifier::spinoff_prover]
proof fn lemma_request_frame_shape(name: Seq<u8>, param: Option<Seq<u8>>)
    ensures
        ({
            let f = encoded_request(name, param);
            let qn = quoted(name);
            let a = 7 + qn.len() as int;
            let b = a + 9;
            let v: Seq<u8> = match param {
                Some(pp) => quoted(pp),
                None => null_lit(),
            };
            let c0 = b + v.len() as int;
            &&& f.len() == c0 + 3
            &&& f[0] == 0x7b
            &&& f[1] == 0x22
            &&& f.subrange(2, 5) == seq![0x63u8, 0x6du8, 0x64u8]
            &&& f[5] == 0x22
            &&& f[6] == 0x3a
            &&& f[7] == 0x22
            &&& f.subrange(7, 7 + qn.len() as int) == qn
            &&& f[a] == 0x2c
            &&& f[a + 1] == 0x22
            &&& f.subrange(a + 2, a + 7) == seq![0x70u8, 0x61u8, 0x72u8, 0x61u8, 0x6du8]
            &&& f[a + 7] == 0x22
            &&& f[a + 8] == 0x3a
            &&& f.subrange(b, c0) == v
            &&& f[c0] == 0x7d
            &&& f[c0 + 1] == 13
            &&& f[c0 + 2] == 10
        }),
{
    let p = obj_prefix();
    let qn = quoted(name);
    let m = obj_mid();
    let v: Seq<u8> = match param {
        Some(pp) => quoted(pp),
        None => null_lit(),
    };
    let f = encoded_request(name, param);
    let a = 7 + qn.len() as int;
    let b = a + 9;
    let c0 = b + v.len() as int;
    assert(f.len() == c0 + 3);
    assert forall|j: int| 0 <= j < 7 implies f[j] == p[j] by {}
    assert forall|j: int| 0 <= j < qn.len() implies f[7 + j] == qn[j] by {}
    assert forall|j: int| 0 <= j < 9 implies f[a + j] == m[j] by {}
    assert forall|j: int| 0 <= j < v.len() implies f[b + j] == v[j] by {}
    assert(f.subrange(2, 5) =~= seq![0x63u8, 0x6du8, 0x64u8]);
    assert(f.subrange(7, 7 + qn.len() as int) =~= qn);
    assert(f.subrange(a + 2, a + 7) =~= seq![0x70u8, 0x61u8, 0x72u8, 0x61u8, 0x6du8]);
    assert(f.subrange(b, c0) =~= v);
    assert(qn[0] == 0x22);
}

/// Parsing the final member of a request object: the key `param`,
/// one value, then the closing brace.
#[verifier::rlimit(100)]
#[verifier::spinoff_prover]
proof fn lemma_last_member(s: Seq<u8>, i: int, val: JsonVal, vend: int)
    requires
        0 <= i,
        i + 8 <= s.len(),
        s[i] == 0x22,
        parse_string_body(s, i + 1) == Some((seq![0x70u8, 0x61u8, 0x72u8, 0x61u8, 0x6du8], i + 7)),
        s[i + 7] == 0x3a,
        !is_ws(s[i + 8]),
        parse_value(s, i + 8) == Some((val, vend)),
        i + 8 <= vend < s.len(),
        s[vend] == 0x7d,
    ensures
        parse_members(s, i, Option::<JsonVal>::None, Option::<JsonVal>::None) == Some(
            ((Option::<JsonVal>::None, Option::<JsonVal>::None), vend + 1),
        ),
{
    let param_key = seq![0x70u8, 0x61u8, 0x72u8, 0x61u8, 0x6du8];
    assert(param_key != error_key()) by {
        assert(param_key[0] != error_key()[0]);
    }
    assert(param_key != success_key());
    assert(skip_ws(s, i + 7) == i + 7);
    assert(skip_ws(s, i + 8) == i + 8);
    assert(skip_ws(s, vend) == vend);
}

/// Parsing the first member of a request object: the key `cmd`, the
/// command name as its value, a comma, then the rest of the members.
#[verifier::rlimit(100)]
#[verifier::spinoff_prover]
proof fn lemma_first_member(s: Seq<u8>, name: Seq<u8>, a: int, rest: int)
    requires
        9 <= a,
        a + 2 <= s.len(),
        s[1] == 0x22,
        parse_string_body(s, 2) == Some((seq![0x63u8, 0x6du8, 0x64u8], 6int)),
        s[6] == 0x3a,
        s[7] == 0x22,
        parse_value(s, 7) == Some((JsonVal::Str(name), a)),
        s[a] == 0x2c,
        s[a + 1] == 0x22,
        parse_members(s, a + 1, Option::<JsonVal>::None, Option::<JsonVal>::None) == Some(
            ((Option::<JsonVal>::None, Option::<JsonVal>::None), rest),
        ),
    ensures
        parse_members(s, 1, Option::<JsonVal>::None, Option::<JsonVal>::None) == Some(
            ((Option::<JsonVal>::None, Option::<JsonVal>::None), rest),
        ),
{
    let cmd_key = seq![0x63u8, 0x6du8, 0x64u8];
    assert(cmd_key != error_key() && cmd_key != success_key());
    assert(skip_ws(s, 6) == 6);
    assert(skip_ws(s, 7) == 7);
    assert(skip_ws(s, a) == a);
    assert(skip_ws(s, a + 1) == a + 1);
}

/// Law: decoding an encoded request works: every request frame the
/// encoder can emit parses cleanly under the wire grammar — one
/// object, then the terminator as trailing whitespace, nothing else —
/// and carries neither an `error` nor a `success` member, whatever
/// the command name and parameter hold.
#[verifier::rlimit(100)]
#[verifier::spinoff_prover]
pub proof fn lemma_request_parses_clean(name: Seq<u8>, param: Option<Seq<u8>>)
    ensures
        parse_response(encoded_request(name, param)) == Some(
            (Option::<JsonVal>::None, Option::<JsonVal>::None),
        ),
        response_outcome(encoded_request(name, param)) == Outcome::Unexpected,
{
    lemma_request_frame_shape(name, param);
    let qn = quoted(name);
    let v: Seq<u8> = match param {
        Some(pp) => quoted(pp),
        None => null_lit(),
    };
    let f = encoded_request(name, param);
    let a = 7 + qn.len() as int;
    let b = a + 9;
    let c0 = b + v.len() as int;

    let cmd_key = seq![0x63u8, 0x6du8, 0x64u8];
    lemma_escape_plain(cmd_key);
    lemma_escape_unescape(f, 2, cmd_key);
    assert(parse_string_body(f, 2) == Some((cmd_key, 6int)));
    lemma_quoted_round_trip(f, 7, name);
    assert(parse_value(f, 7) == Some((JsonVal::Str(name), a)));

    let param_key = seq![0x70u8, 0x61u8, 0x72u8, 0x61u8, 0x6du8];
    lemma_escape_plain(param_key);
    lemma_escape_unescape(f, a + 2, param_key);
    assert(parse_string_body(f, a + 2) == Some((param_key, a + 8)));
    let val: JsonVal = match param {
        Some(pp) => JsonVal::Str(pp),
        None => JsonVal::Null,
    };
    match param {
        Some(pp) => {
            assert(f[b] == 0x22);
            lemma_quoted_round_trip(f, b, pp);
            assert(parse_value(f, b) == Some((val, c0)));
        },
        None => {
            assert(f[b] == 0x6e && f[b + 1] == 0x75 && f[b + 2] == 0x6c && f[b + 3] == 0x6c) by {
                assert(f.subrange(b, c0)[0] == f[b]);
                assert(f.subrange(b, c0)[1] == f[b + 1]);
                assert(f.subrange(b, c0)[2] == f[b + 2]);
                assert(f.subrange(b, c0)[3] == f[b + 3]);
            }
            assert(parse_value(f, b) == Some((val, c0)));
        },
    }
    lemma_last_member(f, a + 1, val, c0);
    lemma_first_member(f, name, a, c0 + 1);
    lemma_whole_frame(f, c0 + 1);
}

/// A frame whose bytes open an object at once, whose members parse to
/// an empty pair, and whose tail is exactly the terminator, parses as
/// a whole into that pair.
#[verifier::rlimit(100)]
#[verifier::spinoff_prover]
proof fn lemma_whole_frame(s: Seq<u8>, end: int)
    requires
        2 <= end,
        s.len() == end + 2,
        s[0] == 0x7b,
        s[1] == 0x22,
        parse_members(s, 1, Option::<JsonVal>::None, Option::<JsonVal>::None) == Some(
            ((Option::<JsonVal>::None, Option::<JsonVal>::None), end),
        ),
        s[end] == 13,
        s[end + 1] == 10,
    ensures
        parse_response(s) == Some((Option::<JsonVal>::None, Option::<JsonVal>::None)),
        response_outcome(s) == Outcome::Unexpected,
{
    assert(skip_ws(s, 0) == 0);
    assert(skip_ws(s, 1) == 1);
    assert(skip_ws(s, end + 2) == end + 2);
    assert(skip_ws(s, end + 1) == end + 2);
    assert(skip_ws(s, end) == end + 2);
}

/// Relies on String::from_utf8: it succeeds exactly on valid UTF-8
/// and returns the string those bytes encode.
#[verifier::external_body]
fn string_from_utf8(b: Vec<u8>) -> (r: Option<String>)
    ensures
        match r {
            Some(s) => valid_utf8(b@) && s@ == decode_utf8(b@),
            None => !valid_utf8(b@),
        },
{
    String::from_utf8(b).ok()
}

/// Decode one response frame.  The terminator may stay on the end of
/// `frame`: it reads as trailing whitespace.
pub fn decode(frame: &[u8]) -> (r: Decoded)
    ensures
        decode_post(frame@, r),
{
    let i = skip_ws_exec(frame, 0);
    if !(i < frame.len() && frame[i] == 0x7b) {
        return Decoded::Invalid;
    }
    let j = skip_ws_exec(frame, i + 1);
    if j < frame.len() && frame[j] == 0x7d {
        let k = skip_ws_exec(frame, j + 1);
        if k == frame.len() {
            return Decoded::Unexpected;
        } else {
            return Decoded::Invalid;
        }
    }
    let (e, sc, k) = match parse_members_exec(frame, j) {
        Some(r) => r,
        None => {
            return Decoded::Invalid;
        },
    };
    let k2 = skip_ws_exec(frame, k);
    if k2 != frame.len() {
        return Decoded::Invalid;
    }
    match e {
        Some(Val::Str(b)) => match string_from_utf8(b) {
            Some(s) => Decoded::Failure(s),
            None => Decoded::Invalid,
        },
        Some(Val::Null) => Decoded::Invalid,
        None => match sc {
            Some(Val::Str(b)) => match string_from_utf8(b) {
                Some(s) => Decoded::Success(s),
                None => Decoded::Invalid,
            },
            Some(Val::Null) => Decoded::Invalid,
            None => Decoded::Unexpected,
        },
    }
}

impl Decoded {
    /// The decoded response as the backend's callers see it: the
    /// success payload, the backend's own error string, or the
    /// protocol error `unexpected result`.  A fatal frame has no such
    /// reading; the caller must rule it out first.
    pub fn into_result(self) -> (r: Result<String, String>)
        requires
            !(self is Invalid),
        ensures
            match self {
                Decoded::Success(s) => r == Ok::<String, String>(s),
                Decoded::Failure(e) => r == Err::<String, String>(e),
                Decoded::Unexpected => match r {
                    Err(m) => m@ == "unexpected result"@,
                    Ok(_) => false,
                },
                Decoded::Invalid => false,
            },
    {
        match self {
            Decoded::Success(s) => Ok(s),
            Decoded::Failure(e) => Err(e),
            Decoded::Unexpected => Err("unexpected result".to_owned()),
            Decoded::Invalid => {
                proof {
                    assert(false);
                }
                Err(String::new())
            },
        }
    }

    /// The HTTP envelope code of a decoded response: 0 for success,
    /// 10 for an error the backend reported or for the protocol-level
    /// `unexpected result`.  A fatal frame has no code.
    pub fn code(&self) -> (r: u8)
        requires
            !(self is Invalid),
        ensures
            match self {
                Decoded::Success(_) => r == 0,
                Decoded::Failure(_) => r == 10,
                Decoded::Unexpected => r == 10,
                Decoded::Invalid => false,
            },
    {
        match self {
            Decoded::Success(_) => 0,
            Decoded::Failure(_) => 10,
            Decoded::Unexpected => 10,
            Decoded::Invalid => {
                proof {
                    assert(false);
                }
                0
            },
        }
    }
}

} // verus!
