//! Request encoding for the wire protocol.
//!
//! A request is the JSON object `{"cmd":<name>,"param":<string-or-null>}`
//! followed by the CR LF terminator.  JSON string escaping keeps every
//! control byte out of the object, so the terminator appended at the
//! end is the first CR LF pair of the whole frame.

use vstd::prelude::*;

use crate::frame::crlf_at;
use crate::frame::is_first_terminator;
use crate::frame::no_crlf_before;
use crate::frame::CR;
use crate::frame::LF;

verus! {

/// The ASCII digit (lower case) for a value below sixteen.
pub open spec fn hex_digit(n: u8) -> u8 {
    if n < 10 {
        (0x30 + n) as u8
    } else {
        (0x57 + n) as u8
    }
}

/// The JSON escape of one byte of string content: the two-character
/// escapes of RFC 8259 where they exist, `\u00XX` for the remaining
/// control bytes, and the byte itself otherwise.
pub open spec fn escape_byte(b: u8) -> Seq<u8> {
    if b == 0x22 {
        seq![0x5cu8, 0x22u8]
    } else if b == 0x5c {
        seq![0x5cu8, 0x5cu8]
    } else if b == 0x08 {
        seq![0x5cu8, 0x62u8]
    } else if b == 0x0c {
        seq![0x5cu8, 0x66u8]
    } else if b == 0x0a {
        seq![0x5cu8, 0x6eu8]
    } else if b == 0x0d {
        seq![0x5cu8, 0x72u8]
    } else if b == 0x09 {
        seq![0x5cu8, 0x74u8]
    } else if b < 0x20 {
        seq![0x5cu8, 0x75u8, 0x30u8, 0x30u8, hex_digit(b / 16), hex_digit(b % 16)]
    } else {
        seq![b]
    }
}

/// The JSON escape of a whole byte string.
pub open spec fn escape_bytes(s: Seq<u8>) -> Seq<u8>
    decreases s.len(),
{
    if s.len() == 0 {
        Seq::empty()
    } else {
        escape_byte(s[0]) + escape_bytes(s.drop_first())
    }
}

/// A byte string whose bytes are all outside the control range, so it
/// holds neither CR nor LF.
pub open spec fn no_ctl(s: Seq<u8>) -> bool {
    forall|k: int| 0 <= k < s.len() ==> s[k] >= 0x20
}

/// A byte the escaper passes through unchanged.
pub open spec fn plain_byte(b: u8) -> bool {
    b >= 0x20 && b != 0x22 && b != 0x5c
}

/// Escaping leaves a string of plain bytes as it is.
pub proof fn lemma_escape_plain(s: Seq<u8>)
    requires
        forall|j: int| 0 <= j < s.len() ==> plain_byte(s[j]),
    ensures
        escape_bytes(s) == s,
    decreases s.len(),
{
    if s.len() > 0 {
        assert forall|j: int| 0 <= j < s.drop_first().len() implies plain_byte(
            s.drop_first()[j],
        ) by {
            assert(s.drop_first()[j] == s[j + 1]);
        }
        lemma_escape_plain(s.drop_first());
        assert(escape_byte(s[0]) == seq![s[0]]);
        assert(escape_bytes(s) =~= s);
    }
}

/// `s` as a JSON string literal: quoted and escaped.
pub open spec fn quoted(s: Seq<u8>) -> Seq<u8> {
    seq![0x22u8] + escape_bytes(s) + seq![0x22u8]
}

/// The bytes `{"cmd":` that open every request object.
pub open spec fn obj_prefix() -> Seq<u8> {
    seq![0x7bu8, 0x22u8, 0x63u8, 0x6du8, 0x64u8, 0x22u8, 0x3au8]
}

/// The bytes `,"param":` between the two members.
pub open spec fn obj_mid() -> Seq<u8> {
    seq![0x2cu8, 0x22u8, 0x70u8, 0x61u8, 0x72u8, 0x61u8, 0x6du8, 0x22u8, 0x3au8]
}

/// The JSON literal `null`.
pub open spec fn null_lit() -> Seq<u8> {
    seq![0x6eu8, 0x75u8, 0x6cu8, 0x6cu8]
}

/// The serialized request object, without its terminator.
pub open spec fn encoded_obj(name: Seq<u8>, param: Option<Seq<u8>>) -> Seq<u8> {
    obj_prefix() + quoted(name) + obj_mid() + (match param {
        Some(p) => quoted(p),
        None => null_lit(),
    }) + seq![0x7du8]
}

/// One complete request frame: the object followed by CR LF.
pub open spec fn encoded_request(name: Seq<u8>, param: Option<Seq<u8>>) -> Seq<u8> {
    encoded_obj(name, param) + seq![CR, LF]
}

proof fn lemma_escape_snoc(s: Seq<u8>, b: u8)
    ensures
        escape_bytes(s.push(b)) == escape_bytes(s) + escape_byte(b),
    decreases s.len(),
{
    if s.len() == 0 {
        assert(s.push(b)[0] == b);
        assert(s.push(b).drop_first() =~= Seq::<u8>::empty());
        assert(escape_bytes(s.push(b)) == escape_byte(b) + escape_bytes(Seq::<u8>::empty()));
        assert(escape_bytes(Seq::<u8>::empty()) == Seq::<u8>::empty());
        assert(escape_byte(b) + Seq::<u8>::empty() =~= escape_byte(b));
        assert(escape_bytes(s) + escape_byte(b) =~= escape_byte(b));
    } else {
        lemma_escape_snoc(s.drop_first(), b);
        assert(s.push(b).drop_first() =~= s.drop_first().push(b));
        assert(s.push(b)[0] == s[0]);
        assert(escape_bytes(s.push(b)) == escape_byte(s[0]) + escape_bytes(s.drop_first().push(b)));
        assert(escape_bytes(s) == escape_byte(s[0]) + escape_bytes(s.drop_first()));
        assert(escape_byte(s[0]) + (escape_bytes(s.drop_first()) + escape_byte(b)) =~= (
        escape_byte(s[0]) + escape_bytes(s.drop_first())) + escape_byte(b));
    }
}

proof fn lemma_escape_byte_no_ctl(b: u8)
    ensures
        no_ctl(escape_byte(b)),
{
}

/// Escaping removes every control byte: the escaped form of any byte
/// string holds neither CR nor LF anywhere.
pub proof fn lemma_escape_bytes_no_ctl(s: Seq<u8>)
    ensures
        no_ctl(escape_bytes(s)),
    decreases s.len(),
{
    if s.len() > 0 {
        lemma_escape_byte_no_ctl(s[0]);
        lemma_escape_bytes_no_ctl(s.drop_first());
        lemma_no_ctl_concat(escape_byte(s[0]), escape_bytes(s.drop_first()));
    }
}

proof fn lemma_no_ctl_concat(a: Seq<u8>, b: Seq<u8>)
    requires
        no_ctl(a),
        no_ctl(b),
    ensures
        no_ctl(a + b),
{
    assert forall|k: int| 0 <= k < (a + b).len() implies (a + b)[k] >= 0x20 by {
        if k < a.len() {
            assert((a + b)[k] == a[k]);
        } else {
            assert((a + b)[k] == b[k - a.len()]);
        }
    }
}

proof fn lemma_quoted_no_ctl(s: Seq<u8>)
    ensures
        no_ctl(quoted(s)),
{
    lemma_escape_bytes_no_ctl(s);
    lemma_no_ctl_concat(seq![0x22u8], escape_bytes(s));
    lemma_no_ctl_concat(seq![0x22u8] + escape_bytes(s), seq![0x22u8]);
}

proof fn lemma_encoded_obj_no_ctl(name: Seq<u8>, param: Option<Seq<u8>>)
    ensures
        no_ctl(encoded_obj(name, param)),
{
    lemma_quoted_no_ctl(name);
    lemma_no_ctl_concat(obj_prefix(), quoted(name));
    lemma_no_ctl_concat(obj_prefix() + quoted(name), obj_mid());
    let head = obj_prefix() + quoted(name) + obj_mid();
    match param {
        Some(p) => {
            lemma_quoted_no_ctl(p);
            lemma_no_ctl_concat(head, quoted(p));
            lemma_no_ctl_concat(head + quoted(p), seq![0x7du8]);
        },
        None => {
            lemma_no_ctl_concat(head, null_lit());
            lemma_no_ctl_concat(head + null_lit(), seq![0x7du8]);
        },
    }
}

/// Law: an encoded request is exactly one frame.  Its terminator is
/// the CR LF appended at the end, and no earlier CR LF pair exists, so
/// a reader that accumulates the frame in chunks of any size finds the
/// frame boundary exactly at the end of the request, never inside it.
pub proof fn lemma_encoded_request_single_frame(name: Seq<u8>, param: Option<Seq<u8>>)
    ensures
        encoded_request(name, param).len() >= 2,
        is_first_terminator(
            encoded_request(name, param),
            encoded_request(name, param).len() - 2,
        ),
{
    let obj = encoded_obj(name, param);
    let f = encoded_request(name, param);
    lemma_encoded_obj_no_ctl(name, param);
    assert(f[obj.len() as int] == CR);
    assert(f[obj.len() as int + 1] == LF);
    assert(crlf_at(f, obj.len() as int));
    assert forall|j: int| 0 <= j < obj.len() implies !crlf_at(f, j) by {
        assert(f[j] == obj[j]);
        assert(obj[j] >= 0x20);
    }
    assert(no_crlf_before(f, f.len() - 2));
}

fn hex_digit_exec(n: u8) -> (r: u8)
    requires
        n < 16,
    ensures
        r == hex_digit(n),
{
    if n < 10 {
        0x30 + n
    } else {
        0x57 + n
    }
}

/// Append `s` to `out` as a quoted, escaped JSON string literal.
fn push_quoted(out: &mut Vec<u8>, s: &[u8])
    ensures
        final(out)@ == old(out)@ + quoted(s@),
{
    out.push(0x22);
    let ghost base = out@;
    let mut i: usize = 0;
    while i < s.len()
        invariant
            i <= s@.len(),
            base == old(out)@ + seq![0x22u8],
            out@ == base + escape_bytes(s@.take(i as int)),
        decreases s@.len() - i,
    {
        let b = s[i];
        proof {
            assert(s@.take(i + 1 as int) =~= s@.take(i as int).push(s@[i as int]));
            lemma_escape_snoc(s@.take(i as int), s@[i as int]);
        }
        if b == 0x22 {
            out.push(0x5c);
            out.push(0x22);
        } else if b == 0x5c {
            out.push(0x5c);
            out.push(0x5c);
        } else if b == 0x08 {
            out.push(0x5c);
            out.push(0x62);
        } else if b == 0x0c {
            out.push(0x5c);
            out.push(0x66);
        } else if b == 0x0a {
            out.push(0x5c);
            out.push(0x6e);
        } else if b == 0x0d {
            out.push(0x5c);
            out.push(0x72);
        } else if b == 0x09 {
            out.push(0x5c);
            out.push(0x74);
        } else if b < 0x20 {
            out.push(0x5c);
            out.push(0x75);
            out.push(0x30);
            out.push(0x30);
            out.push(hex_digit_exec(b / 16));
            out.push(hex_digit_exec(b % 16));
        } else {
            out.push(b);
        }
        i = i + 1;
        proof {
            assert(out@ =~= base + escape_bytes(s@.take(i as int)));
        }
    }
    out.push(0x22);
    proof {
        assert(s@.take(s@.len() as int) =~= s@);
        assert(out@ =~= old(out)@ + quoted(s@));
    }
}

/// Serialize one request frame from a command name and its optional
/// parameter, both given as raw bytes.
pub fn encode_frame(name: &[u8], param: Option<&[u8]>) -> (r: Vec<u8>)
    ensures
        r@ == encoded_request(
            name@,
            match param {
                Some(p) => Some(p@),
                None => None,
            },
        ),
{
    let mut out: Vec<u8> = Vec::new();
    out.push(0x7b);
    out.push(0x22);
    out.push(0x63);
    out.push(0x6d);
    out.push(0x64);
    out.push(0x22);
    out.push(0x3a);
    proof {
        assert(out@ =~= obj_prefix());
    }
    push_quoted(&mut out, name);
    let ghost with_name = out@;
    out.push(0x2c);
    out.push(0x22);
    out.push(0x70);
    out.push(0x61);
    out.push(0x72);
    out.push(0x61);
    out.push(0x6d);
    out.push(0x22);
    out.push(0x3a);
    proof {
        assert(out@ =~= with_name + obj_mid());
    }
    match param {
        Some(p) => {
            push_quoted(&mut out, p);
        },
        None => {
            let ghost before_null = out@;
            out.push(0x6e);
            out.push(0x75);
            out.push(0x6c);
            out.push(0x6c);
            proof {
                assert(out@ =~= before_null + null_lit());
            }
        },
    }
    out.push(0x7d);
    out.push(CR);
    out.push(LF);
    proof {
        assert(out@ =~= encoded_request(
            name@,
            match param {
                Some(p) => Some(p@),
                None => None,
            },
        ));
    }
    out
}

} // verus!
