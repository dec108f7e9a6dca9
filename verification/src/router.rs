//! The named operations of the bridge.
//!
//! Each operation maps to one request frame: the operation's wire
//! name and its single optional parameter, threaded through
//! unchanged.  The router holds no state; every call builds a fresh
//! frame for its own connection.

use vstd::prelude::*;
use vstd::utf8::encode_utf8;

use crate::codec::encode_frame;
use crate::codec::encoded_request;
use crate::codec::lemma_encoded_request_single_frame;
use crate::decode::lemma_request_parses_clean;
use crate::decode::response_outcome;
use crate::decode::Outcome;
use crate::frame::is_first_terminator;

verus! {

/// One operation of the bridge, paired with its parameter.
pub enum Command {
    List,
    Install { path: String },
    InstallPwa { url: String },
    Uninstall { manifest_url: String },
}

/// The wire name `list`.
pub open spec fn list_name() -> Seq<u8> {
    seq![0x6cu8, 0x69u8, 0x73u8, 0x74u8]
}

/// The wire name `install`.
pub open spec fn install_name() -> Seq<u8> {
    seq![0x69u8, 0x6eu8, 0x73u8, 0x74u8, 0x61u8, 0x6cu8, 0x6cu8]
}

/// The wire name `install-pwa`.
pub open spec fn install_pwa_name() -> Seq<u8> {
    install_name() + seq![0x2du8, 0x70u8, 0x77u8, 0x61u8]
}

/// The wire name `uninstall`.
pub open spec fn uninstall_name() -> Seq<u8> {
    seq![0x75u8, 0x6eu8] + install_name()
}

/// The wire name of a command.
pub open spec fn cmd_name(c: Command) -> Seq<u8> {
    match c {
        Command::List => list_name(),
        Command::Install { .. } => install_name(),
        Command::InstallPwa { .. } => install_pwa_name(),
        Command::Uninstall { .. } => uninstall_name(),
    }
}

/// The parameter of a command, as the raw bytes of its string, or
/// nothing for `list`.
pub open spec fn cmd_param(c: Command) -> Option<Seq<u8>> {
    match c {
        Command::List => None,
        Command::Install { path } => Some(encode_utf8(path@)),
        Command::InstallPwa { url } => Some(encode_utf8(url@)),
        Command::Uninstall { manifest_url } => Some(encode_utf8(manifest_url@)),
    }
}

/// The complete request frame of a command.
pub open spec fn request_frame(c: Command) -> Seq<u8> {
    encoded_request(cmd_name(c), cmd_param(c))
}

/// Law: every command's request frame is exactly one frame of the
/// wire protocol.  The first CR LF pair of the frame is the
/// terminator appended at its end — string escaping keeps every
/// control byte out of the JSON object — so a reader that accumulates
/// the frame in fragments of any sizes finds the boundary exactly at
/// the end of the request and extracts it whole, never a truncated
/// piece.
pub proof fn lemma_request_frame_single(c: Command)
    ensures
        request_frame(c).len() >= 2,
        is_first_terminator(request_frame(c), request_frame(c).len() - 2),
{
    lemma_encoded_request_single_frame(cmd_name(c), cmd_param(c));
}

/// Law: a request frame survives the decoder's grammar whole.  Every
/// escape the encoder emits is undone exactly by the decoder, the
/// frame parses as one object with trailing terminator, and since a
/// request carries only the members `cmd` and `param`, its meaning as
/// a response is the `unexpected result` outcome — never a success,
/// an error, or a fatal frame.
pub proof fn lemma_request_frame_decodes_unexpected(c: Command)
    ensures
        response_outcome(request_frame(c)) == Outcome::Unexpected,
{
    lemma_request_parses_clean(cmd_name(c), cmd_param(c));
}

/// Serialize a command into its request frame.
pub fn encode(c: &Command) -> (r: Vec<u8>)
    ensures
        r@ == request_frame(*c),
{
    match c {
        Command::List => {
            let mut n: Vec<u8> = Vec::new();
            n.push(0x6c);
            n.push(0x69);
            n.push(0x73);
            n.push(0x74);
            proof {
                assert(n@ =~= list_name());
            }
            encode_frame(n.as_slice(), None)
        },
        Command::Install { path } => {
            let n = install_name_bytes();
            encode_frame(n.as_slice(), Some(path.as_str().as_bytes()))
        },
        Command::InstallPwa { url } => {
            let mut n = install_name_bytes();
            n.push(0x2d);
            n.push(0x70);
            n.push(0x77);
            n.push(0x61);
            proof {
                assert(n@ =~= install_pwa_name());
            }
            encode_frame(n.as_slice(), Some(url.as_str().as_bytes()))
        },
        Command::Uninstall { manifest_url } => {
            let mut n: Vec<u8> = Vec::new();
            n.push(0x75);
            n.push(0x6e);
            let tail = install_name_bytes();
            let mut k: usize = 0;
            while k < tail.len()
                invariant
                    k <= tail@.len(),
                    tail@ == install_name(),
                    n@ == seq![0x75u8, 0x6eu8] + tail@.take(k as int),
                decreases tail@.len() - k,
            {
                n.push(tail[k]);
                k = k + 1;
                proof {
                    assert(n@ =~= seq![0x75u8, 0x6eu8] + tail@.take(k as int));
                }
            }
            proof {
                assert(tail@.take(tail@.len() as int) =~= tail@);
                assert(n@ =~= uninstall_name());
            }
            encode_frame(n.as_slice(), Some(manifest_url.as_str().as_bytes()))
        },
    }
}

fn install_name_bytes() -> (r: Vec<u8>)
    ensures
        r@ == install_name(),
{
    let mut n: Vec<u8> = Vec::new();
    n.push(0x69);
    n.push(0x6e);
    n.push(0x73);
    n.push(0x74);
    n.push(0x61);
    n.push(0x6c);
    n.push(0x6c);
    proof {
        assert(n@ =~= install_name());
    }
    n
}

/// The request frame asking the backend to install the app package at
/// `path` on its local storage.
pub fn install(path: String) -> (r: Vec<u8>)
    ensures
        r@ == request_frame((Command::Install { path })),
{
    encode(&Command::Install { path })
}

/// The request frame asking the backend to install the web app whose
/// manifest lives at `url`.
pub fn install_pwa(url: String) -> (r: Vec<u8>)
    ensures
        r@ == request_frame((Command::InstallPwa { url })),
{
    encode(&Command::InstallPwa { url })
}

/// The request frame asking the backend for its list of installed
/// apps; `list` carries no parameter.
pub fn list() -> (r: Vec<u8>)
    ensures
        r@ == request_frame(Command::List),
{
    encode(&Command::List)
}

/// The request frame asking the backend to uninstall the app
/// identified by `manifest_url`.
pub fn uninstall(manifest_url: String) -> (r: Vec<u8>)
    ensures
        r@ == request_frame((Command::Uninstall { manifest_url })),
{
    encode(&Command::Uninstall { manifest_url })
}

} // verus!
