//! The control protocol's wire format. A packet is a `u32` command tag and a
//! byte-string payload; strings are UTF-8 byte strings; integers are
//! little-endian and of fixed width; a byte string is its `u64` length
//! followed by its bytes. Trailing bytes after a packet are ignored.

use vstd::prelude::*;
use vstd::utf8::valid_utf8;
use vstd::slice::slice_subrange;
use crate::watch::{AliasPolicy, ActionPolicy, AliasSpec, ActionSpec};

verus! {

/// The little-endian value of the 8 bytes at the start of `b`.
pub open spec fn le_u64(b: Seq<u8>) -> int {
    b[0] as int + 0x100 * b[1] + 0x1_0000 * b[2] + 0x100_0000 * b[3] + 0x1_0000_0000 * b[4]
        + 0x100_0000_0000 * b[5] + 0x1_0000_0000_0000 * b[6] + 0x100_0000_0000_0000 * b[7]
}

/// The little-endian value of the 4 bytes at `at`.
pub open spec fn le_u32_at(b: Seq<u8>, at: int) -> int {
    b[at] as int + 0x100 * b[at + 1] + 0x1_0000 * b[at + 2] + 0x100_0000 * b[at + 3]
}

/// Whether a length-prefixed byte string starts at the front of `b`.
pub open spec fn frame_fits(b: Seq<u8>) -> bool {
    b.len() >= 8 && 8 + le_u64(b) <= b.len()
}

/// The bytes of the length-prefixed byte string at the front of `b`.
pub open spec fn frame_body(b: Seq<u8>) -> Seq<u8> {
    b.subrange(8, 8 + le_u64(b))
}

/// The byte string at `at`, if one is there.
pub open spec fn bytes_at(b: Seq<u8>, at: int) -> Option<Seq<u8>> {
    if 0 <= at <= b.len() && frame_fits(b.subrange(at, b.len() as int)) {
        Some(frame_body(b.subrange(at, b.len() as int)))
    } else {
        None
    }
}

/// The UTF-8 string at `at`, if one is there.
pub open spec fn str_at(b: Seq<u8>, at: int) -> Option<Seq<u8>> {
    match bytes_at(b, at) {
        Some(s) => if valid_utf8(s) { Some(s) } else { None },
        None => None,
    }
}

/// Relies on bincode 1.3's `deserialize::<String>` (fixed-width little-endian
/// integers, trailing bytes allowed): it reads a `u64` length and that many
/// bytes, and fails where they are missing or are not UTF-8.
#[verifier::external_body]
fn bincode_string(b: &[u8]) -> (r: Option<Vec<u8>>)
    ensures
        match r {
            Some(v) => frame_fits(b@) && valid_utf8(frame_body(b@)) && v@ == frame_body(b@),
            None => !(frame_fits(b@) && valid_utf8(frame_body(b@))),
        },
{
    bincode::deserialize::<String>(b).ok().map(|s| s.into_bytes())
}

/// Relies on bincode 1.3's `deserialize::<Vec<u8>>` (fixed-width little-endian
/// integers, trailing bytes allowed): it reads a `u64` length and that many
/// bytes, and fails where they are missing.
#[verifier::external_body]
fn bincode_bytes(b: &[u8]) -> (r: Option<Vec<u8>>)
    ensures
        r.is_some() <==> frame_fits(b@),
        r matches Some(v) ==> v@ == frame_body(b@),
{
    bincode::deserialize::<Vec<u8>>(b).ok()
}

/// Reads the string at `at`, returning it with the position after it.
pub fn read_str(b: &[u8], at: usize) -> (r: Option<(Vec<u8>, usize)>)
    ensures
        match r {
            Some((s, next)) => str_at(b@, at as int) == Some(s@) && next == at + 8 + s@.len(),
            None => str_at(b@, at as int) is None,
        },
{
    if at > b.len() {
        return None;
    }
    let rest = slice_subrange(b, at, b.len());
    match bincode_string(rest) {
        Some(s) => {
            let next = at + 8 + s.len();
            Some((s, next))
        },
        None => None,
    }
}

/// Reads the byte string at `at`.
pub fn read_bytes(b: &[u8], at: usize) -> (r: Option<Vec<u8>>)
    ensures
        match r {
            Some(s) => bytes_at(b@, at as int) == Some(s@),
            None => bytes_at(b@, at as int) is None,
        },
{
    if at > b.len() {
        return None;
    }
    let rest = slice_subrange(b, at, b.len());
    bincode_bytes(rest)
}

/// Reads a `u32` tag at `at` that must be below `bound`.
pub fn read_tag(b: &[u8], at: usize, bound: u8) -> (r: Option<u8>)
    ensures
        match r {
            Some(t) => at + 4 <= b.len() && le_u32_at(b@, at as int) == t as int && t < bound,
            None => !(at + 4 <= b.len() && 0 <= le_u32_at(b@, at as int) < bound as int),
        },
{
    if at > b.len() || b.len() - at < 4 {
        return None;
    }
    if b[at + 1] == 0 && b[at + 2] == 0 && b[at + 3] == 0 && b[at] < bound {
        Some(b[at])
    } else {
        None
    }
}

/// The commands of the control protocol, by their wire tags 0 to 5.
pub ghost enum RequestSpec {
    Track { path: Seq<u8>, alias: AliasSpec, action: ActionSpec },
    List { pattern: Seq<u8> },
    Select { path: Seq<u8>, prefix: Seq<u8> },
    Echo { msg: Seq<u8> },
    Echoerr { msg: Seq<u8> },
    Untrack { path: Seq<u8> },
}

pub enum Request {
    Track { path: Vec<u8>, alias: AliasPolicy, action: ActionPolicy },
    List { pattern: Vec<u8> },
    Select { path: Vec<u8>, prefix: Vec<u8> },
    Echo { msg: Vec<u8> },
    Echoerr { msg: Vec<u8> },
    Untrack { path: Vec<u8> },
}

impl View for Request {
    type V = RequestSpec;

    open spec fn view(&self) -> RequestSpec {
        match self {
            Request::Track { path, alias, action } => RequestSpec::Track {
                path: path@,
                alias: alias@,
                action: action@,
            },
            Request::List { pattern } => RequestSpec::List { pattern: pattern@ },
            Request::Select { path, prefix } => RequestSpec::Select { path: path@, prefix: prefix@ },
            Request::Echo { msg } => RequestSpec::Echo { msg: msg@ },
            Request::Echoerr { msg } => RequestSpec::Echoerr { msg: msg@ },
            Request::Untrack { path } => RequestSpec::Untrack { path: path@ },
        }
    }
}

/// Why a packet could not be taken as a request.
#[derive(PartialEq, Eq, Structural, Clone, Copy, Debug)]
pub enum DecodeError {
    /// The bytes do not form a packet or the command's payload.
    Malformed,
    /// The command tag names no command.
    Unsupported,
}

pub const COMMANDS: u8 = 6;

/// A policy at `at`: tag 0 with nothing after it, or tag 1 and a script path.
pub open spec fn policy_at(b: Seq<u8>, at: int) -> Option<(Option<Seq<u8>>, int)> {
    if at + 4 <= b.len() && le_u32_at(b, at) == 0 {
        Some((None, at + 4))
    } else if at + 4 <= b.len() && le_u32_at(b, at) == 1 {
        match str_at(b, at + 4) {
            Some(s) => Some((Some(s), at + 4 + 8 + s.len())),
            None => None,
        }
    } else {
        None
    }
}

pub open spec fn alias_of(p: Option<Seq<u8>>) -> AliasSpec {
    match p {
        Some(s) => AliasSpec::Script(s),
        None => AliasSpec::Basename,
    }
}

pub open spec fn action_of(p: Option<Seq<u8>>) -> ActionSpec {
    match p {
        Some(s) => ActionSpec::Script(s),
        None => ActionSpec::SaveSnapshot,
    }
}

/// The payload of a command with tag `tag`.
pub open spec fn payload_request(tag: int, p: Seq<u8>) -> Option<RequestSpec> {
    if tag == 0 {
        match str_at(p, 0) {
            Some(path) => match policy_at(p, 8 + path.len() as int) {
                Some((a, next)) => match policy_at(p, next) {
                    Some((c, _)) => Some(RequestSpec::Track { path, alias: alias_of(a), action: action_of(c) }),
                    None => None,
                },
                None => None,
            },
            None => None,
        }
    } else if tag == 2 {
        match str_at(p, 0) {
            Some(path) => match str_at(p, 8 + path.len() as int) {
                Some(prefix) => Some(RequestSpec::Select { path, prefix }),
                None => None,
            },
            None => None,
        }
    } else {
        match str_at(p, 0) {
            Some(s) => Some(
                if tag == 1 {
                    RequestSpec::List { pattern: s }
                } else if tag == 3 {
                    RequestSpec::Echo { msg: s }
                } else if tag == 4 {
                    RequestSpec::Echoerr { msg: s }
                } else {
                    RequestSpec::Untrack { path: s }
                },
            ),
            None => None,
        }
    }
}

/// What a packet asks for.
pub open spec fn request_of(b: Seq<u8>) -> Result<RequestSpec, DecodeError> {
    if b.len() < 4 {
        Err(DecodeError::Malformed)
    } else if !(0 <= le_u32_at(b, 0) < COMMANDS) {
        Err(DecodeError::Unsupported)
    } else {
        match bytes_at(b, 4) {
            Some(p) => match payload_request(le_u32_at(b, 0), p) {
                Some(r) => Ok(r),
                None => Err(DecodeError::Malformed),
            },
            None => Err(DecodeError::Malformed),
        }
    }
}

fn read_policy(p: &[u8], at: usize) -> (r: Option<(Option<Vec<u8>>, usize)>)
    ensures
        match r {
            Some((s, next)) => policy_at(p@, at as int) == Some((
                match s {
                    Some(v) => Some(v@),
                    None => None::<Seq<u8>>,
                },
                next as int,
            )),
            None => policy_at(p@, at as int) is None,
        },
{
    match read_tag(p, at, 2) {
        Some(0) => Some((None, at + 4)),
        Some(_) => match read_str(p, at + 4) {
            Some((s, next)) => Some((Some(s), next)),
            None => None,
        },
        None => None,
    }
}

/// Decodes one packet.
pub fn decode_request(b: &[u8]) -> (r: Result<Request, DecodeError>)
    ensures
        match r {
            Ok(q) => request_of(b@) == Ok::<RequestSpec, DecodeError>(q@),
            Err(e) => request_of(b@) == Err::<RequestSpec, DecodeError>(e),
        },
{
    if b.len() < 4 {
        return Err(DecodeError::Malformed);
    }
    let tag = match read_tag(b, 0, COMMANDS) {
        Some(t) => t,
        None => return Err(DecodeError::Unsupported),
    };
    let p = match read_bytes(b, 4) {
        Some(p) => p,
        None => return Err(DecodeError::Malformed),
    };
    let p = p.as_slice();
    if tag == 0 {
        let (path, next) = match read_str(p, 0) {
            Some(x) => x,
            None => return Err(DecodeError::Malformed),
        };
        let (a, next) = match read_policy(p, next) {
            Some(x) => x,
            None => return Err(DecodeError::Malformed),
        };
        let (c, _) = match read_policy(p, next) {
            Some(x) => x,
            None => return Err(DecodeError::Malformed),
        };
        let alias = match a {
            Some(s) => AliasPolicy::Script(s),
            None => AliasPolicy::Basename,
        };
        let action = match c {
            Some(s) => ActionPolicy::Script(s),
            None => ActionPolicy::SaveSnapshot,
        };
        Ok(Request::Track { path, alias, action })
    } else if tag == 2 {
        let (path, next) = match read_str(p, 0) {
            Some(x) => x,
            None => return Err(DecodeError::Malformed),
        };
        let (prefix, _) = match read_str(p, next) {
            Some(x) => x,
            None => return Err(DecodeError::Malformed),
        };
        Ok(Request::Select { path, prefix })
    } else {
        let (s, _) = match read_str(p, 0) {
            Some(x) => x,
            None => return Err(DecodeError::Malformed),
        };
        Ok(
            if tag == 1 {
                Request::List { pattern: s }
            } else if tag == 3 {
                Request::Echo { msg: s }
            } else if tag == 4 {
                Request::Echoerr { msg: s }
            } else {
                Request::Untrack { path: s }
            },
        )
    }
}

/// Relies on bincode 1.3's `serialize` of a byte slice: a `u64` little-endian
/// length and then the bytes. With its default, unbounded size limit and a
/// `Vec` to write to, it does not fail.
#[verifier::external_body]
fn bincode_frame(s: &[u8]) -> (r: Vec<u8>)
    ensures
        frame_fits(r@),
        frame_body(r@) == s@,
        r@.len() == 8 + s@.len(),
{
    match bincode::serialize(s) {
        Ok(v) => v,
        Err(_) => Vec::new(),
    }
}

fn tag_bytes(t: u8) -> (r: Vec<u8>)
    ensures
        r@.len() == 4,
        le_u32_at(r@, 0) == t as int,
{
    let r = vec![t, 0u8, 0u8, 0u8];
    assert(r@[0] == t && r@[1] == 0 && r@[2] == 0 && r@[3] == 0);
    r
}

fn push_all(out: &mut Vec<u8>, b: &[u8])
    ensures
        final(out)@ == old(out)@ + b@,
{
    let mut i: usize = 0;
    while i < b.len()
        invariant
            i <= b@.len(),
            out@ == old(out)@ + b@.subrange(0, i as int),
        decreases b@.len() - i,
    {
        out.push(b[i]);
        assert(b@.subrange(0, i + 1) =~= b@.subrange(0, i as int).push(b@[i as int]));
        i = i + 1;
    }
    assert(b@.subrange(0, i as int) =~= b@);
}

proof fn lemma_frame_in(pre: Seq<u8>, f: Seq<u8>, rest: Seq<u8>)
    requires
        frame_fits(f),
        f.len() == 8 + le_u64(f),
    ensures
        bytes_at(pre + f + rest, pre.len() as int) == Some(frame_body(f)),
{
    let b = pre + f + rest;
    let sub = b.subrange(pre.len() as int, b.len() as int);
    assert(sub =~= f + rest);
    assert(forall|k: int| 0 <= k < 8 ==> sub[k] == f[k]);
    assert(le_u64(sub) == le_u64(f));
    assert(frame_body(sub) =~= frame_body(f));
}

proof fn lemma_tag_in(pre: Seq<u8>, t: Seq<u8>, rest: Seq<u8>)
    requires
        t.len() == 4,
    ensures
        le_u32_at(pre + t + rest, pre.len() as int) == le_u32_at(t, 0),
        pre.len() + 4 <= (pre + t + rest).len(),
{
    let b = pre + t + rest;
    assert(forall|k: int| 0 <= k < 4 ==> b[pre.len() + k] == t[k]);
}

/// Whether every string of a request is UTF-8, as the wire format asks.
pub open spec fn strings_valid(q: RequestSpec) -> bool {
    match q {
        RequestSpec::Track { path, alias, action } => {
            &&& valid_utf8(path)
            &&& alias matches AliasSpec::Script(s) ==> valid_utf8(s)
            &&& action matches ActionSpec::Script(s) ==> valid_utf8(s)
        },
        RequestSpec::List { pattern } => valid_utf8(pattern),
        RequestSpec::Select { path, prefix } => valid_utf8(path) && valid_utf8(prefix),
        RequestSpec::Echo { msg } => valid_utf8(msg),
        RequestSpec::Echoerr { msg } => valid_utf8(msg),
        RequestSpec::Untrack { path } => valid_utf8(path),
    }
}

/// Appends a policy: tag 0, or tag 1 and the script path.
fn push_policy(out: &mut Vec<u8>, script: Option<&Vec<u8>>)
    ensures
        match script {
            Some(s) => valid_utf8(s@) ==> policy_at(final(out)@, old(out)@.len() as int) == Some(
                (Some(s@), final(out)@.len() as int),
            ),
            None => policy_at(final(out)@, old(out)@.len() as int) == Some(
                (None::<Seq<u8>>, final(out)@.len() as int),
            ),
        },
        final(out)@.subrange(0, old(out)@.len() as int) == old(out)@,
        old(out)@.len() <= final(out)@.len(),
        forall|rest: Seq<u8>| #![trigger (final(out)@ + rest)]
            policy_at(final(out)@ + rest, old(out)@.len() as int) == policy_at(final(out)@, old(out)@.len() as int),
{
    let ghost pre = out@;
    match script {
        Some(s) => {
            let t = tag_bytes(1);
            let f = bincode_frame(s.as_slice());
            push_all(out, t.as_slice());
            push_all(out, f.as_slice());
            assert forall|rest: Seq<u8>| #![trigger (out@ + rest)]
                policy_at(out@ + rest, pre.len() as int) == (if valid_utf8(s@) { Some((Some(s@), out@.len() as int)) } else { None }) by {
                assert(out@ + rest =~= pre + t@ + (f@ + rest));
                lemma_tag_in(pre, t@, f@ + rest);
                assert(out@ + rest =~= (pre + t@) + f@ + rest);
                lemma_frame_in(pre + t@, f@, rest);
            }
            assert(out@ =~= out@ + Seq::<u8>::empty());
            assert(out@.subrange(0, pre.len() as int) =~= pre);
        },
        None => {
            let t = tag_bytes(0);
            push_all(out, t.as_slice());
            assert forall|rest: Seq<u8>| #![trigger (out@ + rest)]
                policy_at(out@ + rest, pre.len() as int) == Some((None::<Seq<u8>>, out@.len() as int)) by {
                lemma_tag_in(pre, t@, rest);
                assert(out@ + rest =~= pre + t@ + rest);
            }
            assert(out@ =~= out@ + Seq::<u8>::empty());
            assert(out@.subrange(0, pre.len() as int) =~= pre);
        },
    }
}

fn payload_of(q: &Request) -> (r: Vec<u8>)
    ensures
        strings_valid(q@) ==> payload_request(tag_spec(q@) as int, r@) == Some(q@),
{
    match q {
        Request::Track { path, alias, action } => {
            let mut out = bincode_frame(path.as_slice());
            let ghost f = out@;
            let a = match alias {
                AliasPolicy::Script(s) => Some(s),
                AliasPolicy::Basename => None,
            };
            push_policy(&mut out, a);
            let ghost with_alias = out@;
            let c = match action {
                ActionPolicy::Script(s) => Some(s),
                ActionPolicy::SaveSnapshot => None,
            };
            push_policy(&mut out, c);
            proof {
                if strings_valid(q@) {
                    let rest = out@.subrange(f.len() as int, out@.len() as int);
                    assert(out@ =~= Seq::<u8>::empty() + f + rest);
                    lemma_frame_in(Seq::<u8>::empty(), f, rest);
                    let rest2 = out@.subrange(with_alias.len() as int, out@.len() as int);
                    assert(out@ =~= with_alias + rest2);
                    assert(f.len() == 8 + path@.len());
                }
            }
            out
        },
        Request::Select { path, prefix } => {
            let f1 = bincode_frame(path.as_slice());
            let f2 = bincode_frame(prefix.as_slice());
            let mut out = f1;
            push_all(&mut out, f2.as_slice());
            proof {
                assert(out@ =~= Seq::<u8>::empty() + f1@ + f2@);
                lemma_frame_in(Seq::<u8>::empty(), f1@, f2@);
                assert(out@ =~= f1@ + f2@ + Seq::<u8>::empty());
                lemma_frame_in(f1@, f2@, Seq::<u8>::empty());
            }
            out
        },
        Request::List { pattern: s } | Request::Echo { msg: s } | Request::Echoerr { msg: s } | Request::Untrack {
            path: s,
        } => {
            let out = bincode_frame(s.as_slice());
            proof {
                assert(out@ =~= Seq::<u8>::empty() + out@ + Seq::<u8>::empty());
                lemma_frame_in(Seq::<u8>::empty(), out@, Seq::<u8>::empty());
            }
            out
        },
    }
}

/// The wire tag of a command.
pub open spec fn tag_spec(q: RequestSpec) -> u8 {
    match q {
        RequestSpec::Track { .. } => 0,
        RequestSpec::List { .. } => 1,
        RequestSpec::Select { .. } => 2,
        RequestSpec::Echo { .. } => 3,
        RequestSpec::Echoerr { .. } => 4,
        RequestSpec::Untrack { .. } => 5,
    }
}

/// Encodes a request as one packet, which the daemon decodes back into the
/// same request.
pub fn encode_request(q: &Request) -> (r: Vec<u8>)
    ensures
        strings_valid(q@) ==> request_of(r@) == Ok::<RequestSpec, DecodeError>(q@),
{
    let tag: u8 = match q {
        Request::Track { .. } => 0,
        Request::List { .. } => 1,
        Request::Select { .. } => 2,
        Request::Echo { .. } => 3,
        Request::Echoerr { .. } => 4,
        Request::Untrack { .. } => 5,
    };
    let p = payload_of(q);
    let mut out = tag_bytes(tag);
    let ghost t = out@;
    let f = bincode_frame(p.as_slice());
    push_all(&mut out, f.as_slice());
    proof {
        assert(out@ =~= Seq::<u8>::empty() + t + f@);
        lemma_tag_in(Seq::<u8>::empty(), t, f@);
        assert(out@ =~= t + f@ + Seq::<u8>::empty());
        lemma_frame_in(t, f@, Seq::<u8>::empty());
    }
    out
}

} // verus!
