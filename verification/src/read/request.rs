//! Tokenization of one extracted line as an HTTP request line.
//!
//! A line splits at its first two spaces into a method token, a
//! request-target token and a version token. Method and version must each
//! equal one of a few fixed byte strings; the target must be UTF-8 and is
//! kept as is. Everything after the second space belongs to the version
//! token, so a target holding a literal space cannot be represented.
use vstd::prelude::*;
use vstd::slice::{slice_subrange, slice_to_vec};
use vstd::utf8::{decode_utf8, valid_utf8};

use crate::read::line::{has_crlf, is_crlf_at, CR, LF};
use crate::read::scan::{find_first, lemma_find_first, lemma_find_first_unique};
use crate::{HttpMethod, HttpVersion};

verus! {

/// The ASCII space byte separating the three tokens.
pub const SP: u8 = 32;

/// Why reading a request line failed.
#[derive(Debug)]
pub enum ReadRequestError {
    /// The byte source itself failed; the source's error, verbatim.
    Io(std::io::Error),
    /// The input ended before a line terminator was ever seen.
    UnterminatedInput,
    /// The method token is not one of the recognized verbs.
    BadMethod,
    /// Fewer than two spaces, or a request target that is not UTF-8.
    BadRequest,
    /// The version token is neither of the recognized versions.
    BadVersion,
}

/// Relies on std::io::Error as an opaque carrier of a source's failure.
#[verifier::external_type_specification]
#[verifier::external_body]
pub struct ExIoError(std::io::Error);

impl From<std::io::Error> for ReadRequestError {
    fn from(err: std::io::Error) -> (e: Self) {
        ReadRequestError::Io(err)
    }
}

impl vstd::std_specs::convert::FromSpecImpl<std::io::Error> for ReadRequestError {
    open spec fn obeys_from_spec() -> bool {
        true
    }

    open spec fn from_spec(err: std::io::Error) -> Self {
        ReadRequestError::Io(err)
    }
}

/// The exact bytes of the verb that names `method` on the wire.
pub open spec fn method_token(method: HttpMethod) -> Seq<u8> {
    match method {
        HttpMethod::Get => seq![71, 69, 84],
        HttpMethod::Put => seq![80, 85, 84],
        HttpMethod::Post => seq![80, 79, 83, 84],
        HttpMethod::Head => seq![72, 69, 65, 68],
        HttpMethod::Trace => seq![84, 82, 65, 67, 69],
        HttpMethod::Connect => seq![67, 79, 78, 78, 69, 67, 84],
        HttpMethod::Options => seq![79, 80, 84, 73, 79, 78, 83],
    }
}

/// The exact bytes that name `version` on the wire.
pub open spec fn version_token(version: HttpVersion) -> Seq<u8> {
    match version {
        HttpVersion::V1_0 => seq![72, 84, 84, 80, 47, 49, 46, 48],
        HttpVersion::V1_1 => seq![72, 84, 84, 80, 47, 49, 46, 49],
    }
}

/// The method whose verb is exactly `tok`, if any.
pub open spec fn spec_method(tok: Seq<u8>) -> Option<HttpMethod> {
    if tok == method_token(HttpMethod::Get) {
        Some(HttpMethod::Get)
    } else if tok == method_token(HttpMethod::Put) {
        Some(HttpMethod::Put)
    } else if tok == method_token(HttpMethod::Post) {
        Some(HttpMethod::Post)
    } else if tok == method_token(HttpMethod::Head) {
        Some(HttpMethod::Head)
    } else if tok == method_token(HttpMethod::Trace) {
        Some(HttpMethod::Trace)
    } else if tok == method_token(HttpMethod::Connect) {
        Some(HttpMethod::Connect)
    } else if tok == method_token(HttpMethod::Options) {
        Some(HttpMethod::Options)
    } else {
        None
    }
}

/// The version whose name is exactly `tok`, if any.
pub open spec fn spec_version(tok: Seq<u8>) -> Option<HttpVersion> {
    if tok == version_token(HttpVersion::V1_0) {
        Some(HttpVersion::V1_0)
    } else if tok == version_token(HttpVersion::V1_1) {
        Some(HttpVersion::V1_1)
    } else {
        None
    }
}

/// What parsing `line` as a request line yields: the triple with the target
/// still in bytes, or the rejection the line earns.
pub open spec fn spec_parse(line: Seq<u8>) -> Result<
    (HttpMethod, Seq<u8>, HttpVersion),
    ReadRequestError,
> {
    match find_first(line, SP) {
        None => Err(ReadRequestError::BadRequest),
        Some(i) => match find_first(line.subrange(i + 1, line.len() as int), SP) {
            None => Err(ReadRequestError::BadRequest),
            Some(d) => spec_parse_split(line, i, i + 1 + d),
        },
    }
}

/// Parsing once the first two space positions `i < j` are known.
pub open spec fn spec_parse_split(line: Seq<u8>, i: int, j: int) -> Result<
    (HttpMethod, Seq<u8>, HttpVersion),
    ReadRequestError,
> {
    let target = line.subrange(i + 1, j);
    match spec_method(line.subrange(0, i)) {
        None => Err(ReadRequestError::BadMethod),
        Some(method) => if !valid_utf8(target) {
            Err(ReadRequestError::BadRequest)
        } else {
            match spec_version(line.subrange(j + 1, line.len() as int)) {
                None => Err(ReadRequestError::BadVersion),
                Some(version) => Ok((method, target, version)),
            }
        },
    }
}

/// The request line that re-encodes a parsed triple, terminator excluded:
/// the method's verb, the target bytes and the version's name, with one
/// space between neighbours.
pub open spec fn encode_request_line(
    method: HttpMethod,
    target: Seq<u8>,
    version: HttpVersion,
) -> Seq<u8> {
    method_token(method) + seq![SP] + target + seq![SP] + version_token(version)
}

/// A method's verb holds neither a space nor a carriage return, and is the
/// one verb its method is recovered from.
pub proof fn lemma_method_token(method: HttpMethod)
    ensures
        spec_method(method_token(method)) == Some(method),
        forall|k: int|
            0 <= k < method_token(method).len() ==> method_token(method)[k] != SP
                && method_token(method)[k] != CR,
{
    match method {
        HttpMethod::Get => {
        },
        HttpMethod::Put => {
            assert(method_token(HttpMethod::Put)[0] != method_token(HttpMethod::Get)[0]);
        },
        HttpMethod::Post => {
        },
        HttpMethod::Head => {
            assert(method_token(HttpMethod::Head)[0] != method_token(HttpMethod::Post)[0]);
        },
        HttpMethod::Trace => {
        },
        HttpMethod::Connect => {
        },
        HttpMethod::Options => {
            assert(method_token(HttpMethod::Options)[0] != method_token(HttpMethod::Connect)[0]);
        },
    }
}

/// A version's name holds neither a space nor a carriage return, and is the
/// one name its version is recovered from.
pub proof fn lemma_version_token(version: HttpVersion)
    ensures
        spec_version(version_token(version)) == Some(version),
        forall|k: int|
            0 <= k < version_token(version).len() ==> version_token(version)[k] != SP
                && version_token(version)[k] != CR,
{
    match version {
        HttpVersion::V1_0 => {
        },
        HttpVersion::V1_1 => {
            assert(version_token(HttpVersion::V1_1)[7] != version_token(HttpVersion::V1_0)[7]);
        },
    }
}

/// Law: re-encoding a parsed triple gives a request line that both stages
/// map back to the very same triple. Appending CRLF to the re-encoded line
/// puts the first terminator exactly at its end — extraction returns the
/// whole line — and parsing that line yields the triple again.
pub proof fn lemma_parse_round_trip(
    line: Seq<u8>,
    method: HttpMethod,
    target: Seq<u8>,
    version: HttpVersion,
)
    requires
        !has_crlf(line),
        spec_parse(line) == Ok::<(HttpMethod, Seq<u8>, HttpVersion), ReadRequestError>(
            (method, target, version),
        ),
    ensures
        ({
            let encoded = encode_request_line(method, target, version);
            let wire = encoded + seq![CR, LF];
            &&& is_crlf_at(wire, encoded.len() as int)
            &&& (forall|j: int| 0 <= j < encoded.len() ==> !is_crlf_at(wire, j))
            &&& wire.subrange(0, encoded.len() as int) == encoded
            &&& spec_parse(encoded) == Ok::<(HttpMethod, Seq<u8>, HttpVersion), ReadRequestError>(
                (method, target, version),
            )
        }),
{
    lemma_find_first(line, SP);
    match find_first(line, SP) {
        None => {
        },
        Some(i) => {
            let after = line.subrange(i + 1, line.len() as int);
            lemma_find_first(after, SP);
            match find_first(after, SP) {
                None => {
                },
                Some(d) => {
                    let j = i + 1 + d;
                    // The parse succeeded, so the three tokens are pinned.
                    assert(spec_method(line.subrange(0, i)) == Some(method));
                    assert(target == line.subrange(i + 1, j));
                    assert(valid_utf8(target));
                    assert(line.subrange(0, i) == method_token(method));
                    assert forall|k: int| 0 <= k < target.len() implies target[k] != SP by {
                        assert(after[k] == target[k]);
                        assert(after[k] != SP);
                    }

                    let mt = method_token(method);
                    let vt = version_token(version);
                    let tlen = target.len() as int;
                    lemma_method_token(method);
                    lemma_version_token(version);
                    let encoded = encode_request_line(method, target, version);
                    let mid = mt.len() as int;
                    let second = mid + 1 + tlen;

                    // Where each byte of the re-encoded line comes from.
                    assert(encoded.len() == mid + 1 + tlen + 1 + vt.len());
                    assert(forall|k: int| 0 <= k < mid ==> encoded[k] == mt[k]);
                    assert(encoded[mid] == SP);
                    assert(forall|k: int| 0 <= k < tlen ==> encoded[mid + 1 + k] == target[k]);
                    assert(encoded[second] == SP);
                    assert(forall|k: int|
                        0 <= k < vt.len() ==> encoded[second + 1 + k] == vt[k]);

                    // The first two spaces of the re-encoded line are the two
                    // separators that the encoding inserted.
                    lemma_find_first_unique(encoded, SP, mid);
                    let after2 = encoded.subrange(mid + 1, encoded.len() as int);
                    assert forall|k: int| 0 <= k < tlen implies after2[k] != SP by {
                        assert(after2[k] == target[k]);
                    }
                    assert(after2[tlen] == SP);
                    lemma_find_first_unique(after2, SP, tlen);

                    // The three tokens read back from the re-encoded line are
                    // the three tokens that went in.
                    assert(encoded.subrange(0, mid) =~= mt);
                    assert(encoded.subrange(mid + 1, second) =~= target);
                    assert(encoded.subrange(second + 1, encoded.len() as int) =~= vt);
                    assert(spec_parse(encoded) == Ok::<
                        (HttpMethod, Seq<u8>, HttpVersion),
                        ReadRequestError,
                    >((method, target, version)));

                    // The appended terminator is the first one on the wire.
                    let wire = encoded + seq![CR, LF];
                    assert(wire[encoded.len() as int] == CR);
                    assert(wire[encoded.len() as int + 1] == LF);
                    assert(is_crlf_at(wire, encoded.len() as int));
                    assert forall|w: int| 0 <= w < encoded.len() implies !is_crlf_at(
                        wire,
                        w,
                    ) by {
                        assert(wire[w] == encoded[w]);
                        if w + 1 < encoded.len() {
                            assert(wire[w + 1] == encoded[w + 1]);
                            if is_crlf_at(wire, w) {
                                // A terminator inside the line could only sit
                                // inside the target, which came from a line
                                // that held none.
                                assert(mid < w && w + 1 < second);
                                let a = w - mid - 1;
                                assert(target[a] == CR && target[a + 1] == LF);
                                assert(line[i + 1 + a] == CR && line[i + 1 + a + 1] == LF);
                                assert(is_crlf_at(line, i + 1 + a));
                            }
                        } else {
                            assert(wire[w] == vt[vt.len() - 1]);
                        }
                    }
                    assert(wire.subrange(0, encoded.len() as int) =~= encoded);
                },
            }
        },
    }
}

/// Relies on String::from_utf8: it succeeds exactly on valid UTF-8 and the
/// string then holds the decoded characters of the bytes.
#[verifier::external_body]
fn string_from_utf8(bytes: Vec<u8>) -> (decoded: Option<String>)
    ensures
        match decoded {
            Some(s) => valid_utf8(bytes@) && s@ == decode_utf8(bytes@),
            None => !valid_utf8(bytes@),
        },
{
    String::from_utf8(bytes).ok()
}

/// The method named by `tok`, exactly as `spec_method` maps it.
fn parse_method(tok: &[u8]) -> (method: Option<HttpMethod>)
    ensures
        method == spec_method(tok@),
{
    let n = tok.len();
    if n == 3 && tok[0] == 71 && tok[1] == 69 && tok[2] == 84 {
        proof {
            assert(tok@ =~= method_token(HttpMethod::Get));
        }
        Some(HttpMethod::Get)
    } else if n == 3 && tok[0] == 80 && tok[1] == 85 && tok[2] == 84 {
        proof {
            assert(tok@ =~= method_token(HttpMethod::Put));
        }
        Some(HttpMethod::Put)
    } else if n == 4 && tok[0] == 80 && tok[1] == 79 && tok[2] == 83 && tok[3] == 84 {
        proof {
            assert(tok@ =~= method_token(HttpMethod::Post));
        }
        Some(HttpMethod::Post)
    } else if n == 4 && tok[0] == 72 && tok[1] == 69 && tok[2] == 65 && tok[3] == 68 {
        proof {
            assert(tok@ =~= method_token(HttpMethod::Head));
        }
        Some(HttpMethod::Head)
    } else if n == 5 && tok[0] == 84 && tok[1] == 82 && tok[2] == 65 && tok[3] == 67
        && tok[4] == 69 {
        proof {
            assert(tok@ =~= method_token(HttpMethod::Trace));
        }
        Some(HttpMethod::Trace)
    } else if n == 7 && tok[0] == 67 && tok[1] == 79 && tok[2] == 78 && tok[3] == 78
        && tok[4] == 69 && tok[5] == 67 && tok[6] == 84 {
        proof {
            assert(tok@ =~= method_token(HttpMethod::Connect));
        }
        Some(HttpMethod::Connect)
    } else if n == 7 && tok[0] == 79 && tok[1] == 80 && tok[2] == 84 && tok[3] == 73
        && tok[4] == 79 && tok[5] == 78 && tok[6] == 83 {
        proof {
            assert(tok@ =~= method_token(HttpMethod::Options));
        }
        Some(HttpMethod::Options)
    } else {
        None
    }
}

/// The version named by `tok`, exactly as `spec_version` maps it.
fn parse_version(tok: &[u8]) -> (version: Option<HttpVersion>)
    ensures
        version == spec_version(tok@),
{
    if tok.len() == 8 && tok[0] == 72 && tok[1] == 84 && tok[2] == 84 && tok[3] == 80
        && tok[4] == 47 && tok[5] == 49 && tok[6] == 46 {
        if tok[7] == 48 {
            proof {
                assert(tok@ =~= version_token(HttpVersion::V1_0));
            }
            Some(HttpVersion::V1_0)
        } else if tok[7] == 49 {
            proof {
                assert(tok@ =~= version_token(HttpVersion::V1_1));
            }
            Some(HttpVersion::V1_1)
        } else {
            None
        }
    } else {
        None
    }
}

/// Split `line` — one extracted line, terminator already stripped — at its
/// first two spaces into method, request-target and version.
///
/// The returned target holds the decoded characters of exactly the bytes
/// between the two spaces; the errors come as `spec_parse` maps them.
pub fn parse_request_line(line: &[u8]) -> (parsed: Result<
    (HttpMethod, String, HttpVersion),
    ReadRequestError,
>)
    ensures
        match parsed {
            Ok(triple) => {
                &&& spec_parse(line@) matches Ok(split)
                &&& triple.0 == split.0
                &&& valid_utf8(split.1)
                &&& triple.1@ == decode_utf8(split.1)
                &&& triple.2 == split.2
            },
            Err(e) => spec_parse(line@) matches Err(se) && e == se,
        },
{
    proof {
        lemma_find_first(line@, SP);
    }
    let first = match memchr::memchr(SP, line) {
        None => {
            return Err(ReadRequestError::BadRequest);
        },
        Some(i) => i,
    };
    proof {
        lemma_find_first_unique(line@, SP, first as int);
    }
    let len = line.len();
    let rest = slice_subrange(line, first + 1, len);
    proof {
        lemma_find_first(rest@, SP);
    }
    let second = match memchr::memchr(SP, rest) {
        None => {
            return Err(ReadRequestError::BadRequest);
        },
        Some(d) => first + 1 + d,
    };
    proof {
        lemma_find_first_unique(rest@, SP, second - first - 1);
    }

    let method = match parse_method(slice_subrange(line, 0, first)) {
        None => {
            return Err(ReadRequestError::BadMethod);
        },
        Some(method) => method,
    };
    let target = slice_to_vec(slice_subrange(line, first + 1, second));
    let target = match string_from_utf8(target) {
        None => {
            return Err(ReadRequestError::BadRequest);
        },
        Some(target) => target,
    };
    let version = match parse_version(slice_subrange(line, second + 1, line.len())) {
        None => {
            return Err(ReadRequestError::BadVersion);
        },
        Some(version) => version,
    };
    Ok((method, target, version))
}

} // verus!
