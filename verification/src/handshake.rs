//! The upgrade handshake: header-line parsing, the accept-value computation,
//! and the request and response that the two sides exchange.

use vstd::prelude::*;
use vstd::string::StrSliceExecFns;

use crate::Error;

verus! {

/// The bytes of an ASCII character sequence, one byte per character.
pub open spec fn ascii_of(s: Seq<char>) -> Seq<u8> {
    Seq::new(s.len(), |i: int| s[i] as u8)
}

/// The UTF-8 bytes of an ASCII string, which are its characters' values,
/// one byte each.
fn lit_bytes(s: &str) -> (r: Vec<u8>)
    requires
        vstd::string::is_ascii(s),
    ensures
        r@ == ascii_of(s@),
{
    let r = s.as_bytes_vec();
    proof {
        vstd::string::is_ascii_spec_bytes(s);
        assert(r@ =~= ascii_of(s@));
    }
    r
}

/// Whether a byte is ASCII whitespace.
pub open spec fn is_ws(b: u8) -> bool {
    b == 0x20 || b == 0x09 || b == 0x0A || b == 0x0B || b == 0x0C || b == 0x0D
}

/// The sequence with its leading whitespace removed.
pub open spec fn spec_trim_start(s: Seq<u8>) -> Seq<u8>
    decreases s.len(),
{
    if s.len() > 0 && is_ws(s[0]) {
        spec_trim_start(s.drop_first())
    } else {
        s
    }
}

/// The sequence with its trailing whitespace removed.
pub open spec fn spec_trim_end(s: Seq<u8>) -> Seq<u8>
    decreases s.len(),
{
    if s.len() > 0 && is_ws(s.last()) {
        spec_trim_end(s.drop_last())
    } else {
        s
    }
}

/// The sequence with whitespace removed from both ends.
pub open spec fn spec_trim(s: Seq<u8>) -> Seq<u8> {
    spec_trim_end(spec_trim_start(s))
}

proof fn lemma_trim_start_char(s: Seq<u8>)
    ensures
        ({
            let k = s.len() - spec_trim_start(s).len();
            0 <= k <= s.len() && spec_trim_start(s) == s.subrange(k, s.len() as int) && (forall|
                j: int,
            | 0 <= j < k ==> is_ws(s[j])) && (k < s.len() ==> !is_ws(s[k]))
        }),
    decreases s.len(),
{
    if s.len() > 0 && is_ws(s[0]) {
        let t = s.drop_first();
        lemma_trim_start_char(t);
        let k1 = t.len() - spec_trim_start(t).len();
        let k = s.len() - spec_trim_start(s).len();
        assert(k == k1 + 1);
        assert(s.subrange(k, s.len() as int) =~= t.subrange(k1, t.len() as int));
        assert forall|j: int| 0 <= j < k implies is_ws(s[j]) by {
            if j > 0 {
                assert(t[j - 1] == s[j]);
            }
        }
    }
}

proof fn lemma_trim_end_char(s: Seq<u8>)
    ensures
        ({
            let m = spec_trim_end(s).len() as int;
            m <= s.len() && spec_trim_end(s) == s.subrange(0, m) && (forall|j: int|
                m <= j < s.len() ==> is_ws(s[j])) && (m > 0 ==> !is_ws(s[m - 1]))
        }),
    decreases s.len(),
{
    if s.len() > 0 && is_ws(s.last()) {
        let t = s.drop_last();
        lemma_trim_end_char(t);
        let m = spec_trim_end(s).len() as int;
        assert(t.subrange(0, m) =~= s.subrange(0, m));
        assert forall|j: int| m <= j < s.len() implies is_ws(s[j]) by {
            if j < s.len() - 1 {
                assert(t[j] == s[j]);
            }
        }
    }
}

fn is_ws_byte(b: u8) -> (r: bool)
    ensures
        r == is_ws(b),
{
    b == 0x20 || b == 0x09 || b == 0x0A || b == 0x0B || b == 0x0C || b == 0x0D
}

/// Removes ASCII whitespace from both ends of the given bytes.
fn trim_bytes(s: &[u8]) -> (r: Vec<u8>)
    ensures
        r@ == spec_trim(s@),
{
    let n = s.len();
    let mut a: usize = 0;
    while a < n && is_ws_byte(s[a])
        invariant
            a <= n,
            n == s@.len(),
            forall|j: int| 0 <= j < a ==> is_ws(s@[j]),
        decreases n - a,
    {
        a += 1;
    }
    let mut b: usize = n;
    while b > a && is_ws_byte(s[b - 1])
        invariant
            a <= b <= n,
            n == s@.len(),
            forall|j: int| b <= j < n ==> is_ws(s@[j]),
        decreases b,
    {
        b -= 1;
    }
    let out = vstd::slice::slice_to_vec(&s[a..b]);
    proof {
        lemma_trim_start_char(s@);
        let t = spec_trim_start(s@);
        let k = s@.len() - t.len();
        assert(k == a);
        assert(t =~= s@.subrange(a as int, n as int));
        lemma_trim_end_char(t);
        let m = spec_trim_end(t).len() as int;
        assert forall|j: int| b - a <= j < t.len() implies is_ws(t[j]) by {
            assert(t[j] == s@[a + j]);
        }
        if b > a {
            assert(t[b - a - 1] == s@[b - 1]);
        }
        assert(m == b - a);
        assert(out@ =~= spec_trim(s@));
    }
    out
}

/// The byte after which an ASCII letter is its lower-case form.
pub open spec fn lower_byte(b: u8) -> u8 {
    if 0x41 <= b <= 0x5A {
        (b + 0x20) as u8
    } else {
        b
    }
}

/// The sequence with every ASCII upper-case letter lower-cased.
pub open spec fn spec_lower(s: Seq<u8>) -> Seq<u8> {
    Seq::new(s.len(), |i: int| lower_byte(s[i]))
}

/// Lower-cases every ASCII upper-case letter of the given bytes.
fn lower_bytes(s: &[u8]) -> (r: Vec<u8>)
    ensures
        r@ == spec_lower(s@),
{
    let n = s.len();
    let mut out: Vec<u8> = Vec::new();
    let mut i: usize = 0;
    while i < n
        invariant
            i <= n,
            n == s@.len(),
            out@.len() == i,
            forall|j: int| 0 <= j < i ==> out@[j] == lower_byte(s@[j]),
        decreases n - i,
    {
        let b = s[i];
        if 0x41 <= b && b <= 0x5A {
            out.push(b + 0x20);
        } else {
            out.push(b);
        }
        i += 1;
    }
    proof {
        assert(out@ =~= spec_lower(s@));
    }
    out
}

/// The index of the first colon of the sequence, or its length when it has
/// none.
pub open spec fn spec_colon_pos(s: Seq<u8>) -> int
    decreases s.len(),
{
    if s.len() == 0 {
        0
    } else if s[0] == 0x3A {
        0
    } else {
        1 + spec_colon_pos(s.drop_first())
    }
}

proof fn lemma_colon_pos(s: Seq<u8>)
    ensures
        0 <= spec_colon_pos(s) <= s.len(),
        spec_colon_pos(s) < s.len() ==> s[spec_colon_pos(s)] == 0x3A,
        forall|j: int| 0 <= j < spec_colon_pos(s) ==> s[j] != 0x3A,
    decreases s.len(),
{
    if s.len() > 0 && s[0] != 0x3A {
        lemma_colon_pos(s.drop_first());
        assert forall|j: int| 0 <= j < spec_colon_pos(s) implies s[j] != 0x3A by {
            if j > 0 {
                assert(s.drop_first()[j - 1] == s[j]);
            }
        }
    }
}

/// The key/value pair of a header line split on its first colon: the key
/// trimmed and lower-cased, the value trimmed; nothing for a line without a
/// colon.
pub open spec fn spec_parse_line(line: Seq<u8>) -> Option<(Seq<u8>, Seq<u8>)> {
    let j = spec_colon_pos(line);
    if j < line.len() {
        Some(
            (
                spec_lower(spec_trim(line.subrange(0, j))),
                spec_trim(line.subrange(j + 1, line.len() as int)),
            ),
        )
    } else {
        None
    }
}

/// Splits a header line on its first colon into a trimmed, lower-cased key
/// and a trimmed value; a line without a colon yields nothing.
pub fn parse_header_line(line: &[u8]) -> (r: Option<(Vec<u8>, Vec<u8>)>)
    ensures
        match spec_parse_line(line@) {
            Some(kv) => r matches Some(p) && p.0@ == kv.0 && p.1@ == kv.1,
            None => r is None,
        },
{
    let n = line.len();
    let mut i: usize = 0;
    while i < n && line[i] != 0x3A
        invariant
            i <= n,
            n == line@.len(),
            forall|j: int| 0 <= j < i ==> line@[j] != 0x3A,
        decreases n - i,
    {
        i += 1;
    }
    proof {
        lemma_colon_pos(line@);
        assert(spec_colon_pos(line@) == i);
    }
    if i == n {
        return None;
    }
    let key_raw = trim_bytes(&line[0..i]);
    let key = lower_bytes(key_raw.as_slice());
    let value = trim_bytes(&line[i + 1..n]);
    Some((key, value))
}

/// The byte sequences of a sequence of line buffers.
pub open spec fn lines_view(ls: Seq<Vec<u8>>) -> Seq<Seq<u8>> {
    Seq::new(ls.len(), |i: int| ls[i]@)
}

/// The byte sequences of a sequence of header entries.
pub open spec fn entries_view(h: Seq<(Vec<u8>, Vec<u8>)>) -> Seq<(Seq<u8>, Seq<u8>)> {
    Seq::new(h.len(), |i: int| (h[i].0@, h[i].1@))
}

/// The header entries of the given lines, in order, one entry per line that
/// carries a colon.
pub open spec fn spec_header_entries(lines: Seq<Seq<u8>>) -> Seq<(Seq<u8>, Seq<u8>)>
    decreases lines.len(),
{
    if lines.len() == 0 {
        Seq::empty()
    } else {
        let rest = spec_header_entries(lines.drop_last());
        match spec_parse_line(lines.last()) {
            Some(kv) => rest.push(kv),
            None => rest,
        }
    }
}

/// The value stored for a key, the last entry with that key winning, as
/// storing lines one by one in a map with overwriting would leave it.
pub open spec fn spec_lookup(entries: Seq<(Seq<u8>, Seq<u8>)>, key: Seq<u8>) -> Option<Seq<u8>>
    decreases entries.len(),
{
    if entries.len() == 0 {
        None
    } else if entries.last().0 == key {
        Some(entries.last().1)
    } else {
        spec_lookup(entries.drop_last(), key)
    }
}

/// Parses every header line into the entry list that lookups run against.
pub fn collect_headers(lines: &Vec<Vec<u8>>) -> (r: Vec<(Vec<u8>, Vec<u8>)>)
    ensures
        entries_view(r@) == spec_header_entries(lines_view(lines@)),
{
    let n = lines.len();
    let mut out: Vec<(Vec<u8>, Vec<u8>)> = Vec::new();
    let mut i: usize = 0;
    while i < n
        invariant
            i <= n,
            n == lines@.len(),
            entries_view(out@) == spec_header_entries(lines_view(lines@).take(i as int)),
        decreases n - i,
    {
        let ghost prefix = lines_view(lines@).take(i as int);
        let ghost prev = entries_view(out@);
        if let Some(kv) = parse_header_line(lines[i].as_slice()) {
            out.push(kv);
        }
        proof {
            let cur = lines_view(lines@).take(i + 1);
            assert(cur.drop_last() =~= prefix);
            assert(cur.last() == lines@[i as int]@);
            assert(entries_view(out@) =~= spec_header_entries(cur));
        }
        i += 1;
    }
    proof {
        assert(lines_view(lines@).take(n as int) =~= lines_view(lines@));
    }
    out
}

fn bytes_eq(a: &[u8], b: &[u8]) -> (r: bool)
    ensures
        r == (a@ == b@),
{
    let n = a.len();
    if n != b.len() {
        return false;
    }
    let mut i: usize = 0;
    while i < n
        invariant
            i <= n,
            n == a@.len() && n == b@.len(),
            forall|j: int| 0 <= j < i ==> a@[j] == b@[j],
        decreases n - i,
    {
        if a[i] != b[i] {
            return false;
        }
        i += 1;
    }
    proof {
        assert(a@ =~= b@);
    }
    true
}

/// Finds the stored value for a key, the last entry with that key winning.
pub fn lookup_header(headers: &Vec<(Vec<u8>, Vec<u8>)>, key: &[u8]) -> (r: Option<Vec<u8>>)
    ensures
        match spec_lookup(entries_view(headers@), key@) {
            Some(v) => r matches Some(rv) && rv@ == v,
            None => r is None,
        },
{
    let mut i: usize = headers.len();
    proof {
        assert(entries_view(headers@).take(i as int) =~= entries_view(headers@));
    }
    while i > 0
        invariant
            i <= headers@.len(),
            spec_lookup(entries_view(headers@), key@) == spec_lookup(
                entries_view(headers@).take(i as int),
                key@,
            ),
        decreases i,
    {
        let entry = &headers[i - 1];
        proof {
            let taken = entries_view(headers@).take(i as int);
            assert(taken.last() == (headers@[i - 1].0@, headers@[i - 1].1@));
            assert(taken.drop_last() =~= entries_view(headers@).take(i - 1));
        }
        if bytes_eq(entry.0.as_slice(), key) {
            return Some(entry.1.clone());
        }
        i -= 1;
    }
    proof {
        assert(entries_view(headers@).take(0) =~= Seq::<(Seq<u8>, Seq<u8>)>::empty());
    }
    None
}

/// The SHA-1 digest of a byte sequence, named here and computed only by the
/// outside hashing crate.
pub uninterp spec fn sha1_of(data: Seq<u8>) -> Seq<u8>;

/// Relies on sha1::Sha1::digest, the one-shot SHA-1 API: the digest is 20
/// bytes and a function of the input bytes alone.
#[verifier::external_body]
fn sha1_digest(data: &Vec<u8>) -> (r: Vec<u8>)
    ensures
        r@ == sha1_of(data@),
        r@.len() == 20,
{
    <sha1::Sha1 as sha1::Digest>::digest(data.as_slice()).to_vec()
}

/// The Base64 encoding of a byte sequence under the standard alphabet with
/// padding, named here and computed only by the outside encoding crate.
pub uninterp spec fn base64_of(data: Seq<u8>) -> Seq<u8>;

/// Relies on base64::Engine::encode with the standard-alphabet padded
/// engine: the encoding is a function of the input bytes alone and fills 4
/// output bytes for every 3 input bytes begun. The length bound keeps the
/// output-size computation from overflowing.
#[verifier::external_body]
fn base64_encode(data: &Vec<u8>) -> (r: Vec<u8>)
    requires
        data@.len() <= usize::MAX / 4,
    ensures
        r@ == base64_of(data@),
        r@.len() == 4 * ((data@.len() + 2) / 3),
{
    base64::Engine::encode(&base64::engine::general_purpose::STANDARD, data.as_slice())
        .into_bytes()
}

/// The accept value derived from a handshake key: the Base64 encoding of the
/// SHA-1 digest of the key followed by the fixed protocol GUID.
pub open spec fn spec_accept(key: Seq<u8>) -> Seq<u8> {
    base64_of(sha1_of(key + ascii_of("258EAFA5-E914-47DA-95CA-C5AB0DC85B11"@)))
}

/// Computes the accept value that proves a handshake key was processed:
/// Base64 of the SHA-1 digest of the key concatenated with the fixed GUID —
/// 28 bytes, the encoding of a 20-byte digest.
pub fn generate_accept_value(key: &[u8]) -> (r: Vec<u8>)
    ensures
        r@ == spec_accept(key@),
        r@.len() == 28,
{
    proof {
        reveal_strlit("258EAFA5-E914-47DA-95CA-C5AB0DC85B11");
        assert(vstd::string::is_ascii("258EAFA5-E914-47DA-95CA-C5AB0DC85B11"));
    }
    let mut input = vstd::slice::slice_to_vec(key);
    let mut guid = lit_bytes("258EAFA5-E914-47DA-95CA-C5AB0DC85B11");
    input.append(&mut guid);
    let digest = sha1_digest(&input);
    base64_encode(&digest)
}

/// Generates a fresh handshake key: 16 random bytes, Base64-encoded.
pub fn generate_random_key() -> (r: Vec<u8>)
    ensures
        r@.len() == 24,
        exists|b: Seq<u8>| b.len() == 16 && r@ == base64_of(b),
{
    let mut raw: Vec<u8> = Vec::new();
    let c0 = crate::mask::random_mask();
    raw.push(c0[0]);
    raw.push(c0[1]);
    raw.push(c0[2]);
    raw.push(c0[3]);
    let c1 = crate::mask::random_mask();
    raw.push(c1[0]);
    raw.push(c1[1]);
    raw.push(c1[2]);
    raw.push(c1[3]);
    let c2 = crate::mask::random_mask();
    raw.push(c2[0]);
    raw.push(c2[1]);
    raw.push(c2[2]);
    raw.push(c2[3]);
    let c3 = crate::mask::random_mask();
    raw.push(c3[0]);
    raw.push(c3[1]);
    raw.push(c3[2]);
    raw.push(c3[3]);
    let r = base64_encode(&raw);
    proof {
        assert(raw@.len() == 16 && r@ == base64_of(raw@));
    }
    r
}

/// The server's upgrade response carrying an accept value.
pub open spec fn spec_server_response(accept: Seq<u8>) -> Seq<u8> {
    ascii_of(
        "HTTP/1.1 101 Switching Protocols\r\nUpgrade: websocket\r\nConnection: Upgrade\r\nSec-WebSocket-Accept: "@,
    ) + accept + ascii_of("\r\n\r\n"@)
}

/// Computes the server's side of the handshake from the request's header
/// lines: the sec-websocket-key header must be present, and the upgrade
/// response carries the accept value computed from it. Its absence is a
/// protocol error.
#[verifier::rlimit(50)]
pub fn server_handshake_reply(lines: &Vec<Vec<u8>>) -> (r: Result<Vec<u8>, Error>)
    ensures
        r is Ok <==> spec_lookup(
            spec_header_entries(lines_view(lines@)),
            ascii_of("sec-websocket-key"@),
        ) is Some,
        r matches Ok(resp) ==> (spec_lookup(
            spec_header_entries(lines_view(lines@)),
            ascii_of("sec-websocket-key"@),
        ) matches Some(k) && resp@ == spec_server_response(spec_accept(k))),
        r matches Err(e) ==> (e matches Error::Protocol(m) && m@
            == "Missing Sec-WebSocket-Key header"@),
{
    let headers = collect_headers(lines);
    proof {
        reveal_strlit("sec-websocket-key");
        assert(vstd::string::is_ascii("sec-websocket-key"));
    }
    let key_name = lit_bytes("sec-websocket-key");
    match lookup_header(&headers, key_name.as_slice()) {
        None => Err(Error::Protocol("Missing Sec-WebSocket-Key header".to_owned())),
        Some(key) => {
            let mut accept = generate_accept_value(key.as_slice());
            proof {
                reveal_strlit(
                    "HTTP/1.1 101 Switching Protocols\r\nUpgrade: websocket\r\nConnection: Upgrade\r\nSec-WebSocket-Accept: ",
                );
                assert(vstd::string::is_ascii(
                    "HTTP/1.1 101 Switching Protocols\r\nUpgrade: websocket\r\nConnection: Upgrade\r\nSec-WebSocket-Accept: ",
                ));
                reveal_strlit("\r\n\r\n");
                assert(vstd::string::is_ascii("\r\n\r\n"));
            }
            let mut resp = lit_bytes(
                "HTTP/1.1 101 Switching Protocols\r\nUpgrade: websocket\r\nConnection: Upgrade\r\nSec-WebSocket-Accept: ",
            );
            resp.append(&mut accept);
            let mut tail = lit_bytes("\r\n\r\n");
            resp.append(&mut tail);
            Ok(resp)
        },
    }
}

/// The client's upgrade request carrying a handshake key.
pub open spec fn spec_client_request(key: Seq<u8>) -> Seq<u8> {
    ascii_of(
        "GET / HTTP/1.1\r\nHost: server.example.com\r\nUpgrade: websocket\r\nConnection: Upgrade\r\nSec-WebSocket-Key: "@,
    ) + key + ascii_of("\r\nSec-WebSocket-Version: 13\r\n\r\n"@)
}

/// Builds the client's upgrade request around the given handshake key.
#[verifier::rlimit(50)]
pub fn client_request(key: &[u8]) -> (r: Vec<u8>)
    ensures
        r@ == spec_client_request(key@),
{
    proof {
        reveal_strlit(
            "GET / HTTP/1.1\r\nHost: server.example.com\r\nUpgrade: websocket\r\nConnection: Upgrade\r\nSec-WebSocket-Key: ",
        );
        assert(vstd::string::is_ascii(
            "GET / HTTP/1.1\r\nHost: server.example.com\r\nUpgrade: websocket\r\nConnection: Upgrade\r\nSec-WebSocket-Key: ",
        ));
        reveal_strlit("\r\nSec-WebSocket-Version: 13\r\n\r\n");
        assert(vstd::string::is_ascii("\r\nSec-WebSocket-Version: 13\r\n\r\n"));
    }
    let mut req = lit_bytes(
        "GET / HTTP/1.1\r\nHost: server.example.com\r\nUpgrade: websocket\r\nConnection: Upgrade\r\nSec-WebSocket-Key: ",
    );
    let mut middle = vstd::slice::slice_to_vec(key);
    req.append(&mut middle);
    let mut tail = lit_bytes("\r\nSec-WebSocket-Version: 13\r\n\r\n");
    req.append(&mut tail);
    req
}

/// Validates the server's response header lines against the locally
/// generated key: the sec-websocket-accept header must be present and must
/// equal, byte for byte, the accept value computed from the key. A missing
/// header and a mismatched value are distinct protocol errors.
pub fn client_check_accept(key: &[u8], lines: &Vec<Vec<u8>>) -> (r: Result<(), Error>)
    ensures
        r is Ok <==> (spec_lookup(
            spec_header_entries(lines_view(lines@)),
            ascii_of("sec-websocket-accept"@),
        ) matches Some(v) && v == spec_accept(key@)),
        spec_lookup(spec_header_entries(lines_view(lines@)), ascii_of("sec-websocket-accept"@))
            is None ==> (r matches Err(Error::Protocol(m)) && m@
            == "Missing Sec-WebSocket-Accept header"@),
        (spec_lookup(spec_header_entries(lines_view(lines@)), ascii_of("sec-websocket-accept"@))
            matches Some(v) && v != spec_accept(key@)) ==> (r matches Err(Error::Protocol(m)) && m@
            == "Invalid Sec-WebSocket-Accept value"@),
{
    let headers = collect_headers(lines);
    proof {
        reveal_strlit("sec-websocket-accept");
        assert(vstd::string::is_ascii("sec-websocket-accept"));
    }
    let accept_name = lit_bytes("sec-websocket-accept");
    match lookup_header(&headers, accept_name.as_slice()) {
        None => Err(Error::Protocol("Missing Sec-WebSocket-Accept header".to_owned())),
        Some(received) => {
            let expected = generate_accept_value(key);
            if bytes_eq(received.as_slice(), expected.as_slice()) {
                Ok(())
            } else {
                Err(Error::Protocol("Invalid Sec-WebSocket-Accept value".to_owned()))
            }
        },
    }
}

} // verus!
