//! The decisions of the HTTP API: request defaults, the answers for missing
//! sandboxes and parameters, and API-key checking.
use vstd::prelude::*;
use vstd::utf8::*;
use crate::config::VmDefaults;
use crate::encoding::{percent_decode_utf8, percent_decoded};
use crate::error::{AppError, RemoveSandboxError};
use crate::sandbox::SandboxConfig;
use crate::text::{append_decimal, chars_of, decimal, str_eq, string_of};

verus! {

/// Body of a sandbox creation request; every field is optional.
#[derive(Debug, Clone, Copy)]
pub struct CreateSandboxRequest {
    pub memory_mb: Option<u32>,
    pub vcpus: Option<u32>,
    pub network: Option<bool>,
    pub disk_size_mb: Option<u32>,
    pub timeout: Option<u64>,
}

/// Body of a command request.
#[derive(Debug, Clone)]
pub struct ExecRequest {
    pub command: String,
    pub timeout: Option<u64>,
}

/// Query of the file endpoints.
#[derive(Debug, Clone)]
pub struct FilesQuery {
    pub path: Option<String>,
    pub list: Option<bool>,
}

/// Body of a signal request.
#[derive(Debug, Clone, Copy)]
pub struct SignalRequest {
    pub signal: i32,
}

/// Body of a port-forward request.
#[derive(Debug, Clone, Copy)]
pub struct CreatePortForwardRequest {
    pub guest_port: u16,
}

/// `x` limited to `[lo, hi]` (`Ord::clamp`).
pub open spec fn clamp(x: u32, lo: u32, hi: u32) -> u32 {
    if x < lo {
        lo
    } else if x > hi {
        hi
    } else {
        x
    }
}

/// Smallest disk a sandbox gets, in MB.
pub const MIN_DISK_MB: u32 = 512;

/// Largest disk a sandbox gets, in MB.
pub const MAX_DISK_MB: u32 = 2048;

/// Seconds a command may run when the request does not say.
pub const DEFAULT_EXEC_TIMEOUT_SECS: u64 = 30;

impl CreateSandboxRequest {
    /// The settings of the sandbox to create: each missing field takes the
    /// configured default, and the disk size is held between 512 and 2048 MB.
    pub fn resolve(&self, defaults: &VmDefaults) -> (c: SandboxConfig)
        ensures
            c.memory_mb == (match self.memory_mb {
                Some(v) => v,
                None => defaults.memory_mb,
            }),
            c.vcpus == (match self.vcpus {
                Some(v) => v,
                None => defaults.vcpus,
            }),
            c.network == (match self.network {
                Some(v) => v,
                None => defaults.network,
            }),
            c.disk_size_mb == clamp(
                match self.disk_size_mb {
                    Some(v) => v,
                    None => defaults.disk_size_mb,
                },
                MIN_DISK_MB,
                MAX_DISK_MB,
            ),
            c.timeout_secs == (match self.timeout {
                Some(v) => v,
                None => defaults.timeout_secs,
            }),
    {
        let disk = match self.disk_size_mb {
            Some(v) => v,
            None => defaults.disk_size_mb,
        };
        let disk = if disk < MIN_DISK_MB {
            MIN_DISK_MB
        } else if disk > MAX_DISK_MB {
            MAX_DISK_MB
        } else {
            disk
        };
        SandboxConfig {
            memory_mb: match self.memory_mb {
                Some(v) => v,
                None => defaults.memory_mb,
            },
            vcpus: match self.vcpus {
                Some(v) => v,
                None => defaults.vcpus,
            },
            network: match self.network {
                Some(v) => v,
                None => defaults.network,
            },
            disk_size_mb: disk,
            timeout_secs: match self.timeout {
                Some(v) => v,
                None => defaults.timeout_secs,
            },
        }
    }
}

impl ExecRequest {
    /// The command's time limit in seconds: as requested, else 30.
    pub fn timeout_secs(&self) -> (t: u64)
        ensures
            t == (match self.timeout {
                Some(v) => v,
                None => DEFAULT_EXEC_TIMEOUT_SECS,
            }),
    {
        match self.timeout {
            Some(v) => v,
            None => DEFAULT_EXEC_TIMEOUT_SECS,
        }
    }
}

impl FilesQuery {
    /// The path to read or list: as given, else `/workspace`.
    pub fn path_or_workspace(&self) -> (p: String)
        ensures
            p@ == (match self.path {
                Some(s) => s@,
                None => "/workspace"@,
            }),
    {
        match &self.path {
            Some(s) => s.clone(),
            None => "/workspace".to_owned(),
        }
    }

    /// Whether a listing (rather than the file's bytes) is wanted.
    pub fn wants_listing(&self) -> (b: bool)
        ensures
            b == (self.list == Some(true)),
    {
        match self.list {
            Some(b) => b,
            None => false,
        }
    }

    /// The path a delete or mkdir needs; refused with 400 when missing.
    pub fn required_path(&self) -> (r: Result<String, AppError>)
        ensures
            match self.path {
                Some(s) => r matches Ok(p) && p@ == s@,
                None => r matches Err(e) && e@ == (400u16, "Missing 'path' query parameter"@),
            },
    {
        match &self.path {
            Some(s) => Ok(s.clone()),
            None => Err(AppError::BadRequest("Missing 'path' query parameter".to_owned())),
        }
    }
}

impl CreatePortForwardRequest {
    /// Port 0 cannot be forwarded.
    pub fn check_port(&self) -> (r: Result<(), AppError>)
        ensures
            r is Ok <==> self.guest_port != 0,
            r matches Err(e) ==> e@ == (400u16, "guest_port must be between 1 and 65535"@),
    {
        if self.guest_port == 0 {
            Err(AppError::BadRequest("guest_port must be between 1 and 65535".to_owned()))
        } else {
            Ok(())
        }
    }
}

/// Where an upload goes: the given path, or `/workspace/upload` when empty.
pub fn upload_target(path: String) -> (p: String)
    ensures
        p@ == (if path@.len() == 0 {
            "/workspace/upload"@
        } else {
            path@
        }),
{
    if path.as_str().is_empty() {
        "/workspace/upload".to_owned()
    } else {
        path
    }
}

/// The answer for an unknown sandbox id.
pub fn sandbox_not_found() -> (e: AppError)
    ensures
        e@ == (404u16, "Sandbox not found"@),
{
    AppError::NotFound("Sandbox not found".to_owned())
}

/// The answer when a sandbox cannot be destroyed.
pub fn destroy_refusal(e: RemoveSandboxError) -> (a: AppError)
    ensures
        e == RemoveSandboxError::NotFound ==> a@ == (404u16, "Sandbox not found"@),
        e == RemoveSandboxError::InUse ==> a@ == (
            400u16,
            "Sandbox is currently in use by another request"@,
        ),
{
    match e {
        RemoveSandboxError::NotFound => AppError::NotFound("Sandbox not found".to_owned()),
        RemoveSandboxError::InUse => AppError::BadRequest(
            "Sandbox is currently in use by another request".to_owned(),
        ),
    }
}

/// The answer when no forward exists for a guest port.
pub fn forward_not_found(guest_port: u16) -> (e: AppError)
    ensures
        e@ == (404u16, "Port forward for port "@ + decimal(guest_port as nat) + " not found"@),
{
    let mut m = "Port forward for port ".to_owned();
    append_decimal(&mut m, guest_port as u64);
    m.append(" not found");
    AppError::NotFound(m)
}

/// The pieces of `s` between occurrences of `sep` (`str::split`).
pub open spec fn split_on(s: Seq<char>, sep: char) -> Seq<Seq<char>>
    decreases s.len(),
{
    if s.len() == 0 {
        seq![Seq::<char>::empty()]
    } else {
        let p = split_on(s.drop_last(), sep);
        if s.last() == sep {
            p.push(Seq::<char>::empty())
        } else {
            p.update(p.len() - 1, p[p.len() - 1].push(s.last()))
        }
    }
}

/// The `Bearer ` prefix of an authorization header.
pub open spec fn bearer_prefix() -> Seq<char> {
    seq!['B', 'e', 'a', 'r', 'e', 'r', ' ']
}

/// The `token=` prefix of a query parameter.
pub open spec fn token_prefix() -> Seq<char> {
    seq!['t', 'o', 'k', 'e', 'n', '=']
}

/// A raw query value, percent-decoded and read as UTF-8.
pub open spec fn decoded_token(raw: Seq<char>) -> Option<Seq<char>> {
    let b = percent_decoded(encode_utf8(raw));
    if valid_utf8(b) {
        Some(decode_utf8(b))
    } else {
        None
    }
}

/// Whether one query piece is `token=<key>`, the value percent-decoded.
pub open spec fn piece_presents_key(piece: Seq<char>, key: Seq<char>) -> bool {
    piece.len() >= 6 && piece.take(6) == token_prefix() && decoded_token(piece.skip(6)) == Some(key)
}

/// Whether some piece of `pieces` is `token=<key>`.
pub open spec fn some_piece_presents(pieces: Seq<Seq<char>>, key: Seq<char>) -> bool
    decreases pieces.len(),
{
    pieces.len() > 0 && (some_piece_presents(pieces.drop_last(), key) || piece_presents_key(
        pieces.last(),
        key,
    ))
}

/// Whether the request carries `key`, either as `Authorization: Bearer <key>`
/// or as a `token=<key>` query parameter (percent-encoded).
pub open spec fn presents_key(key: Seq<char>, authorization: Option<Seq<char>>, query: Option<Seq<char>>) -> bool {
    ||| (authorization matches Some(h) && h.len() >= 7 && h.take(7) == bearer_prefix() && h.skip(7)
        == key)
    ||| (query matches Some(q) && some_piece_presents(split_on(q, '&'), key))
}

/// Law: a request whose `Authorization` header is `Bearer ` followed by the
/// key is accepted, whatever its query.
pub proof fn law_bearer_key_is_accepted(key: Seq<char>, query: Option<Seq<char>>)
    ensures
        presents_key(key, Some(bearer_prefix() + key), query),
{
    let h = bearer_prefix() + key;
    assert(h.take(7) =~= bearer_prefix());
    assert(h.skip(7) =~= key);
}

/// Law: a bearer header presents the key only when everything after
/// `Bearer ` is the key itself, nothing shorter or longer: without a query,
/// `Bearer t` is accepted exactly when `t` is the key, and a header that does
/// not start with `Bearer ` is never accepted.
pub proof fn law_bearer_needs_the_exact_key(key: Seq<char>, t: Seq<char>, h: Seq<char>)
    ensures
        presents_key(key, Some(bearer_prefix() + t), None) <==> t == key,
        !(h.len() >= 7 && h.take(7) == bearer_prefix()) ==> !presents_key(key, Some(h), None),
{
    let b = bearer_prefix() + t;
    assert(b.take(7) =~= bearer_prefix());
    assert(b.skip(7) =~= t);
}

proof fn lemma_split_without_separator(s: Seq<char>, sep: char)
    requires
        !s.contains(sep),
    ensures
        split_on(s, sep) == seq![s],
    decreases s.len(),
{
    if s.len() > 0 {
        assert(!s.drop_last().contains(sep)) by {
            if s.drop_last().contains(sep) {
                let i = choose|i: int| 0 <= i < s.drop_last().len() && s.drop_last()[i] == sep;
                assert(s[i] == sep);
            }
        }
        lemma_split_without_separator(s.drop_last(), sep);
        assert(s.last() != sep) by {
            assert(s[s.len() - 1] == s.last());
        }
        let p = split_on(s.drop_last(), sep);
        assert(p.len() == 1 && p[0] == s.drop_last());
        assert(split_on(s, sep) == p.update(0, s.drop_last().push(s.last())));
        assert(s.drop_last().push(s.last()) =~= s);
        assert(seq![s.drop_last()].update(0, s) =~= seq![s]);
    } else {
        assert(s =~= Seq::<char>::empty());
    }
}

proof fn lemma_percent_free_bytes_decode_to_themselves(b: Seq<u8>)
    requires
        forall|i: int| 0 <= i < b.len() ==> b[i] != 37,
    ensures
        percent_decoded(b) == b,
    decreases b.len(),
{
    if b.len() > 0 {
        let rest = b.subrange(1, b.len() as int);
        assert(b[0] != 37);
        assert forall|i: int| 0 <= i < rest.len() implies rest[i] != 37 by {
            assert(rest[i] == b[i + 1]);
        }
        lemma_percent_free_bytes_decode_to_themselves(rest);
        assert(seq![b[0]] + rest =~= b);
    }
}

proof fn lemma_scalar_without_percent_byte(v: u32)
    requires
        v != 37,
        is_scalar(v),
    ensures
        forall|i: int| 0 <= i < encode_scalar(v).len() ==> encode_scalar(v)[i] != 37,
{
    let e = encode_scalar(v);
    if has_width_1_encoding(v) {
        assert((v & 0x7F) as u8 != 37) by (bit_vector)
            requires
                v <= 0x7F,
                v != 37,
        ;
    } else {
        assert(0xC0 | ((v >> 6) & 0x1F) as u8 != 37) by (bit_vector);
        assert(0xE0 | ((v >> 12) & 0x0F) as u8 != 37) by (bit_vector);
        assert(0xF0 | ((v >> 18) & 0x7) as u8 != 37) by (bit_vector);
        assert(0x80 | (v & 0x3F) as u8 != 37) by (bit_vector);
        assert(0x80 | ((v >> 6) & 0x3F) as u8 != 37) by (bit_vector);
        assert(0x80 | ((v >> 12) & 0x3F) as u8 != 37) by (bit_vector);
    }
}

proof fn lemma_encoding_without_percent_byte(chars: Seq<char>)
    requires
        !chars.contains('%'),
    ensures
        forall|i: int| 0 <= i < encode_utf8(chars).len() ==> encode_utf8(chars)[i] != 37,
    decreases chars.len(),
{
    if chars.len() > 0 {
        let c = chars[0];
        assert(c != '%');
        assert('%' as u32 == 37);
        vstd::utf8::char_u32_cast(c, c as u32);
        vstd::utf8::char_u32_cast('%', '%' as u32);
        assert(c as u32 != 37);
        vstd::utf8::char_is_scalar(c);
        lemma_scalar_without_percent_byte(c as u32);
        assert(!chars.drop_first().contains('%')) by {
            if chars.drop_first().contains('%') {
                let i = choose|i: int|
                    0 <= i < chars.drop_first().len() && chars.drop_first()[i] == '%';
                assert(chars[i + 1] == '%');
            }
        }
        lemma_encoding_without_percent_byte(chars.drop_first());
        let head = encode_scalar(c as u32);
        let tail = encode_utf8(chars.drop_first());
        assert(encode_utf8(chars) == head + tail);
        assert forall|i: int| 0 <= i < encode_utf8(chars).len() implies encode_utf8(chars)[i] != 37 by {
            if i < head.len() {
                assert(encode_utf8(chars)[i] == head[i]);
            } else {
                assert(encode_utf8(chars)[i] == tail[i - head.len()]);
            }
        }
    }
}

/// Law: a request whose query is `token=` followed by the key is accepted,
/// whatever its headers, when the key holds no `&` and no `%` (so it needs
/// no escaping in a query).
pub proof fn law_token_query_is_accepted(key: Seq<char>, authorization: Option<Seq<char>>)
    requires
        !key.contains('&'),
        !key.contains('%'),
    ensures
        presents_key(key, authorization, Some(token_prefix() + key)),
{
    let q = token_prefix() + key;
    assert(!q.contains('&')) by {
        if q.contains('&') {
            let i = choose|i: int| 0 <= i < q.len() && q[i] == '&';
            if i < 6 {
                assert(token_prefix()[i] == '&');
            } else {
                assert(key[i - 6] == '&');
            }
        }
    }
    lemma_split_without_separator(q, '&');
    let pieces = split_on(q, '&');
    assert(pieces.drop_last() =~= Seq::<Seq<char>>::empty());
    assert(q.take(6) =~= token_prefix());
    assert(q.skip(6) =~= key);
    lemma_encoding_without_percent_byte(key);
    lemma_percent_free_bytes_decode_to_themselves(encode_utf8(key));
    encode_utf8_valid_utf8(key);
    encode_utf8_decode_utf8(key);
    assert(piece_presents_key(q, key));
    assert(some_piece_presents(pieces, key));
}

fn has_prefix_chars(v: &Vec<char>, p: &Vec<char>) -> (b: bool)
    ensures
        b == (v@.len() >= p@.len() && v@.take(p@.len() as int) == p@),
{
    if v.len() < p.len() {
        return false;
    }
    let mut i: usize = 0;
    while i < p.len()
        invariant
            i <= p.len(),
            p.len() <= v.len(),
            forall|k: int| 0 <= k < i ==> v@[k] == p@[k],
        decreases p.len() - i,
    {
        if v[i] != p[i] {
            assert(v@.take(p@.len() as int)[i as int] != p@[i as int]);
            return false;
        }
        i += 1;
    }
    assert(v@.take(p@.len() as int) =~= p@);
    true
}

fn tail_from(v: &Vec<char>, start: usize) -> (r: Vec<char>)
    requires
        start <= v.len(),
    ensures
        r@ == v@.skip(start as int),
{
    let mut r: Vec<char> = Vec::new();
    let mut i = start;
    while i < v.len()
        invariant
            start <= i <= v.len(),
            r@ == v@.subrange(start as int, i as int),
        decreases v.len() - i,
    {
        r.push(v[i]);
        assert(r@ =~= v@.subrange(start as int, i + 1));
        i += 1;
    }
    assert(r@ =~= v@.skip(start as int));
    r
}

/// Whether one query piece is `token=<key>`.
fn piece_presents(piece: &Vec<char>, key: &str) -> (b: bool)
    ensures
        b == piece_presents_key(piece@, key@),
{
    let prefix = vec!['t', 'o', 'k', 'e', 'n', '='];
    assert(prefix@ =~= token_prefix());
    if !has_prefix_chars(piece, &prefix) {
        return false;
    }
    let raw = string_of(&tail_from(piece, 6));
    match percent_decode_utf8(raw.as_str()) {
        Some(token) => str_eq(token.as_str(), key),
        None => false,
    }
}

/// Decides whether a request may use the protected API: always when no key
/// is configured; otherwise only when it presents the key.
pub fn api_key_accepted(expected: &Option<String>, authorization: Option<&str>, query: Option<&str>) -> (b: bool)
    ensures
        b == (match expected {
            None => true,
            Some(k) => presents_key(
                k@,
                match authorization {
                    Some(h) => Some(h@),
                    None => None,
                },
                match query {
                    Some(q) => Some(q@),
                    None => None,
                },
            ),
        }),
{
    let key = match expected {
        None => return true,
        Some(k) => k,
    };
    let ghost auth_v: Option<Seq<char>> = match authorization {
        Some(h) => Some(h@),
        None => None,
    };
    let ghost query_v: Option<Seq<char>> = match query {
        Some(q) => Some(q@),
        None => None,
    };
    let header_ok = match authorization {
        Some(h) => {
            let hv = chars_of(h);
            let prefix = vec!['B', 'e', 'a', 'r', 'e', 'r', ' '];
            assert(prefix@ =~= bearer_prefix());
            if has_prefix_chars(&hv, &prefix) {
                let rest = string_of(&tail_from(&hv, 7));
                str_eq(rest.as_str(), key.as_str())
            } else {
                false
            }
        },
        None => false,
    };
    if header_ok {
        return true;
    }
    match query {
        None => false,
        Some(q) => {
            let qv = chars_of(q);
            let ghost mut done: Seq<Seq<char>> = Seq::empty();
            let mut cur: Vec<char> = Vec::new();
            let mut found = false;
            let mut i: usize = 0;
            while i < qv.len()
                invariant
                    i <= qv.len(),
                    qv@ == q@,
                    done.push(cur@) == split_on(q@.take(i as int), '&'),
                    found == some_piece_presents(done, key@),
                decreases qv.len() - i,
            {
                let c = qv[i];
                assert(q@.take(i + 1).drop_last() =~= q@.take(i as int));
                if c == '&' {
                    let hit = piece_presents(&cur, key.as_str());
                    let ghost d0 = done;
                    proof {
                        done = done.push(cur@);
                        assert(done.drop_last() =~= d0);
                    }
                    found = found || hit;
                    cur = Vec::new();
                    assert(done.push(cur@) =~= split_on(q@.take(i + 1), '&'));
                } else {
                    let ghost before = cur@;
                    cur.push(c);
                    assert(done.push(cur@) =~= split_on(q@.take(i as int), '&').update(
                        done.len() as int,
                        before.push(c),
                    ));
                }
                i += 1;
            }
            assert(q@.take(qv.len() as int) =~= q@);
            let hit = piece_presents(&cur, key.as_str());
            proof {
                let all = done.push(cur@);
                assert(all.drop_last() =~= done);
                assert(all == split_on(q@, '&'));
            }
            found || hit
        },
    }
}

} // verus!
