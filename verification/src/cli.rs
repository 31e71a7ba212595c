//! The command-line client's pure parts: the daemon URL it talks to, the
//! command line it sends, and the message it shows for a refused request.
use vstd::prelude::*;
use crate::error::concat;
use crate::text::{chars_of, string_of};

verus! {

/// `s` without its trailing `c` characters (`str::trim_end_matches`).
pub open spec fn trim_end(s: Seq<char>, c: char) -> Seq<char>
    decreases s.len(),
{
    if s.len() > 0 && s.last() == c {
        trim_end(s.drop_last(), c)
    } else {
        s
    }
}

/// The daemon's base URL as the client keeps it: trailing slashes removed.
pub fn base_url(raw: &str) -> (u: String)
    ensures
        u@ == trim_end(raw@, '/'),
{
    let cs = chars_of(raw);
    let mut n = cs.len();
    assert(cs@.take(n as int) =~= raw@);
    while n > 0 && cs[n - 1] == '/'
        invariant
            n <= cs.len(),
            cs@ == raw@,
            trim_end(cs@.take(n as int), '/') == trim_end(raw@, '/'),
        decreases n,
    {
        assert(cs@.take(n as int).drop_last() =~= cs@.take(n - 1));
        n -= 1;
    }
    let mut out: Vec<char> = Vec::new();
    let mut i: usize = 0;
    while i < n
        invariant
            i <= n,
            n <= cs.len(),
            out@ == cs@.take(i as int),
        decreases n - i,
    {
        out.push(cs[i]);
        assert(cs@.take(i as int).push(cs@[i as int]) =~= cs@.take(i + 1));
        i += 1;
    }
    assert(trim_end(cs@.take(n as int), '/') == cs@.take(n as int));
    string_of(&out)
}

/// The URL of an API path.
pub fn endpoint_url(base: &str, path: &str) -> (u: String)
    ensures
        u@ == base@ + path@,
{
    concat(base, path)
}

/// The error the client reports for an unsuccessful reply: the status line
/// with the reply's `error` string when it is JSON with one, otherwise with
/// the whole body.
pub fn server_error_message(status: &str, body: &str, error_field: Option<&str>) -> (m: String)
    ensures
        m@ == "Server error ("@ + status@ + "): "@ + (match error_field {
            Some(e) => e@,
            None => body@,
        }),
{
    let mut m = concat("Server error (", status);
    m.append("): ");
    match error_field {
        Some(e) => m.append(e),
        None => m.append(body),
    }
    m
}

/// The words joined by single spaces (`[String]::join(" ")`).
pub open spec fn join_words(words: Seq<Seq<char>>) -> Seq<char>
    decreases words.len(),
{
    if words.len() == 0 {
        Seq::empty()
    } else if words.len() == 1 {
        words[0]
    } else {
        join_words(words.drop_last()) + " "@ + words.last()
    }
}

/// The views of a list of strings.
pub open spec fn word_views(v: Seq<String>) -> Seq<Seq<char>> {
    v.map_values(|w: String| w@)
}

/// The command line sent for `agentbox exec`: its words joined by spaces.
pub fn join_command(words: &Vec<String>) -> (s: String)
    ensures
        s@ == join_words(word_views(words@)),
{
    let mut s = String::new();
    let mut i: usize = 0;
    while i < words.len()
        invariant
            i <= words.len(),
            s@ == join_words(word_views(words@.take(i as int))),
        decreases words.len() - i,
    {
        if i > 0 {
            s.append(" ");
        }
        s.append(words[i].as_str());
        proof {
            let t = word_views(words@.take(i + 1));
            assert(t.drop_last() =~= word_views(words@.take(i as int)));
            assert(t.last() == words@[i as int]@);
            if i == 0 {
                assert(join_words(word_views(words@.take(0))) =~= Seq::<char>::empty());
            }
        }
        i += 1;
    }
    assert(words@.take(words.len() as int) =~= words@);
    s
}

} // verus!
