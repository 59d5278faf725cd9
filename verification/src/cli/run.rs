use vstd::prelude::*;
use crate::config::types::{trim_text, trim_ws};
use crate::text::{append_str, occurs_at, starts_with_seq, chars_of, string_from_chars};

verus! {

/// The last position of `c` in `s`, if any.
pub open spec fn last_pos(s: Seq<char>, c: char) -> Option<int>
    decreases s.len(),
{
    if s.len() == 0 {
        None
    } else if s.last() == c {
        Some(s.len() - 1)
    } else {
        last_pos(s.drop_last(), c)
    }
}

/// The host of a listen address as a browser should reach it: the
/// wildcard addresses become the loopback ones.
pub open spec fn browser_host(host: Seq<char>) -> Seq<char> {
    if host == "0.0.0.0"@ {
        "127.0.0.1"@
    } else if host == "[::]"@ {
        "[::1]"@
    } else {
        host
    }
}

/// The URL of the web interface for a listen address: a URL is kept as it
/// is; otherwise the address is split at its last colon into host and
/// port, and the host made reachable.
pub open spec fn spec_web_url(listen: Seq<char>) -> Seq<char> {
    let t = trim_ws(listen);
    if occurs_at(t, "http://"@, 0) || occurs_at(t, "https://"@, 0) {
        t
    } else {
        let (host, port) = match last_pos(t, ':') {
            Some(k) => (t.take(k), t.skip(k + 1)),
            None => (t, Seq::<char>::empty()),
        };
        if port.len() == 0 {
            "http://"@ + browser_host(host)
        } else {
            "http://"@ + browser_host(host) + ":"@ + port
        }
    }
}

fn seq_is(a: &Vec<char>, b: &str) -> (r: bool)
    ensures
        r == (a@ == b@),
{
    let bv = chars_of(b);
    crate::text::chars_equal(a.as_slice(), bv.as_slice())
}

fn copy_range(s: &Vec<char>, from: usize, to: usize) -> (r: Vec<char>)
    requires
        from <= to <= s@.len(),
    ensures
        r@ == s@.subrange(from as int, to as int),
{
    let mut r: Vec<char> = Vec::new();
    let mut i = from;
    while i < to
        invariant
            from <= i <= to <= s@.len(),
            r@ == s@.subrange(from as int, i as int),
        decreases to - i,
    {
        r.push(s[i]);
        assert(r@ =~= s@.subrange(from as int, i as int + 1));
        i += 1;
    }
    r
}

/// The URL at which the web interface listening on `listen` is reached.
pub fn format_web_url(listen: &str) -> (url: String)
    ensures
        url@ == spec_web_url(listen@),
{
    let t = trim_text(listen);
    if starts_with_seq(t.as_slice(), chars_of("http://").as_slice())
        || starts_with_seq(t.as_slice(), chars_of("https://").as_slice()) {
        return string_from_chars(t.as_slice());
    }
    let mut k = t.len();
    assert(t@.take(k as int) =~= t@);
    while k > 0 && t[k - 1] != ':'
        invariant
            k <= t@.len(),
            last_pos(t@, ':') == last_pos(t@.take(k as int), ':'),
        decreases k,
    {
        assert(t@.take(k as int).drop_last() =~= t@.take(k as int - 1));
        k -= 1;
    }
    let (host, port) = if k > 0 {
        assert(t@.take(k as int).last() == ':');
        (copy_range(&t, 0, k - 1), copy_range(&t, k, t.len()))
    } else {
        (copy_range(&t, 0, t.len()), Vec::new())
    };
    assert(k > 0 ==> host@ =~= t@.take(k - 1) && port@ =~= t@.skip(k as int));
    assert(k == 0 ==> host@ =~= t@);
    let mut out: Vec<char> = Vec::new();
    append_str(&mut out, "http://");
    if seq_is(&host, "0.0.0.0") {
        append_str(&mut out, "127.0.0.1");
    } else if seq_is(&host, "[::]") {
        append_str(&mut out, "[::1]");
    } else {
        let hs = string_from_chars(host.as_slice());
        append_str(&mut out, hs.as_str());
    }
    if port.len() > 0 {
        append_str(&mut out, ":");
        let ps = string_from_chars(port.as_slice());
        append_str(&mut out, ps.as_str());
    }
    string_from_chars(out.as_slice())
}

} // verus!
