use vstd::prelude::*;
use crate::text::{matches_at, occurs_at, parse_unsigned, spec_parse_unsigned, chars_of};

verus! {

/// The first position from `i` on where `p` occurs in `s`.
pub open spec fn first_match(s: Seq<char>, p: Seq<char>, i: int) -> Option<int>
    decreases s.len() + 1 - i,
{
    if i < 0 || i > s.len() || i + p.len() > s.len() {
        None
    } else if occurs_at(s, p, i) {
        Some(i)
    } else {
        first_match(s, p, i + 1)
    }
}

/// The process id that a database lock error names: the number between
/// the first `(PID ` and the `)` after it, when it reads as a `u32`.
pub open spec fn spec_lock_pid(msg: Seq<char>) -> Option<nat> {
    match first_match(msg, "(PID "@, 0) {
        None => None,
        Some(a) => match first_match(msg, seq![')'], a + 5) {
            None => None,
            Some(e) => spec_parse_unsigned(msg.subrange(a + 5, e), 0xffff_ffff),
        },
    }
}

fn find_from(s: &Vec<char>, p: &Vec<char>, from: usize) -> (r: Option<usize>)
    requires
        from <= s@.len(),
    ensures
        match r {
            Some(i) => first_match(s@, p@, from as int) == Some(i as int) && i + p@.len() <= s@.len() && from <= i,
            None => first_match(s@, p@, from as int) is None,
        },
{
    if p.len() == 0 {
        assert(occurs_at(s@, p@, from as int)) by {
            assert(s@.subrange(from as int, from as int) =~= p@);
        }
        return Some(from);
    }
    let mut i = from;
    while p.len() <= s.len() - i
        invariant
            from <= i,
            i <= s@.len(),
            p@.len() > 0,
            first_match(s@, p@, from as int) == first_match(s@, p@, i as int),
        decreases s@.len() - i,
    {
        if matches_at(s.as_slice(), p.as_slice(), i) {
            return Some(i);
        }
        i += 1;
    }
    None
}

/// Reads the process id out of a database lock error message such as
/// `... is held in /path/to/binary (PID 12345). ...`.
pub fn extract_pid_from_lock_error(error_msg: &str) -> (r: Option<u32>)
    ensures
        match r {
            Some(p) => spec_lock_pid(error_msg@) == Some(p as nat),
            None => spec_lock_pid(error_msg@) is None,
        },
{
    let s = chars_of(error_msg);
    let marker = chars_of("(PID ");
    proof {
        reveal_strlit("(PID ");
    }
    assert(marker@.len() == 5);
    match find_from(&s, &marker, 0) {
        None => None,
        Some(a) => {
            let n = s.len();
            assert(a + marker@.len() <= n);
            let start = a + 5;
            let mut close: Vec<char> = Vec::new();
            close.push(')');
            match find_from(&s, &close, start) {
                None => None,
                Some(e) => {
                    let mut digits: Vec<char> = Vec::new();
                    let mut k = start;
                    while k < e
                        invariant
                            start <= k <= e,
                            e + 1 <= s@.len(),
                            digits@ == s@.subrange(start as int, k as int),
                        decreases e - k,
                    {
                        digits.push(s[k]);
                        assert(digits@ =~= s@.subrange(start as int, k as int + 1));
                        k += 1;
                    }
                    assert(close@ =~= seq![')']);
                    match parse_unsigned(digits.as_slice(), 0xffff_ffff) {
                        Some(v) => Some(v as u32),
                        None => None,
                    }
                },
            }
        },
    }
}

} // verus!
