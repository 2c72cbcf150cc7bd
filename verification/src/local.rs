//! Local configuration read from the environment: which network address to
//! advertise, and the service port, parsed from text with a default.

use vstd::prelude::*;
use vstd::string::StringExecFns;

verus! {

/// The service port used when none is configured.
pub const DEFAULT_SERVICE_PORT: u16 = 7331;

/// One local network interface, as the logic sees it: its address and
/// whether it is a loopback interface.
pub struct NetInterface {
    pub ip: String,
    pub loopback: bool,
}

/// The interface list as address/loopback pairs.
pub open spec fn ifaces_view(s: Seq<NetInterface>) -> Seq<(Seq<char>, bool)> {
    s.map(|i: int, f: NetInterface| (f.ip@, f.loopback))
}

/// The address of the first interface that is not a loopback, if any.
pub open spec fn first_usable(s: Seq<(Seq<char>, bool)>) -> Option<Seq<char>>
    decreases s.len(),
{
    if s.len() == 0 {
        None
    } else if !s[0].1 {
        Some(s[0].0)
    } else {
        first_usable(s.drop_first())
    }
}

/// Pick the address this node advertises: the first non-loopback interface.
pub fn pick_address(ifaces: &Vec<NetInterface>) -> (r: Option<String>)
    ensures
        match r {
            Some(s) => first_usable(ifaces_view(ifaces@)) == Some(s@),
            None => first_usable(ifaces_view(ifaces@)) is None,
        },
{
    let ghost v = ifaces_view(ifaces@);
    proof {
        assert(v.skip(0) =~= v);
    }
    let n: usize = ifaces.len();
    let mut i: usize = 0;
    while i < n
        invariant
            i <= n,
            n == v.len(),
            v == ifaces_view(ifaces@),
            first_usable(v) == first_usable(v.skip(i as int)),
        decreases n - i,
    {
        proof {
            assert(v.skip(i as int)[0] == v[i as int]);
        }
        if !ifaces[i].loopback {
            return Some(ifaces[i].ip.clone());
        }
        proof {
            assert(v.skip(i as int).drop_first() =~= v.skip(i + 1));
        }
        i = i + 1;
    }
    proof {
        assert(v.skip(n as int).len() == 0);
    }
    None
}

/// Whether `c` is a decimal digit.
pub open spec fn is_digit(c: char) -> bool {
    48 <= c as u32 <= 57
}

/// The value of a decimal digit character.
pub open spec fn digit_val(c: char) -> nat {
    (c as u32 - 48) as nat
}

/// Whether every character of `s` is a decimal digit.
pub open spec fn all_digits(s: Seq<char>) -> bool {
    forall|i: int| 0 <= i < s.len() ==> is_digit(#[trigger] s[i])
}

/// The numeric value of a digit string.
pub open spec fn digits_val(s: Seq<char>) -> nat
    decreases s.len(),
{
    if s.len() == 0 {
        0
    } else {
        digits_val(s.drop_last()) * 10 + digit_val(s.last())
    }
}

/// The digit part of a number text: the text with a single leading plus
/// sign, if any, removed.
pub open spec fn trimmed(s: Seq<char>) -> Seq<char> {
    if s.len() > 0 && s[0] == '+' {
        s.drop_first()
    } else {
        s
    }
}

/// What Rust makes of a text parsed as a `u16`: an optional leading plus
/// sign, then one or more decimal digits, with a value of at most 65535.
pub open spec fn parse_u16(s: Seq<char>) -> Option<u16> {
    let t = trimmed(s);
    if t.len() > 0 && all_digits(t) && digits_val(t) <= 65535 {
        Some(digits_val(t) as u16)
    } else {
        None
    }
}

/// The configured service port: the parsed text where one is given and
/// parses, the default otherwise.
pub open spec fn port_of(text: Option<Seq<char>>, dflt: u16) -> u16 {
    match text {
        Some(s) => match parse_u16(s) {
            Some(p) => p,
            None => dflt,
        },
        None => dflt,
    }
}

/// Appending digits never decreases the value of a digit string.
proof fn lemma_digits_val_monotone(t: Seq<char>, j: int)
    requires
        0 <= j <= t.len(),
    ensures
        digits_val(t) >= digits_val(t.take(j)),
    decreases t.len() - j,
{
    if j == t.len() {
        assert(t.take(j) =~= t);
    } else {
        lemma_digits_val_monotone(t, j + 1);
        assert(t.take(j + 1).drop_last() =~= t.take(j));
        assert(digits_val(t.take(j + 1)) == digits_val(t.take(j)) * 10 + digit_val(
            t.take(j + 1).last(),
        ));
    }
}

/// Parse a decimal `u16` as Rust's string parsing does.
pub fn parse_port(s: &str) -> (r: Option<u16>)
    ensures
        r == parse_u16(s@),
{
    let n: usize = s.unicode_len();
    let mut start: usize = 0;
    if n > 0 && s.get_char(0) == '+' {
        start = 1;
    }
    let ghost t = trimmed(s@);
    proof {
        assert(t =~= s@.skip(start as int));
    }
    if start == n {
        return None;
    }
    let mut acc: u32 = 0;
    let mut i: usize = start;
    while i < n
        invariant
            start <= i <= n,
            n == s@.len(),
            start <= 1,
            t == trimmed(s@),
            t == s@.skip(start as int),
            t.len() == n - start,
            forall|j: int| 0 <= j < i - start ==> is_digit(#[trigger] t[j]),
            acc == digits_val(t.take(i - start)),
            acc <= 65535,
        decreases n - i,
    {
        let c: char = s.get_char(i);
        let cv: u32 = c as u32;
        proof {
            assert(t[i - start] == s@[i as int]);
        }
        if cv < 48 || cv > 57 {
            proof {
                assert(!is_digit(t[i - start]));
                assert(!all_digits(t));
            }
            return None;
        }
        let d: u32 = cv - 48;
        proof {
            assert(t.take(i - start + 1).drop_last() =~= t.take(i - start));
            assert(t.take(i - start + 1).last() == t[i - start]);
            assert(digits_val(t.take(i - start + 1)) == acc * 10 + d);
        }
        if acc > 6553 || (acc == 6553 && d > 5) {
            proof {
                if all_digits(t) {
                    lemma_digits_val_monotone(t, i - start + 1);
                    assert(digits_val(t) > 65535);
                }
                assert(parse_u16(s@) is None);
            }
            return None;
        }
        acc = acc * 10 + d;
        i = i + 1;
    }
    proof {
        assert(t.take(n - start) =~= t);
        assert(all_digits(t));
        assert(digits_val(t) <= 65535);
    }
    Some(acc as u16)
}

/// The service port this node uses for model transfer, from the configured
/// text if it parses, else the default.
pub fn service_port(text: &Option<String>) -> (r: u16)
    ensures
        match text {
            Some(s) => r == port_of(Some(s@), DEFAULT_SERVICE_PORT),
            None => r == DEFAULT_SERVICE_PORT,
        },
{
    match text {
        Some(s) => match parse_port(s.as_str()) {
            Some(p) => p,
            None => DEFAULT_SERVICE_PORT,
        },
        None => DEFAULT_SERVICE_PORT,
    }
}

} // verus!
