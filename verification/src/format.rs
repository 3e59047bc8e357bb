//! Display helpers: a byte count as a human-readable size, and a path
//! shortened for a narrow screen.

use vstd::prelude::*;

use crate::pathutil::is_prefix_of;
use vstd::string::{StrSliceExecFns, StringExecFns};

verus! {

/// The decimal digit characters.
pub open spec fn digit_char(d: int) -> char {
    if d == 0 {
        '0'
    } else if d == 1 {
        '1'
    } else if d == 2 {
        '2'
    } else if d == 3 {
        '3'
    } else if d == 4 {
        '4'
    } else if d == 5 {
        '5'
    } else if d == 6 {
        '6'
    } else if d == 7 {
        '7'
    } else if d == 8 {
        '8'
    } else {
        '9'
    }
}

/// `n` written in decimal, most significant digit first.
pub open spec fn dec_str(n: int) -> Seq<char>
    decreases n,
{
    if n < 10 {
        seq![digit_char(n)]
    } else {
        dec_str(n / 10) + seq![digit_char(n % 10)]
    }
}

/// `n` written with at least two digits, as a zero-padded fraction.
pub open spec fn two_digits(n: int) -> Seq<char> {
    if 0 <= n < 10 {
        "0"@ + dec_str(n)
    } else {
        dec_str(n)
    }
}

/// A byte count as text: gigabytes to two decimals, megabytes to one,
/// kilobytes whole (each rounded half away from zero), bytes plain.
pub open spec fn spec_format_size(bytes: u64) -> Seq<char> {
    if bytes >= 1_073_741_824 {
        let cents = (bytes * 100 + 536_870_912) / 1_073_741_824;
        dec_str(cents / 100) + "."@ + two_digits(cents % 100) + " GB"@
    } else if bytes >= 1_048_576 {
        let tenths = (bytes * 10 + 524_288) / 1_048_576;
        dec_str(tenths / 10) + "."@ + dec_str(tenths % 10) + " MB"@
    } else if bytes >= 1024 {
        dec_str((bytes + 512) / 1024) + " KB"@
    } else {
        dec_str(bytes as int) + " B"@
    }
}

fn digit_str(d: u64) -> (r: &'static str)
    requires
        d < 10,
    ensures
        r@ == seq![digit_char(d as int)],
{
    let r: &'static str = if d == 0 {
        "0"
    } else if d == 1 {
        "1"
    } else if d == 2 {
        "2"
    } else if d == 3 {
        "3"
    } else if d == 4 {
        "4"
    } else if d == 5 {
        "5"
    } else if d == 6 {
        "6"
    } else if d == 7 {
        "7"
    } else if d == 8 {
        "8"
    } else {
        "9"
    };
    proof {
        reveal_strlit("0");
        reveal_strlit("1");
        reveal_strlit("2");
        reveal_strlit("3");
        reveal_strlit("4");
        reveal_strlit("5");
        reveal_strlit("6");
        reveal_strlit("7");
        reveal_strlit("8");
        reveal_strlit("9");
        assert(r@ =~= seq![digit_char(d as int)]);
    }
    r
}

fn push_dec(s: &mut String, n: u64)
    ensures
        final(s)@ == old(s)@ + dec_str(n as int),
    decreases n,
{
    if n < 10 {
        s.append(digit_str(n));
        assert(s@ =~= old(s)@ + dec_str(n as int));
    } else {
        push_dec(s, n / 10);
        s.append(digit_str(n % 10));
        assert(s@ =~= old(s)@ + dec_str(n as int));
    }
}

/// Writes a byte count as text, exactly as `spec_format_size` gives it.
pub fn format_size(bytes: u64) -> (r: String)
    ensures
        r@ == spec_format_size(bytes),
{
    let mut s = String::new();
    if bytes >= 1_073_741_824 {
        let wide: u128 = ((bytes as u128) * 100 + 536_870_912) / 1_073_741_824;
        assert(wide <= u64::MAX) by {
            assert((bytes as u128) * 100 + 536_870_912 <= (u64::MAX as u128) * 100
                + 536_870_912);
        };
        let cents = wide as u64;
        push_dec(&mut s, cents / 100);
        s.append(".");
        let frac = cents % 100;
        if frac < 10 {
            s.append("0");
            push_dec(&mut s, frac);
        } else {
            push_dec(&mut s, frac);
        }
        s.append(" GB");
        assert(s@ =~= spec_format_size(bytes));
    } else if bytes >= 1_048_576 {
        let tenths = (bytes * 10 + 524_288) / 1_048_576;
        push_dec(&mut s, tenths / 10);
        s.append(".");
        push_dec(&mut s, tenths % 10);
        s.append(" MB");
        assert(s@ =~= spec_format_size(bytes));
    } else if bytes >= 1024 {
        push_dec(&mut s, (bytes + 512) / 1024);
        s.append(" KB");
        assert(s@ =~= spec_format_size(bytes));
    } else {
        push_dec(&mut s, bytes);
        s.append(" B");
        assert(s@ =~= spec_format_size(bytes));
    }
    s
}

/// A path shortened for display: the home directory becomes `~`, and a
/// long path keeps only its last characters behind an ellipsis.
pub open spec fn spec_shorten_path(path: Seq<char>, home: Seq<char>) -> Seq<char> {
    if is_prefix_of(home, path) {
        let rel = "~"@ + path.skip(home.len() as int);
        if rel.len() > 50 {
            "..."@ + rel.skip(rel.len() - 47)
        } else {
            rel
        }
    } else if path.len() > 50 {
        "..."@ + path.skip(path.len() - 47)
    } else {
        path
    }
}

fn str_starts_with(s: &str, pre: &str) -> (r: bool)
    ensures
        r == is_prefix_of(pre@, s@),
{
    let n = pre.unicode_len();
    let m = s.unicode_len();
    if n > m {
        return false;
    }
    let mut i: usize = 0;
    while i < n
        invariant
            i <= n,
            n == pre@.len(),
            n <= m == s@.len(),
            forall|j: int| 0 <= j < i ==> s@[j] == pre@[j],
        decreases n - i,
    {
        if s.get_char(i) != pre.get_char(i) {
            assert(s@.subrange(0, n as int)[i as int] != pre@[i as int]);
            return false;
        }
        i += 1;
    }
    assert(s@.subrange(0, n as int) =~= pre@);
    true
}

/// Shortens a path for display, exactly as `spec_shorten_path` gives it.
pub fn shorten_path(path: &str, home: &str) -> (r: String)
    ensures
        r@ == spec_shorten_path(path@, home@),
{
    proof {
        reveal_strlit("~");
    }
    let plen = path.unicode_len();
    let hlen = home.unicode_len();
    if str_starts_with(path, home) {
        assert(hlen <= plen);
        if plen - hlen > 49 {
            let mut s = String::from_str("...");
            s.append(path.substring_char(plen - 47, plen));
            proof {
                let rel = "~"@ + path@.skip(hlen as int);
                assert(rel.len() == 1 + plen - hlen);
                assert(rel.skip(rel.len() - 47) =~= path@.skip(plen - 47));
                assert(path@.skip(plen - 47) =~= path@.subrange(plen - 47, plen as int));
                assert(s@ =~= spec_shorten_path(path@, home@));
            }
            s
        } else {
            let mut s = String::from_str("~");
            s.append(path.substring_char(hlen, plen));
            proof {
                assert(path@.subrange(hlen as int, plen as int) =~= path@.skip(hlen as int));
                assert(s@ =~= spec_shorten_path(path@, home@));
            }
            s
        }
    } else if plen > 50 {
        let mut s = String::from_str("...");
        s.append(path.substring_char(plen - 47, plen));
        proof {
            assert(path@.subrange(plen - 47, plen as int) =~= path@.skip(plen - 47));
            assert(s@ =~= spec_shorten_path(path@, home@));
        }
        s
    } else {
        path.to_owned()
    }
}

} // verus!
