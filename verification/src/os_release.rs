//! The OS-version sub-query: on the Linux target, the human-readable
//! distribution name is the value of the first `PRETTY_NAME=` line of the
//! os-release descriptor text, with its surrounding quote characters
//! removed; `"Linux"` when the descriptor is missing or holds no such line.
//! On every other host the sub-query is a fixed `"Unknown"` placeholder.

use vstd::prelude::*;
use vstd::string::StrSliceExecFns;

use crate::text::{
    has_prefix, spec_lines, spec_opt_chars, spec_trim_quotes, split_lines, str_has_prefix,
    trim_quote_marks,
};

verus! {

/// The key that selects the distribution name in the descriptor text.
pub open spec fn pretty_prefix() -> Seq<char> {
    seq!['P', 'R', 'E', 'T', 'T', 'Y', '_', 'N', 'A', 'M', 'E', '=']
}

/// The fallback label on the Linux target.
pub open spec fn linux_label() -> Seq<char> {
    seq!['L', 'i', 'n', 'u', 'x']
}

/// The placeholder label on every other host.
pub open spec fn unknown_label() -> Seq<char> {
    seq!['U', 'n', 'k', 'n', 'o', 'w', 'n']
}

/// The value of a `PRETTY_NAME=` line: everything after the key, without
/// its surrounding quote characters.
pub open spec fn pretty_value(l: Seq<char>) -> Seq<char> {
    spec_trim_quotes(l.subrange(pretty_prefix().len() as int, l.len() as int))
}

/// The value of the first line keyed `PRETTY_NAME=`, if any line is.
pub open spec fn spec_find_pretty(ls: Seq<Seq<char>>) -> Option<Seq<char>>
    decreases ls.len(),
{
    if ls.len() == 0 {
        None
    } else if has_prefix(ls[0], pretty_prefix()) {
        Some(pretty_value(ls[0]))
    } else {
        spec_find_pretty(ls.drop_first())
    }
}

/// The OS version reported for a host: the descriptor's first pretty-name
/// value on the Linux target, `"Linux"` when the descriptor gives none, and
/// `"Unknown"` away from that target.
pub open spec fn spec_os_version(linux: bool, descriptor: Option<Seq<char>>) -> Seq<char> {
    if !linux {
        unknown_label()
    } else {
        match descriptor {
            Some(c) => match spec_find_pretty(spec_lines(c)) {
                Some(v) => v,
                None => linux_label(),
            },
            None => linux_label(),
        }
    }
}

fn linux_fallback() -> (r: String)
    ensures
        r@ == linux_label(),
{
    let r = "Linux".to_owned();
    proof {
        reveal_strlit("Linux");
        assert(r@ =~= linux_label());
    }
    r
}

/// The OS version for a host, from the raw text of its os-release
/// descriptor; `descriptor` is `None` when the file could not be read.
/// A missing descriptor, like one without a `PRETTY_NAME=` line, degrades
/// to the `"Linux"` label; a host away from the Linux target reports
/// `"Unknown"` whatever was passed for the descriptor.
pub fn os_version_from(linux: bool, descriptor: Option<&str>) -> (r: String)
    ensures
        r@ == spec_os_version(linux, spec_opt_chars(descriptor)),
        !linux ==> r@ == unknown_label(),
        linux && descriptor is None ==> r@ == linux_label(),
{
    if !linux {
        let r = "Unknown".to_owned();
        proof {
            reveal_strlit("Unknown");
            assert(r@ =~= unknown_label());
        }
        return r;
    }
    match descriptor {
        None => linux_fallback(),
        Some(c) => {
            let lines = split_lines(c);
            let ghost ls = spec_lines(c@);
            let n = lines.len();
            let mut i: usize = 0;
            proof {
                assert(ls.subrange(0, n as int) =~= ls);
            }
            while i < n
                invariant
                    linux,
                    spec_opt_chars(descriptor) == Some(c@),
                    ls == spec_lines(c@),
                    i <= n == ls.len(),
                    lines.deep_view() == ls,
                    spec_find_pretty(ls) == spec_find_pretty(ls.subrange(i as int, n as int)),
                decreases n - i,
            {
                let l: &str = lines[i];
                proof {
                    assert(l@ == ls[i as int]);
                }
                if str_has_prefix(l, "PRETTY_NAME=") {
                    proof {
                        reveal_strlit("PRETTY_NAME=");
                        assert("PRETTY_NAME="@ =~= pretty_prefix());
                        assert(ls.subrange(i as int, n as int)[0] == l@);
                        assert(spec_find_pretty(ls) == Some(pretty_value(l@)));
                    }
                    let len = l.unicode_len();
                    // the key `PRETTY_NAME=` is twelve characters long
                    let tail = l.substring_char(12, len);
                    let value = trim_quote_marks(tail);
                    proof {
                        assert(tail@ =~= l@.subrange(pretty_prefix().len() as int, l@.len() as int));
                    }
                    return value.to_owned();
                }
                proof {
                    reveal_strlit("PRETTY_NAME=");
                    assert("PRETTY_NAME="@ =~= pretty_prefix());
                    assert(ls.subrange(i as int, n as int)[0] == l@);
                    assert(ls.subrange(i as int, n as int).drop_first() =~= ls.subrange(
                        i + 1,
                        n as int,
                    ));
                }
                i = i + 1;
            }
            proof {
                assert(spec_find_pretty(ls) is None);
            }
            linux_fallback()
        },
    }
}

} // verus!
