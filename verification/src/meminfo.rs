//! The memory sub-query: on the Linux target, the total and available
//! physical memory in bytes are read from the kernel's memory-statistics
//! text, one labelled counter per line. Every line is scanned; for the two
//! labels of interest the second whitespace-delimited token is the counter
//! in kilobytes, and a later line with the same label overwrites an earlier
//! one. A missing file, like a host away from the Linux target, reports
//! zero for both, a sentinel meaning "unknown".

use vstd::prelude::*;

use crate::text::{
    has_prefix, parse_u64_str, second_token, spec_lines, spec_opt_chars, spec_parse_u64,
    spec_second_token, split_lines, str_has_prefix,
};

verus! {

/// The label of the total-memory counter.
pub open spec fn memtotal_prefix() -> Seq<char> {
    seq!['M', 'e', 'm', 'T', 'o', 't', 'a', 'l', ':']
}

/// The label of the available-memory counter.
pub open spec fn memavailable_prefix() -> Seq<char> {
    seq!['M', 'e', 'm', 'A', 'v', 'a', 'i', 'l', 'a', 'b', 'l', 'e', ':']
}

/// The kilobyte count of a statistics line: its second whitespace-delimited
/// token read as an unsigned 64-bit integer, if the line has one.
pub open spec fn spec_parse_meminfo_line(l: Seq<char>) -> Option<u64> {
    match spec_second_token(l) {
        Some(t) => spec_parse_u64(t),
        None => None,
    }
}

/// A kilobyte count whose byte value fits in 64 bits.
pub open spec fn kb_fits(v: u64) -> bool {
    v <= u64::MAX / 1024
}

/// One pass over the statistics lines, front to back: a line labelled
/// `MemTotal:` or `MemAvailable:` whose counter reads as an unsigned
/// integer overwrites the byte count gathered so far (kilobytes times
/// 1024); every other line, and a counter that does not read as an
/// integer or whose byte value would not fit, leaves the counts as they
/// were.
pub open spec fn spec_scan_meminfo(ls: Seq<Seq<char>>, total: u64, available: u64) -> (u64, u64)
    decreases ls.len(),
{
    if ls.len() == 0 {
        (total, available)
    } else {
        let l = ls[0];
        let rest = ls.drop_first();
        if has_prefix(l, memtotal_prefix()) {
            match spec_parse_meminfo_line(l) {
                Some(v) => if kb_fits(v) {
                    spec_scan_meminfo(rest, (v * 1024) as u64, available)
                } else {
                    spec_scan_meminfo(rest, total, available)
                },
                None => spec_scan_meminfo(rest, total, available),
            }
        } else if has_prefix(l, memavailable_prefix()) {
            match spec_parse_meminfo_line(l) {
                Some(v) => if kb_fits(v) {
                    spec_scan_meminfo(rest, total, (v * 1024) as u64)
                } else {
                    spec_scan_meminfo(rest, total, available)
                },
                None => spec_scan_meminfo(rest, total, available),
            }
        } else {
            spec_scan_meminfo(rest, total, available)
        }
    }
}

/// The memory figures reported for a host: both counters of the statistics
/// text in bytes on the Linux target, and zero for whatever the text does
/// not give, for a text that could not be read, or away from that target.
pub open spec fn spec_memory(linux: bool, statistics: Option<Seq<char>>) -> (u64, u64) {
    if !linux {
        (0u64, 0u64)
    } else {
        match statistics {
            Some(c) => spec_scan_meminfo(spec_lines(c), 0u64, 0u64),
            None => (0u64, 0u64),
        }
    }
}

/// The kilobyte count of one statistics line, such as
/// `MemTotal:       16384000 kB`: the second whitespace-delimited token
/// read as an unsigned 64-bit integer.
pub fn parse_meminfo_line(line: &str) -> (r: Option<u64>)
    ensures
        r == spec_parse_meminfo_line(line@),
{
    match second_token(line) {
        Some(t) => parse_u64_str(t),
        None => None,
    }
}

/// The total and available memory in bytes, from the raw text of the
/// kernel's memory statistics; `statistics` is `None` when the file could
/// not be read. Missing data degrades to zero, and a host away from the
/// Linux target reports `(0, 0)` whatever was passed for the statistics.
pub fn memory_from(linux: bool, statistics: Option<&str>) -> (r: (u64, u64))
    ensures
        r == spec_memory(linux, spec_opt_chars(statistics)),
        !linux ==> r == (0u64, 0u64),
        linux && statistics is None ==> r == (0u64, 0u64),
{
    if !linux {
        return (0, 0);
    }
    match statistics {
        None => (0, 0),
        Some(c) => {
            let lines = split_lines(c);
            let ghost ls = spec_lines(c@);
            let n = lines.len();
            let mut total: u64 = 0;
            let mut available: u64 = 0;
            let mut i: usize = 0;
            proof {
                assert(ls.subrange(0, n as int) =~= ls);
            }
            while i < n
                invariant
                    i <= n == ls.len(),
                    lines.deep_view() == ls,
                    spec_scan_meminfo(ls, 0u64, 0u64) == spec_scan_meminfo(
                        ls.subrange(i as int, n as int),
                        total,
                        available,
                    ),
                decreases n - i,
            {
                let l: &str = lines[i];
                proof {
                    assert(l@ == ls[i as int]);
                    assert(ls.subrange(i as int, n as int)[0] == l@);
                    assert(ls.subrange(i as int, n as int).drop_first() =~= ls.subrange(
                        i + 1,
                        n as int,
                    ));
                }
                if str_has_prefix(l, "MemTotal:") {
                    proof {
                        reveal_strlit("MemTotal:");
                        assert("MemTotal:"@ =~= memtotal_prefix());
                    }
                    if let Some(value) = parse_meminfo_line(l) {
                        if value <= u64::MAX / 1024 {
                            total = value * 1024;
                        }
                    }
                } else if str_has_prefix(l, "MemAvailable:") {
                    proof {
                        reveal_strlit("MemTotal:");
                        reveal_strlit("MemAvailable:");
                        assert("MemTotal:"@ =~= memtotal_prefix());
                        assert("MemAvailable:"@ =~= memavailable_prefix());
                    }
                    if let Some(value) = parse_meminfo_line(l) {
                        if value <= u64::MAX / 1024 {
                            available = value * 1024;
                        }
                    }
                } else {
                    proof {
                        reveal_strlit("MemTotal:");
                        reveal_strlit("MemAvailable:");
                        assert("MemTotal:"@ =~= memtotal_prefix());
                        assert("MemAvailable:"@ =~= memavailable_prefix());
                    }
                }
                i = i + 1;
            }
            (total, available)
        },
    }
}

} // verus!
