//! Names used by the memory-map capture: where the map of a process is read
//! from, where its copy is written, and the command line that runs one
//! capture for the monitoring service.

use vstd::prelude::*;
use crate::decimal::{append_decimal, decimal_chars, decimal_string};
use crate::clock::{lemma_distinct_times_distinct_labels, stamp_text, valid_date, valid_time};

verus! {

/// `/proc/<pid>/maps`, the memory map of process `pid`.
pub fn maps_path(pid: u32) -> (r: String)
    ensures
        r@ == "/proc/"@ + decimal_chars(pid as nat) + "/maps"@,
{
    let mut r = String::from_str("/proc/");
    append_decimal(&mut r, pid as u64);
    r.append("/maps");
    r
}

/// `<output_dir>/map_<pid>_<timestamp>.txt`, where the copy of the memory
/// map of process `pid` taken at `timestamp` is written.
pub fn map_file_path(output_dir: &str, pid: u32, timestamp: &str) -> (r: String)
    ensures
        r@ == output_dir@ + "/map_"@ + decimal_chars(pid as nat) + "_"@ + timestamp@ + ".txt"@,
{
    let mut r = String::from_str(output_dir);
    r.append("/map_");
    append_decimal(&mut r, pid as u64);
    r.append("_");
    r.append(timestamp);
    r.append(".txt");
    r
}

/// The arguments of `cargo` that run one capture of process `pid` into
/// `output_dir`: `run --release --bin task2 -- <pid> <output_dir>`.
pub fn capture_command_args(pid: u32, output_dir: &str) -> (r: Vec<String>)
    ensures
        r@.len() == 7,
        r@[0]@ == "run"@,
        r@[1]@ == "--release"@,
        r@[2]@ == "--bin"@,
        r@[3]@ == "task2"@,
        r@[4]@ == "--"@,
        r@[5]@ == decimal_chars(pid as nat),
        r@[6]@ == output_dir@,
{
    let mut r: Vec<String> = Vec::new();
    r.push(String::from_str("run"));
    r.push(String::from_str("--release"));
    r.push(String::from_str("--bin"));
    r.push(String::from_str("task2"));
    r.push(String::from_str("--"));
    r.push(decimal_string(pid as u64));
    r.push(String::from_str(output_dir));
    r
}

/// The file that `map_file_path` names for a capture of process `pid` into
/// `output_dir` at the given local date and time, stamped as
/// `timestamp_label` writes it with `separator`.
pub open spec fn map_file_at(
    output_dir: Seq<char>,
    pid: nat,
    year: int,
    month: int,
    day: int,
    hour: int,
    minute: int,
    second: int,
    separator: Seq<char>,
) -> Seq<char> {
    output_dir + "/map_"@ + decimal_chars(pid) + "_"@ + stamp_text(year, month, day, hour, minute, second, separator)
        + ".txt"@
}

/// Captures of the same process into the same directory at distinct
/// times, to the second, are written to distinct files; two captures within
/// the same second share one file.
pub proof fn lemma_captures_at_distinct_times_use_distinct_files(
    output_dir: Seq<char>,
    pid: nat,
    separator: Seq<char>,
    y1: i32,
    mo1: u32,
    d1: u32,
    h1: u32,
    mi1: u32,
    s1: u32,
    y2: i32,
    mo2: u32,
    d2: u32,
    h2: u32,
    mi2: u32,
    s2: u32,
)
    requires
        valid_date(y1 as int, mo1 as int, d1 as int),
        valid_time(h1 as int, mi1 as int, s1 as int),
        valid_date(y2 as int, mo2 as int, d2 as int),
        valid_time(h2 as int, mi2 as int, s2 as int),
        (y1, mo1, d1, h1, mi1, s1) != (y2, mo2, d2, h2, mi2, s2),
    ensures
        map_file_at(output_dir, pid, y1 as int, mo1 as int, d1 as int, h1 as int, mi1 as int, s1 as int, separator)
            != map_file_at(output_dir, pid, y2 as int, mo2 as int, d2 as int, h2 as int, mi2 as int, s2 as int, separator),
{
    let prefix = output_dir + "/map_"@ + decimal_chars(pid) + "_"@;
    let suffix = ".txt"@;
    let a = stamp_text(y1 as int, mo1 as int, d1 as int, h1 as int, mi1 as int, s1 as int, separator);
    let b = stamp_text(y2 as int, mo2 as int, d2 as int, h2 as int, mi2 as int, s2 as int, separator);
    lemma_distinct_times_distinct_labels(y1, mo1, d1, h1, mi1, s1, y2, mo2, d2, h2, mi2, s2, separator);
    let f1 = prefix + a + suffix;
    let f2 = prefix + b + suffix;
    assert(map_file_at(output_dir, pid, y1 as int, mo1 as int, d1 as int, h1 as int, mi1 as int, s1 as int, separator) == f1);
    assert(map_file_at(output_dir, pid, y2 as int, mo2 as int, d2 as int, h2 as int, mi2 as int, s2 as int, separator) == f2);
    if f1 == f2 {
        assert(a.len() == b.len());
        assert(f1.subrange(prefix.len() as int, (prefix.len() + a.len()) as int) =~= a);
        assert(f2.subrange(prefix.len() as int, (prefix.len() + b.len()) as int) =~= b);
    }
}

} // verus!
