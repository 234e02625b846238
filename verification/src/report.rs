//! The lines that the system-information programs print.

use vstd::prelude::*;
use crate::decimal::{append_decimal, decimal_chars};
use crate::clock::{time_text, valid_time, time_label};

verus! {

/// The decimal text of `v`, with a `'-'` in front when it is negative.
pub open spec fn signed_decimal_chars(v: int) -> Seq<char> {
    if v < 0 {
        seq!['-'] + decimal_chars((-v) as nat)
    } else {
        decimal_chars(v as nat)
    }
}

/// Appends the decimal text of `v` to `out`.
pub fn append_signed_decimal(out: &mut String, v: i64)
    ensures
        final(out)@ == old(out)@ + signed_decimal_chars(v as int),
{
    if v < 0 {
        out.append("-");
        proof {
            reveal_strlit("-");
        }
        let magnitude: u64 = if v == i64::MIN {
            9223372036854775808u64
        } else {
            (-v) as u64
        };
        append_decimal(out, magnitude);
        assert(final(out)@ =~= old(out)@ + signed_decimal_chars(v as int));
    } else {
        append_decimal(out, v as u64);
    }
}

/// `<name>: PID = <pid>, PPID = <ppid>, Time = <HH:MM:SS>`, the line that
/// identifies a process, or `None` where the time of day does not exist.
pub fn process_info_line(name: &str, pid: u32, ppid: i32, hour: u32, minute: u32, second: u32) -> (r: Option<
    String,
>)
    ensures
        r is Some <==> valid_time(hour as int, minute as int, second as int),
        r matches Some(line) ==> line@ == name@ + ": PID = "@ + decimal_chars(pid as nat) + ", PPID = "@
            + signed_decimal_chars(ppid as int) + ", Time = "@ + time_text(hour as int, minute as int, second as int),
{
    let time = match time_label(hour, minute, second) {
        Some(t) => t,
        None => {
            return None;
        },
    };
    let mut line = String::from_str(name);
    line.append(": PID = ");
    append_decimal(&mut line, pid as u64);
    line.append(", PPID = ");
    append_signed_decimal(&mut line, ppid as i64);
    line.append(", Time = ");
    line.append(time.as_str());
    Some(line)
}

/// `Memory Usage: <used>/<total> MB`, the two amounts divided by 1024.
pub fn memory_usage_line(used: u64, total: u64) -> (r: String)
    ensures
        r@ == "Memory Usage: "@ + decimal_chars((used / 1024) as nat) + "/"@ + decimal_chars((total / 1024) as nat)
            + " MB"@,
{
    let mut line = String::from_str("Memory Usage: ");
    append_decimal(&mut line, used / 1024);
    line.append("/");
    append_decimal(&mut line, total / 1024);
    line.append(" MB");
    line
}

/// The input/output statistics report of process `pid`, line by line.
pub fn io_statistics_lines(pid: u32, read_bytes: u64, write_bytes: u64, rchar: u64, wchar: u64) -> (r: Vec<String>)
    ensures
        r@.len() == 5,
        r@[0]@ == "I/O Statistics for PID "@ + decimal_chars(pid as nat) + ":"@,
        r@[1]@ == "  Read bytes: "@ + decimal_chars(read_bytes as nat),
        r@[2]@ == "  Write bytes: "@ + decimal_chars(write_bytes as nat),
        r@[3]@ == "  Read operations: "@ + decimal_chars(rchar as nat),
        r@[4]@ == "  Write operations: "@ + decimal_chars(wchar as nat),
{
    let mut lines: Vec<String> = Vec::new();
    let mut head = String::from_str("I/O Statistics for PID ");
    append_decimal(&mut head, pid as u64);
    head.append(":");
    lines.push(head);
    let mut l1 = String::from_str("  Read bytes: ");
    append_decimal(&mut l1, read_bytes);
    lines.push(l1);
    let mut l2 = String::from_str("  Write bytes: ");
    append_decimal(&mut l2, write_bytes);
    lines.push(l2);
    let mut l3 = String::from_str("  Read operations: ");
    append_decimal(&mut l3, rchar);
    lines.push(l3);
    let mut l4 = String::from_str("  Write operations: ");
    append_decimal(&mut l4, wchar);
    lines.push(l4);
    lines
}

/// The name if it was obtained, otherwise `Unknown`.
pub fn name_or_unknown(name: Option<String>) -> (r: String)
    ensures
        name matches Some(n) ==> r@ == n@,
        name is None ==> r@ == "Unknown"@,
{
    match name {
        Some(n) => n,
        None => String::from_str("Unknown"),
    }
}

} // verus!
