//! Reading the command lines of the exercise programs.

use vstd::prelude::*;
use vstd::utf8::{encode_utf8, is_ascii_chars, is_ascii_chars_encode_utf8};
use crate::decimal::{
    decimal_chars, decimal_digits, lemma_decimal_digits_are_digits, lemma_parse_decimal_roundtrip,
    parse_u32_spec, parse_u32_str,
};

verus! {

/// What `arg.parse::<u32>()` gives for the argument `arg`.
pub open spec fn parse_arg_u32(arg: Seq<char>) -> Option<u32> {
    parse_u32_spec(encode_utf8(arg))
}

/// Parses an argument as a `u32`, as `arg.parse::<u32>()` does.
pub fn parse_arg(arg: &String) -> (r: Option<u32>)
    ensures
        r == parse_arg_u32(arg@),
{
    parse_u32_str(arg.as_str())
}

/// A process id written as decimal text (as the monitoring service passes it
/// to the capture program) is read back as the same id.
pub proof fn lemma_pid_argument_roundtrip(pid: u32)
    ensures
        parse_arg_u32(decimal_chars(pid as nat)) == Some(pid),
{
    let digits = decimal_digits(pid as nat);
    let chars = decimal_chars(pid as nat);
    lemma_decimal_digits_are_digits(pid as nat);
    assert(is_ascii_chars(chars)) by {
        assert forall|i: int| 0 <= i < chars.len() implies '\0' <= #[trigger] chars[i] <= '\u{7f}' by {
            assert(48 <= digits[i] <= 57);
        }
    }
    is_ascii_chars_encode_utf8(chars);
    assert(encode_utf8(chars) =~= digits);
    lemma_parse_decimal_roundtrip(pid);
}

/// The settings of the monitoring service.
#[derive(Debug)]
pub struct ServiceConfig {
    /// Where the memory maps are written.
    pub output_dir: String,
    /// How many captures to make.
    pub max_runs: u32,
}

/// Why the monitoring service's command line was refused.
#[derive(PartialEq, Eq, Structural, Clone, Copy, Debug)]
pub enum ServiceArgsError {
    /// Fewer than two arguments: print the usage and exit with status 1.
    Usage,
    /// The number of runs is not a `u32`.
    InvalidRunCount,
}

/// Reads `<program> <output_directory> <number_of_runs>`.
pub fn parse_service_args(args: &Vec<String>) -> (r: Result<ServiceConfig, ServiceArgsError>)
    ensures
        args.len() < 3 ==> r == Err::<ServiceConfig, ServiceArgsError>(ServiceArgsError::Usage),
        args.len() >= 3 && parse_arg_u32(args@[2]@) is None ==> r == Err::<ServiceConfig, ServiceArgsError>(
            ServiceArgsError::InvalidRunCount,
        ),
        args.len() >= 3 && parse_arg_u32(args@[2]@) is Some ==> (r matches Ok(c) && c.output_dir@ == args@[1]@
            && c.max_runs == parse_arg_u32(args@[2]@)->0),
{
    if args.len() < 3 {
        return Err(ServiceArgsError::Usage);
    }
    let output_dir = args[1].clone();
    match parse_arg(&args[2]) {
        Some(max_runs) => Ok(ServiceConfig { output_dir, max_runs }),
        None => Err(ServiceArgsError::InvalidRunCount),
    }
}

/// The settings of one memory-map capture.
#[derive(Debug)]
pub struct SnapshotConfig {
    /// The process whose memory map is captured.
    pub pid: u32,
    /// Where the memory map is written.
    pub output_dir: String,
}

/// Why the capture program's command line was refused.
#[derive(PartialEq, Eq, Structural, Clone, Copy, Debug)]
pub enum SnapshotArgsError {
    /// No process id was given.
    MissingPid,
    /// The process id is not a `u32`.
    InvalidPid,
    /// No output directory was given.
    MissingOutputDir,
}

/// Reads `<program> <pid> <output_directory>`, checking the arguments in
/// that order.
pub fn parse_snapshot_args(args: &Vec<String>) -> (r: Result<SnapshotConfig, SnapshotArgsError>)
    ensures
        args.len() < 2 ==> r == Err::<SnapshotConfig, SnapshotArgsError>(SnapshotArgsError::MissingPid),
        args.len() >= 2 && parse_arg_u32(args@[1]@) is None ==> r == Err::<SnapshotConfig, SnapshotArgsError>(
            SnapshotArgsError::InvalidPid,
        ),
        args.len() == 2 && parse_arg_u32(args@[1]@) is Some ==> r == Err::<SnapshotConfig, SnapshotArgsError>(
            SnapshotArgsError::MissingOutputDir,
        ),
        args.len() >= 3 && parse_arg_u32(args@[1]@) is Some ==> (r matches Ok(c) && c.pid == parse_arg_u32(
            args@[1]@,
        )->0 && c.output_dir@ == args@[2]@),
{
    if args.len() < 2 {
        return Err(SnapshotArgsError::MissingPid);
    }
    let pid = match parse_arg(&args[1]) {
        Some(p) => p,
        None => {
            return Err(SnapshotArgsError::InvalidPid);
        },
    };
    if args.len() < 3 {
        return Err(SnapshotArgsError::MissingOutputDir);
    }
    Ok(SnapshotConfig { pid, output_dir: args[2].clone() })
}

/// The process-tree program runs as its threaded part when its first
/// argument is `threaded`.
pub fn is_threaded_invocation(args: &Vec<String>) -> (r: bool)
    ensures
        r == (args.len() > 1 && args@[1]@ == "threaded"@),
{
    if args.len() > 1 {
        let threaded = String::from_str("threaded");
        args[1] == threaded
    } else {
        false
    }
}

/// What the memory program does.
#[derive(PartialEq, Eq, Structural, Clone, Copy, Debug)]
pub enum MemoryMode {
    /// `malloc`: keep starting allocating threads.
    Allocate,
    /// `free`: wait for a termination signal, then release the memory.
    Release,
    /// Any other word: do nothing.
    Idle,
}

/// The mode named by the memory program's first argument, or `None` when
/// there is none.
pub fn memory_mode(args: &Vec<String>) -> (r: Option<MemoryMode>)
    ensures
        args.len() < 2 <==> r is None,
        r == Some(MemoryMode::Allocate) <==> (args.len() >= 2 && args@[1]@ == "malloc"@),
        r == Some(MemoryMode::Release) <==> (args.len() >= 2 && args@[1]@ == "free"@ && args@[1]@ != "malloc"@),
{
    if args.len() < 2 {
        return None;
    }
    let malloc = String::from_str("malloc");
    let free = String::from_str("free");
    if args[1] == malloc {
        Some(MemoryMode::Allocate)
    } else if args[1] == free {
        Some(MemoryMode::Release)
    } else {
        Some(MemoryMode::Idle)
    }
}

} // verus!
