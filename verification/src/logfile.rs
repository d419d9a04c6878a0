//! The diagnostic log file: how a line is formed, how a new file starts, and when and how
//! the file is cut back to its most recent lines.

use vstd::prelude::*;
use crate::settings::string_views;

verus! {

/// A log line: the timestamp in square brackets, a space, the message and a newline.
pub open spec fn spec_log_line(timestamp: Seq<char>, msg: Seq<char>) -> Seq<char> {
    "["@ + timestamp + "] "@ + msg + "\n"@
}

/// Forms a log line from a timestamp and a message. The timestamp is read from the clock
/// by the caller.
pub fn log_line(timestamp: &str, msg: &str) -> (r: String)
    ensures
        r@ == spec_log_line(timestamp@, msg@),
{
    let mut r = String::from_str("[");
    r.append(timestamp);
    r.append("] ");
    r.append(msg);
    r.append("\n");
    r
}

/// The bytes a log file starts with: the UTF-8 byte order mark for a new file (so that
/// Windows tools detect the encoding), nothing when appending to an existing one.
pub fn file_prefix(new_file: bool) -> (r: Vec<u8>)
    ensures
        r@ == if new_file { seq![0xEFu8, 0xBBu8, 0xBFu8] } else { Seq::<u8>::empty() },
{
    let mut r: Vec<u8> = Vec::new();
    if new_file {
        r.push(0xEF);
        r.push(0xBB);
        r.push(0xBF);
    }
    r
}

/// Lines the file may hold before it is cut back.
pub const MAX_LOG_LINES: usize = 2000;

/// Lines kept when the file is cut back.
pub const KEEP_LOG_LINES: usize = 1000;

/// Whether the file should be checked for cutting back after `lines_written` lines were
/// written since start.
pub fn rotation_due(lines_written: u32) -> (b: bool)
    ensures
        b == (lines_written > MAX_LOG_LINES),
{
    lines_written as usize > MAX_LOG_LINES
}

/// The lines a file is rewritten with: `None` (the file is left alone) while it holds at
/// most `max_lines` lines, otherwise its last `keep_lines` lines (all of them when there
/// are fewer), in order.
pub open spec fn spec_trimmed(lines: Seq<Seq<char>>, max_lines: nat, keep_lines: nat) -> Option<
    Seq<Seq<char>>,
> {
    if lines.len() <= max_lines {
        None
    } else if keep_lines >= lines.len() {
        Some(lines)
    } else {
        Some(lines.skip(lines.len() - keep_lines))
    }
}

/// Chooses the lines to keep when cutting back a log file.
pub fn trimmed_lines(lines: &[String], max_lines: usize, keep_lines: usize) -> (r: Option<
    Vec<String>,
>)
    ensures
        match r {
            None => spec_trimmed(string_views(lines@), max_lines as nat, keep_lines as nat) is None,
            Some(v) => spec_trimmed(string_views(lines@), max_lines as nat, keep_lines as nat)
                == Some(string_views(v@)),
        },
{
    let n: usize = lines.len();
    if n <= max_lines {
        return None;
    }
    let start: usize = if keep_lines >= n { 0 } else { n - keep_lines };
    let mut v: Vec<String> = Vec::new();
    let mut i: usize = start;
    while i < n
        invariant
            n == lines@.len(),
            start <= i <= n,
            string_views(v@) =~= string_views(lines@).subrange(
                start as int,
                i as int,
            ),
        decreases n - i,
    {
        let ghost before = v@;
        v.push(lines[i].clone());
        assert(string_views(v@) =~= string_views(before).push(
            lines@[i as int]@,
        ));
        i = i + 1;
    }
    proof {
        let views = string_views(lines@);
        if keep_lines >= n {
            assert(views.subrange(0, n as int) =~= views);
        } else {
            assert(views.subrange(start as int, n as int) =~= views.skip(n - keep_lines));
        }
    }
    Some(v)
}

} // verus!
