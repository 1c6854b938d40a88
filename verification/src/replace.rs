//! Gating and substitution for one file's rewrite: the checks that decide
//! whether content is touched at all, the substitution applied to it, and
//! the errors reported for it.

use crate::pattern::{error_text, substituted, Pattern};
use vstd::prelude::*;

verus! {

/// The size ceiling for whole-file rewriting: four mebibytes.
pub const MAX_FILE_SIZE: u64 = 4 * 1024 * 1024;

/// A character counts as printable when its low byte lies in the visible
/// ASCII range, `0x20` through `0x7E`.  The classification looks only at the
/// low byte of the scalar value, so a character whose code point is larger
/// than `0xFF` counts as printable exactly when its value modulo 256 lands in
/// that range.  In particular a line feed is not printable.
pub open spec fn char_printable(c: char) -> bool {
    0x20 <= (c as u32) % 256 <= 0x7e
}

/// A sequence of characters is printable when each of its characters is.
pub open spec fn seq_printable(s: Seq<char>) -> bool {
    forall|i: int| 0 <= i < s.len() ==> char_printable(#[trigger] s[i])
}

/// Relies on `ascii_utils::Check::is_printable` for `char`: it truncates the
/// character to its low byte with `as u8` and accepts values 0x20 through
/// 0x7E.
#[verifier::external_body]
fn is_printable_char(c: char) -> (r: bool)
    ensures
        r == char_printable(c),
{
    ascii_utils::Check::is_printable(c)
}

/// Decides whether every character of `s` is printable.
pub fn string_is_printable(s: &str) -> (r: bool)
    ensures
        r == seq_printable(s@),
{
    let len = s.unicode_len();
    let mut i: usize = 0;
    while i < len
        invariant
            i <= len,
            len == s@.len(),
            forall|j: int| 0 <= j < i ==> char_printable(#[trigger] s@[j]),
        decreases len - i,
    {
        if !is_printable_char(s.get_char(i)) {
            return false;
        }
        i = i + 1;
    }
    true
}

/// Why one file's rewrite was given up: the file is over the size ceiling,
/// its content is not printable text, or the filesystem or the substitution
/// engine failed, with the failure's text.  Each is reported for its file
/// and never stops the run.
#[derive(Debug)]
pub enum ReplaceError {
    FileTooBig,
    FileNotPrintable,
    IOError(String),
}

/// Carry a value through, turning an error's text into the rewrite error
/// that reports it.
pub fn conv_result<T>(res: Result<T, String>) -> (r: Result<T, ReplaceError>)
    ensures
        res matches Ok(v) ==> (r matches Ok(w) && w == v),
        res matches Err(m) ==> (r matches Err(e) && e == ReplaceError::IOError(m)),
{
    match res {
        Ok(v) => Ok(v),
        Err(m) => Err(ReplaceError::IOError(m)),
    }
}

/// The size gate of whole-file mode: a file over the ceiling is refused
/// before its content is read, and exactly those files are.
pub fn check_size(size: u64) -> (r: Result<(), ReplaceError>)
    ensures
        size > MAX_FILE_SIZE ==> (r matches Err(e) && e == ReplaceError::FileTooBig),
        size <= MAX_FILE_SIZE ==> r is Ok,
{
    if size > MAX_FILE_SIZE {
        Err(ReplaceError::FileTooBig)
    } else {
        Ok(())
    }
}

/// The printability gate of line mode, applied to each bounded read window
/// in turn: a window with any unprintable character refuses the whole file,
/// and reading stops there.
pub fn check_printable_chunk(chunk: &str) -> (r: Result<(), ReplaceError>)
    ensures
        seq_printable(chunk@) ==> r is Ok,
        !seq_printable(chunk@) ==> (r matches Err(e) && e == ReplaceError::FileNotPrintable),
{
    if string_is_printable(chunk) {
        Ok(())
    } else {
        Err(ReplaceError::FileNotPrintable)
    }
}

/// Rewrite one file's whole content, already read and within the size
/// ceiling: content with any unprintable character is refused untouched;
/// printable content comes back with every match of the pattern
/// substituted; and where the engine gives up the search, its failure is
/// reported for this file alone.
pub fn rewrite_whole(contents: &str, pattern: &Pattern, replacement: &str) -> (r: Result<
    String,
    ReplaceError,
>)
    ensures
        !seq_printable(contents@) ==> (r matches Err(e) && e == ReplaceError::FileNotPrintable),
        seq_printable(contents@) ==> match substituted(pattern@, contents@, replacement@) {
            Some(s) => r matches Ok(out) && out@ == s,
            None => r matches Err(e) && e is IOError,
        },
{
    if !string_is_printable(contents) {
        return Err(ReplaceError::FileNotPrintable);
    }
    match pattern.try_substitute(contents, replacement) {
        Ok(out) => Ok(out),
        Err(e) => Err(ReplaceError::IOError(error_text(&e))),
    }
}

/// Rewrite one line of a file that passed the printability gate: the line
/// comes back with every match of the pattern substituted, or the engine's
/// failure is reported for this file alone.
pub fn transform_line(line: &str, pattern: &Pattern, replacement: &str) -> (r: Result<
    String,
    ReplaceError,
>)
    ensures
        match substituted(pattern@, line@, replacement@) {
            Some(s) => r matches Ok(out) && out@ == s,
            None => r matches Err(e) && e is IOError,
        },
{
    match pattern.try_substitute(line, replacement) {
        Ok(out) => Ok(out),
        Err(e) => Err(ReplaceError::IOError(error_text(&e))),
    }
}

} // verus!
