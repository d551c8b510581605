//! The hosting session: which process started this one, read from the
//! status text that the process table keeps for a process.

use crate::text::{chars_of, copy_range, is_whitespace, parse_u32, parsed_u32, starts_with};
use vstd::prelude::*;

verus! {

/// Where the line that holds position `start` ends: at the next line feed,
/// or at the end of the text.
pub open spec fn line_end(text: Seq<char>, start: int) -> int
    decreases text.len() - start,
{
    if start < 0 || start >= text.len() || text[start] == '\n' {
        start
    } else {
        line_end(text, start + 1)
    }
}

/// The line that begins at `start`, without its line feed.
pub open spec fn line_at(text: Seq<char>, start: int) -> Seq<char> {
    text.subrange(start, line_end(text, start))
}

/// A line begins at `start`: at the start of the text, or behind a line feed.
pub open spec fn is_line_start(text: Seq<char>, start: int) -> bool {
    0 <= start < text.len() && (start == 0 || text[start - 1] == '\n')
}

/// Where the first line begins that stands at or after `from` and begins
/// with `tag`.
pub open spec fn tagged_line_start(text: Seq<char>, tag: Seq<char>, from: int) -> Option<int>
    decreases text.len() - from,
{
    if from < 0 || from >= text.len() {
        None
    } else if is_line_start(text, from) && tag.is_prefix_of(line_at(text, from)) {
        Some(from)
    } else {
        tagged_line_start(text, tag, from + 1)
    }
}

/// The first position at or after `from` whose character is white space, if
/// `space` is set, or is none, if it is not; the length of the line where
/// no such position follows.
pub open spec fn next_where(line: Seq<char>, from: int, space: bool) -> int
    decreases line.len() - from,
{
    if from < 0 || from >= line.len() || is_whitespace(line[from]) == space {
        from
    } else {
        next_where(line, from + 1, space)
    }
}

/// The second of the words that white space separates in the line, if it
/// has two.
pub open spec fn second_word(line: Seq<char>) -> Option<Seq<char>> {
    let first_start = next_where(line, 0, false);
    let first_end = next_where(line, first_start, true);
    let start = next_where(line, first_end, false);
    let end = next_where(line, start, true);
    if start < line.len() {
        Some(line.subrange(start, end))
    } else {
        None
    }
}

/// The parent's process id as a status text gives it: in the first line
/// that begins with `PPid:`, the second word, read as a number. A carriage
/// return before a line feed is white space, so it belongs to no word.
pub open spec fn parent_pid_of(status: Seq<char>) -> Option<u32> {
    match tagged_line_start(status, "PPid:"@, 0) {
        Some(start) => match second_word(line_at(status, start)) {
            Some(word) => parsed_u32(word),
            None => None,
        },
        None => None,
    }
}

/// Finds where the line that begins at `start` ends.
fn find_line_end(text: &Vec<char>, start: usize) -> (end: usize)
    requires
        start <= text.len(),
    ensures
        end == line_end(text@, start as int),
        start <= end <= text.len(),
        end == text.len() || text[end as int] == '\n',
        forall|k: int| start <= k < end ==> text[k] != '\n',
{
    let mut end: usize = start;
    while end < text.len() && text[end] != '\n'
        invariant
            start <= end <= text.len(),
            line_end(text@, start as int) == line_end(text@, end as int),
            forall|k: int| start <= k < end ==> text[k] != '\n',
        decreases text.len() - end,
    {
        end += 1;
    }
    end
}

/// Finds the next position whose character is, or is not, white space.
fn find_next(line: &Vec<char>, from: usize, space: bool) -> (to: usize)
    requires
        from <= line.len(),
    ensures
        to == next_where(line@, from as int, space),
        from <= to <= line.len(),
{
    let mut to: usize = from;
    while to < line.len() && is_whitespace(line[to]) != space
        invariant
            from <= to <= line.len(),
            next_where(line@, from as int, space) == next_where(line@, to as int, space),
        decreases line.len() - to,
    {
        to += 1;
    }
    to
}

/// The second word of a line.
pub fn second_word_of(line: &Vec<char>) -> (word: Option<Vec<char>>)
    ensures
        match word {
            Some(w) => second_word(line@) == Some(w@),
            None => second_word(line@) is None,
        },
{
    let first_start = find_next(line, 0, false);
    let first_end = find_next(line, first_start, true);
    let start = find_next(line, first_end, false);
    let end = find_next(line, start, true);
    if start < line.len() {
        Some(copy_range(line, start, end))
    } else {
        None
    }
}

/// No line begins between the start of a line and its end.
proof fn lemma_no_line_start_within(text: Seq<char>, tag: Seq<char>, from: int, end: int)
    requires
        0 < from <= end + 1,
        end <= text.len(),
        forall|k: int| from - 1 <= k < end ==> text[k] != '\n',
    ensures
        tagged_line_start(text, tag, from) == tagged_line_start(text, tag, end + 1),
    decreases end + 1 - from,
{
    if from <= end {
        lemma_no_line_start_within(text, tag, from + 1, end);
    }
}

/// Reads the parent's process id from the status text of a process.
pub fn parent_pid(status: &str) -> (pid: Option<u32>)
    ensures
        pid == parent_pid_of(status@),
{
    let text = chars_of(status);
    let tag = chars_of("PPid:");
    let mut start: usize = 0;
    while start < text.len()
        invariant
            start <= text.len(),
            text@ == status@,
            tag@ == "PPid:"@,
            start == 0 || text[start - 1] == '\n',
            tagged_line_start(text@, tag@, 0) == tagged_line_start(text@, tag@, start as int),
        decreases text.len() - start,
    {
        let end = find_line_end(&text, start);
        let line = copy_range(&text, start, end);
        if starts_with(&line, &tag) {
            return match second_word_of(&line) {
                Some(word) => parse_u32(&word),
                None => None,
            };
        }
        proof {
            lemma_no_line_start_within(text@, tag@, start + 1, end as int);
        }
        if end >= text.len() {
            return None;
        }
        start = end + 1;
    }
    None
}

} // verus!
