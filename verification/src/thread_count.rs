//! How many threads a process has, and the rule that it must be one.

use vstd::prelude::*;
use crate::text::{
    cat, cat3, cat4, chars_of, numeral, numeral_of, parse_unsigned, read_unsigned, split_tokens,
    string_of, texts, tokens,
};

verus! {

/// Why a status text does not tell the number of threads.
#[derive(Debug, Clone, Copy, PartialEq, Eq, Structural)]
pub enum StatusError {
    NoThreadsLine,
    MalformedThreadsLine,
}

impl StatusError {
    /// The reason in words.
    pub open spec fn message(self) -> Seq<char> {
        match self {
            StatusError::NoThreadsLine => "no Threads: line"@,
            StatusError::MalformedThreadsLine => "malformed Threads: line"@,
        }
    }

    /// The reason in words.
    pub fn to_text(self) -> (r: &'static str)
        ensures
            r@ == self.message(),
    {
        match self {
            StatusError::NoThreadsLine => "no Threads: line",
            StatusError::MalformedThreadsLine => "malformed Threads: line",
        }
    }
}

/// The length of the line that `s` starts with.
pub open spec fn line_len(s: Seq<char>) -> nat
    decreases s.len(),
{
    if s.len() == 0 || s[0] == '\n' {
        0
    } else {
        1 + line_len(s.skip(1))
    }
}

/// A line is no longer than the text it starts.
pub proof fn lemma_line_len_bound(s: Seq<char>)
    ensures
        line_len(s) <= s.len(),
    decreases s.len(),
{
    if s.len() > 0 {
        lemma_line_len_bound(s.skip(1));
    }
}

/// The first line of `s` that starts with `prefix`.
pub open spec fn line_with(s: Seq<char>, prefix: Seq<char>) -> Option<Seq<char>>
    decreases s.len(),
{
    let line = s.take(line_len(s) as int);
    if prefix.is_prefix_of(line) {
        Some(line)
    } else if line_len(s) < s.len() {
        proof {
            lemma_line_len_bound(s);
        }
        line_with(s.skip(line_len(s) as int + 1), prefix)
    } else {
        None
    }
}

/// The number of threads that a status text tells: the second word of the first
/// line that starts with `Threads:`.
pub open spec fn threads_in(status: Seq<char>) -> Result<nat, StatusError> {
    match line_with(status, "Threads:"@) {
        None => Err(StatusError::NoThreadsLine),
        Some(line) => if tokens(line).len() < 2 {
            Err(StatusError::MalformedThreadsLine)
        } else {
            match read_unsigned(tokens(line)[1], 10, usize::MAX as nat) {
                Ok(n) => Ok(n),
                Err(_) => Err(StatusError::MalformedThreadsLine),
            }
        },
    }
}

fn line_end(chars: &Vec<char>, from: usize) -> (r: usize)
    requires
        from <= chars@.len(),
    ensures
        from <= r <= chars@.len(),
        r - from == line_len(chars@.skip(from as int)),
{
    let mut i: usize = from;
    while i < chars.len() && chars[i] != '\n'
        invariant
            from <= i <= chars@.len(),
            line_len(chars@.skip(from as int)) == (i - from) + line_len(chars@.skip(i as int)),
        decreases chars@.len() - i,
    {
        assert(chars@.skip(i as int).skip(1) =~= chars@.skip(i + 1));
        i = i + 1;
    }
    i
}

fn starts_with(chars: &Vec<char>, from: usize, to: usize, prefix: &Vec<char>) -> (r: bool)
    requires
        from <= to <= chars@.len(),
    ensures
        r == prefix@.is_prefix_of(chars@.subrange(from as int, to as int)),
{
    if to - from < prefix.len() {
        return false;
    }
    let mut i: usize = 0;
    while i < prefix.len()
        invariant
            i <= prefix@.len() <= to - from,
            from <= to <= chars@.len(),
            forall|j: int| 0 <= j < i ==> chars@[from + j] == prefix@[j],
        decreases prefix@.len() - i,
    {
        if chars[from + i] != prefix[i] {
            assert(chars@.subrange(from as int, to as int)[i as int] != prefix@[i as int]);
            return false;
        }
        i = i + 1;
    }
    assert(prefix@ =~= chars@.subrange(from as int, to as int).subrange(0, prefix@.len() as int));
    true
}

fn find_line(status: &str, prefix: &str) -> (r: Option<String>)
    ensures
        match r {
            Some(line) => line_with(status@, prefix@) == Some(line@),
            None => line_with(status@, prefix@) is None,
        },
{
    let chars = chars_of(status);
    let wanted = chars_of(prefix);
    let mut from: usize = 0;
    assert(status@.skip(0) =~= status@);
    loop
        invariant
            from <= chars@.len(),
            chars@ == status@,
            wanted@ == prefix@,
            line_with(status@, prefix@) == line_with(status@.skip(from as int), prefix@),
        decreases chars@.len() - from,
    {
        let to = line_end(&chars, from);
        let ghost rest = status@.skip(from as int);
        assert(rest.take((to - from) as int) =~= status@.subrange(from as int, to as int));
        if starts_with(&chars, from, to, &wanted) {
            return Some(string_of(&chars, from, to));
        }
        if to >= chars.len() {
            return None;
        }
        assert(rest.skip((to - from) as int + 1) =~= status@.skip(to + 1));
        from = to + 1;
    }
}

/// Reads the number of threads from the text of `/proc/self/status`.
pub fn parse_thread_count(status: &str) -> (r: Result<usize, StatusError>)
    ensures
        r matches Ok(n) ==> threads_in(status@) == Ok::<nat, StatusError>(n as nat),
        r matches Err(e) ==> threads_in(status@) == Err::<nat, StatusError>(e),
{
    match find_line(status, "Threads:") {
        None => Err(StatusError::NoThreadsLine),
        Some(line) => {
            let words = split_tokens(line.as_str());
            assert(texts(words@).len() == words@.len());
            if words.len() < 2 {
                return Err(StatusError::MalformedThreadsLine);
            }
            assert(texts(words@)[1] == words@[1]@);
            match parse_unsigned(words[1].as_str(), 10, usize::MAX as u64) {
                Ok(n) => {
                    proof {
                        crate::text::lemma_read_digits_bound(words@[1]@, 10, usize::MAX as nat, 0);
                        crate::text::lemma_read_digits_bound(
                            words@[1]@.skip(1),
                            10,
                            usize::MAX as nat,
                            0,
                        );
                    }
                    Ok(n as usize)
                },
                Err(_) => Err(StatusError::MalformedThreadsLine),
            }
        },
    }
}

/// The number of threads out of a signed count that a kernel reports; a negative
/// one counts as none.
pub fn threads_from_signed(count: i32) -> (r: usize)
    ensures
        r == (if count < 0 {
            0
        } else {
            count as int
        }),
{
    if count < 0 {
        0
    } else {
        count as usize
    }
}

/// The number of threads out of the size of a table with one record for each of
/// them. A table without records is not to be trusted: `None`.
pub fn threads_from_records(size: usize, record: usize) -> (r: Option<usize>)
    requires
        record > 0,
    ensures
        r is None <==> size == 0,
        r matches Some(n) ==> n == size / record,
{
    if size == 0 {
        None
    } else {
        Some(size / record)
    }
}

/// What is said of a process whose number of threads is not one.
pub open spec fn violation_text(caller: Seq<char>, count: nat) -> Seq<char> {
    caller + ": "@ + numeral(count, 10) + " threads running (expected 1). Call "@ + caller
        + " before spawning threads, async runtimes, or libraries with background threads."@
}

/// The complaint if the number of threads is anything but one.
pub fn single_threaded_violation(caller: &str, count: usize) -> (r: Option<String>)
    ensures
        r is None <==> count == 1,
        r matches Some(m) ==> m@ == violation_text(caller@, count as nat),
{
    if count == 1 {
        None
    } else {
        let number = numeral_of(count as u64, 10);
        let head = cat4(
            caller,
            ": ",
            number.as_str(),
            " threads running (expected 1). Call ",
        );
        Some(
            cat3(
                head.as_str(),
                caller,
                " before spawning threads, async runtimes, or libraries with background threads.",
            ),
        )
    }
}

/// What is said of a process whose number of threads is unknown.
pub open spec fn unknown_text(caller: Seq<char>) -> Seq<char> {
    caller + ": cannot determine thread count to verify single-threadedness"@
}

/// Lets `caller` go on if the process is known to have exactly one thread;
/// otherwise says why not. The count is `None` where it cannot be determined.
pub fn assert_single_threaded(caller: &str, count: Option<usize>) -> (r: Result<(), String>)
    ensures
        r is Ok <==> count == Some(1usize),
        r matches Err(m) ==> m@ == (match count {
            Some(n) => violation_text(caller@, n as nat),
            None => unknown_text(caller@),
        }),
{
    match count {
        None => Err(
            cat(caller, ": cannot determine thread count to verify single-threadedness"),
        ),
        Some(n) => match single_threaded_violation(caller, n) {
            Some(message) => Err(message),
            None => Ok(()),
        },
    }
}

} // verus!
