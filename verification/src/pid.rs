//! Parsing the process identifier echoed back by the launching shell.
//!
//! The shell prints the backgrounded job's identifier as one line; that
//! line, with surrounding whitespace removed, must be a plain decimal
//! number that fits the identifier type.

use crate::errors::SpawnError;
use vstd::prelude::*;
use vstd::string::StrSliceExecFns;

verus! {

/// The whitespace the trimming removes: blank, tab, line feed, carriage
/// return.
pub open spec fn is_trim_space(c: char) -> bool {
    c == ' ' || c == '\t' || c == '\n' || c == '\r'
}

/// The text with its leading whitespace removed.
pub open spec fn trim_front(s: Seq<char>) -> Seq<char>
    decreases s.len(),
{
    if s.len() > 0 && is_trim_space(s[0]) {
        trim_front(s.drop_first())
    } else {
        s
    }
}

/// The text with its trailing whitespace removed.
pub open spec fn trim_back(s: Seq<char>) -> Seq<char>
    decreases s.len(),
{
    if s.len() > 0 && is_trim_space(s.last()) {
        trim_back(s.drop_last())
    } else {
        s
    }
}

/// The text with whitespace removed at both ends.
pub open spec fn trimmed(s: Seq<char>) -> Seq<char> {
    trim_back(trim_front(s))
}

/// A decimal digit.
pub open spec fn is_decimal_digit(c: char) -> bool {
    48 <= c as int <= 57
}

/// The numeric value of one decimal digit.
pub open spec fn digit_value(c: char) -> nat {
    (c as int - 48) as nat
}

/// The number a digit string denotes, most significant digit first.
pub open spec fn decimal_value(s: Seq<char>) -> nat
    decreases s.len(),
{
    if s.len() == 0 {
        0
    } else {
        decimal_value(s.drop_last()) * 10 + digit_value(s.last())
    }
}

/// What counts as a well-formed process identifier text: non-empty, all
/// decimal digits, and a value that fits the identifier type.
pub open spec fn valid_pid_text(s: Seq<char>) -> bool {
    &&& s.len() > 0
    &&& forall|j: int| 0 <= j < s.len() ==> is_decimal_digit(s[j])
    &&& decimal_value(s) <= u32::MAX
}

/// Dropping leading whitespace is taking the tail from the first
/// non-whitespace position.
proof fn lemma_trim_front_subrange(s: Seq<char>, k: int)
    requires
        0 <= k <= s.len(),
        forall|j: int| 0 <= j < k ==> is_trim_space(s[j]),
        k == s.len() || !is_trim_space(s[k]),
    ensures
        trim_front(s) == s.subrange(k, s.len() as int),
    decreases k,
{
    if k == 0 {
        assert(s.subrange(0, s.len() as int) =~= s);
    } else {
        let s2 = s.drop_first();
        assert(forall|j: int| 0 <= j < k - 1 ==> is_trim_space(s2[j]));
        lemma_trim_front_subrange(s2, k - 1);
        assert(s2.subrange(k - 1, s2.len() as int) =~= s.subrange(k, s.len() as int));
    }
}

/// Dropping trailing whitespace is taking the front up to the last
/// non-whitespace position.
proof fn lemma_trim_back_subrange(s: Seq<char>, k: int)
    requires
        0 <= k <= s.len(),
        forall|j: int| k <= j < s.len() ==> is_trim_space(s[j]),
        k == 0 || !is_trim_space(s[k - 1]),
    ensures
        trim_back(s) == s.subrange(0, k),
    decreases s.len(),
{
    if k == s.len() {
        assert(s.subrange(0, s.len() as int) =~= s);
        if s.len() > 0 {
            assert(!is_trim_space(s.last()));
        }
    } else {
        let s2 = s.drop_last();
        assert(is_trim_space(s.last()));
        assert(forall|j: int| k <= j < s2.len() ==> is_trim_space(s2[j]));
        lemma_trim_back_subrange(s2, k);
        assert(s2.subrange(0, k) =~= s.subrange(0, k));
    }
}

/// A longer digit prefix never denotes a smaller number.
proof fn lemma_decimal_value_prefix_le(s: Seq<char>, i: int, j: int)
    requires
        0 <= i <= j <= s.len(),
    ensures
        decimal_value(s.subrange(0, i)) <= decimal_value(s.subrange(0, j)),
    decreases j - i,
{
    if i < j {
        lemma_decimal_value_prefix_le(s, i, j - 1);
        let p = s.subrange(0, j);
        assert(p.drop_last() =~= s.subrange(0, j - 1));
        assert(decimal_value(s.subrange(0, j - 1)) <= decimal_value(p));
    }
}

/// Whether one character is whitespace that trimming removes.
fn is_space_char(c: char) -> (r: bool)
    ensures
        r == is_trim_space(c),
{
    c == ' ' || c == '\t' || c == '\n' || c == '\r'
}

/// Whether one character is a decimal digit, with its value.
fn digit_of(c: char) -> (r: Option<u32>)
    ensures
        match r {
            Some(d) => is_decimal_digit(c) && d == digit_value(c) && d <= 9,
            None => !is_decimal_digit(c),
        },
{
    let v = c as u32;
    if 48 <= v && v <= 57 {
        Some(v - 48)
    } else {
        None
    }
}

/// Parse the line the shell echoed into a process identifier.
///
/// The line is trimmed of surrounding whitespace; what remains must be a
/// non-empty run of decimal digits whose value fits the identifier type.
/// Exactly the lines that fail that test are rejected, with the trimmed
/// text carried in the error.
pub fn parse_pid(line: &str) -> (r: Result<u32, SpawnError>)
    ensures
        match r {
            Ok(pid) => valid_pid_text(trimmed(line@)) && pid as nat == decimal_value(
                trimmed(line@),
            ),
            Err(e) => !valid_pid_text(trimmed(line@)) && (e matches SpawnError::PidParseFailure {
                raw,
            } && raw@ == trimmed(line@)),
        },
{
    let n = line.unicode_len();
    let mut start: usize = 0;
    while start < n && is_space_char(line.get_char(start))
        invariant
            0 <= start <= n,
            n == line@.len(),
            forall|j: int| 0 <= j < start ==> is_trim_space(line@[j]),
        decreases n - start,
    {
        start = start + 1;
    }
    let mut end: usize = n;
    while end > start && is_space_char(line.get_char(end - 1))
        invariant
            start <= end <= n,
            n == line@.len(),
            forall|j: int| 0 <= j < start ==> is_trim_space(line@[j]),
            start == n || !is_trim_space(line@[start as int]),
            forall|j: int| end <= j < n ==> is_trim_space(line@[j]),
        decreases end,
    {
        end = end - 1;
    }
    let t = line.substring_char(start, end);
    proof {
        lemma_trim_front_subrange(line@, start as int);
        let u = line@.subrange(start as int, n as int);
        assert(forall|j: int| end - start <= j < u.len() ==> is_trim_space(u[j]));
        lemma_trim_back_subrange(u, end - start);
        assert(u.subrange(0, end - start) =~= line@.subrange(start as int, end as int));
        assert(trimmed(line@) == t@);
    }
    let m = end - start;
    if m == 0 {
        return Err(SpawnError::PidParseFailure { raw: t.to_owned() });
    }
    let mut acc: u64 = 0;
    let mut i: usize = 0;
    while i < m
        invariant
            0 <= i <= m,
            m == t@.len(),
            t@ == trimmed(line@),
            forall|j: int| 0 <= j < i ==> is_decimal_digit(t@[j]),
            acc <= u32::MAX,
            acc as nat == decimal_value(t@.subrange(0, i as int)),
        decreases m - i,
    {
        let c = t.get_char(i);
        match digit_of(c) {
            Some(d) => {
                acc = acc * 10 + d as u64;
                proof {
                    let p = t@.subrange(0, i as int + 1);
                    assert(p.drop_last() =~= t@.subrange(0, i as int));
                    assert(p.last() == t@[i as int]);
                }
                if acc > 0xffff_ffff {
                    proof {
                        lemma_decimal_value_prefix_le(t@, i as int + 1, m as int);
                        assert(t@.subrange(0, m as int) =~= t@);
                    }
                    return Err(SpawnError::PidParseFailure { raw: t.to_owned() });
                }
            },
            None => {
                return Err(SpawnError::PidParseFailure { raw: t.to_owned() });
            },
        }
        i = i + 1;
    }
    proof {
        assert(t@.subrange(0, m as int) =~= t@);
    }
    Ok(acc as u32)
}

/// Judge the launching shell's handshake once it has exited.
///
/// A shell that exited with a failure status is reported as
/// [`SpawnError::ShellFailure`] with its status and its buffered error
/// text; one that succeeded must have echoed the backgrounded process
/// identifier, and the identifier line decides as [`parse_pid`] does.
pub fn interpret_shell_outcome(
    status_success: bool,
    status_code: Option<i32>,
    stderr_text: String,
    pid_line: &str,
) -> (r: Result<u32, SpawnError>)
    ensures
        match r {
            Ok(pid) => status_success && valid_pid_text(trimmed(pid_line@)) && pid
                as nat == decimal_value(trimmed(pid_line@)),
            Err(e) => if status_success {
                !valid_pid_text(trimmed(pid_line@)) && (e matches SpawnError::PidParseFailure {
                    raw,
                } && raw@ == trimmed(pid_line@))
            } else {
                e matches SpawnError::ShellFailure { status, stderr } && status == status_code
                    && stderr == stderr_text
            },
        },
{
    if status_success {
        parse_pid(pid_line)
    } else {
        Err(SpawnError::ShellFailure { status: status_code, stderr: stderr_text })
    }
}

} // verus!
