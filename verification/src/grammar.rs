//! The grammar of save-file names, over sequences of characters.
//!
//! Each matcher reads a prefix of its input. It gives `Ok` with the input that
//! is left and what it read, or `Err` with the place where it stopped. The
//! executable matchers of [`crate::parser`] return exactly these values.

use vstd::prelude::*;
use crate::failure::{Expected, Mismatch};
use crate::lemmas::lemma_digit_run;
use crate::save_info_struct::NameView;

verus! {

/// What a matcher gives: the input left and the value read, or a failure.
pub type Matched<T> = Result<(Seq<char>, T), Mismatch>;

/// The marker `__` on either side of an internal tag.
pub open spec fn marker() -> Seq<char> {
    seq!['_', '_']
}

/// The literal `user` before the user tag.
pub open spec fn user_prefix() -> Seq<char> {
    seq!['u', 's', 'e', 'r']
}

/// The `_` before a version.
pub open spec fn version_prefix() -> Seq<char> {
    seq!['_']
}

/// The `.` between the digit groups of a version.
pub open spec fn separator() -> Seq<char> {
    seq!['.']
}

/// The literal `.dat`.
pub open spec fn suffix() -> Seq<char> {
    seq!['.', 'd', 'a', 't']
}

/// The literal `.bak`.
pub open spec fn backup_marker() -> Seq<char> {
    seq!['.', 'b', 'a', 'k']
}

/// `c` is one of `0` to `9`.
pub open spec fn is_digit(c: char) -> bool {
    '0' <= c && c <= '9'
}

/// Every character of `s` is a decimal digit. The empty sequence qualifies.
pub open spec fn all_digits(s: Seq<char>) -> bool {
    forall|i: int| 0 <= i < s.len() ==> is_digit(#[trigger] s[i])
}

/// The character of `s` at `i` is a digit, or a `.` with a digit on either
/// side.
pub open spec fn version_char(s: Seq<char>, i: int) -> bool {
    is_digit(s[i]) || (s[i] == '.' && 0 < i < s.len() - 1 && is_digit(s[i - 1]) && is_digit(
        s[i + 1],
    ))
}

/// `s` is one or more groups of digits with one `.` between neighbours: it is
/// not empty, and each of its characters is a digit, or a `.` with a digit on
/// either side.
pub open spec fn is_version(s: Seq<char>) -> bool {
    &&& s.len() > 0
    &&& forall|i: int| 0 <= i < s.len() ==> #[trigger] version_char(s, i)
}

/// `s` does not begin with a `.` that a digit follows.
pub open spec fn no_group(s: Seq<char>) -> bool {
    !(s.len() > 1 && s[0] == '.' && is_digit(s[1]))
}

/// `s` does not go on with a version that ends in front of it: it begins
/// neither with a digit nor with a `.` that a digit follows.
pub open spec fn ends_version(s: Seq<char>) -> bool {
    &&& s.len() > 0 ==> !is_digit(s[0])
    &&& no_group(s)
}

/// The number of decimal digits that `s` begins with.
pub open spec fn digit_run(s: Seq<char>) -> nat
    decreases s.len(),
{
    if s.len() > 0 && is_digit(s[0]) {
        1 + digit_run(s.skip(1))
    } else {
        0
    }
}

/// The length of what separates and continues a version at the start of `s`:
/// as many times as possible, a `.` that a digit follows and the digits
/// behind it.
pub open spec fn groups_run(s: Seq<char>) -> nat
    decreases s.len(),
{
    if s.len() > 1 && s[0] == '.' && is_digit(s[1]) {
        let d = digit_run(s.skip(1)) as int;
        proof {
            lemma_digit_run(s.skip(1));
        }
        (1 + d + groups_run(s.skip(1 + d))) as nat
    } else {
        0
    }
}

/// The length of the longest version that `s` begins with, 0 where it begins
/// with none: a group of digits and what continues it.
pub open spec fn version_run(s: Seq<char>) -> nat {
    let d = digit_run(s) as int;
    if d == 0 {
        0
    } else {
        (d + groups_run(s.skip(d))) as nat
    }
}

/// The first position at or after `from` where `pattern` occurs in `s`.
pub open spec fn first_occurrence(s: Seq<char>, pattern: Seq<char>, from: int) -> Option<int>
    decreases s.len() + 1 - from,
{
    if from < 0 || from > s.len() {
        None
    } else if pattern.is_prefix_of(s.skip(from)) {
        Some(from)
    } else {
        first_occurrence(s, pattern, from + 1)
    }
}

/// `pattern` occurs somewhere in `s`.
pub open spec fn occurs_in(pattern: Seq<char>, s: Seq<char>) -> bool {
    exists|k: int| 0 <= k <= s.len() && pattern.is_prefix_of(#[trigger] s.skip(k))
}

/// What an optional element gives: the element's own result where it matched,
/// and otherwise nothing read and the input untouched.
pub open spec fn optional<T>(m: Matched<T>, input: Seq<char>) -> (Seq<char>, Option<T>) {
    match m {
        Ok((rest, value)) => (rest, Some(value)),
        Err(_) => (input, None),
    }
}

/// The internal tag: `__`, then the text up to the first `__` behind it, which
/// is not empty, then that `__`.
pub open spec fn match_internal_tag(s: Seq<char>) -> Matched<Seq<char>> {
    if !marker().is_prefix_of(s) {
        Err(Mismatch { remainder: s, expected: Expected::OpeningMarker })
    } else {
        let body = s.skip(2);
        match first_occurrence(body, marker(), 0) {
            None => Err(Mismatch { remainder: body, expected: Expected::ClosingMarker }),
            Some(end) => if end == 0 {
                Err(Mismatch { remainder: body, expected: Expected::InternalTag })
            } else {
                Ok((body.skip(end + 2), body.take(end)))
            },
        }
    }
}

/// The version: `_`, then the longest version that follows.
pub open spec fn match_version(s: Seq<char>) -> Matched<Seq<char>> {
    if !version_prefix().is_prefix_of(s) {
        Err(Mismatch { remainder: s, expected: Expected::VersionPrefix })
    } else {
        let body = s.skip(1);
        let n = version_run(body) as int;
        if n == 0 {
            Err(Mismatch { remainder: body, expected: Expected::Digit })
        } else {
            Ok((body.skip(n), body.take(n)))
        }
    }
}

/// The backup marker: `.bak`, then digits, none included, to the end of the
/// input. The digits are the value.
pub open spec fn match_suffix_bak(s: Seq<char>) -> Matched<Seq<char>> {
    if !backup_marker().is_prefix_of(s) {
        Err(Mismatch { remainder: s, expected: Expected::BackupMarker })
    } else {
        let body = s.skip(4);
        let n = digit_run(body) as int;
        if n < body.len() {
            Err(Mismatch { remainder: body.skip(n), expected: Expected::EndOfInput })
        } else {
            Ok((body.skip(n), body.take(n)))
        }
    }
}

/// The suffix: `.dat`, then either the end of the input or a backup marker.
/// The value is the backup's digits where there is a marker.
pub open spec fn match_suffix(s: Seq<char>) -> Matched<Option<Seq<char>>> {
    if !suffix().is_prefix_of(s) {
        Err(Mismatch { remainder: s, expected: Expected::Suffix })
    } else {
        let (rest, backup) = optional(match_suffix_bak(s.skip(4)), s.skip(4));
        if rest.len() > 0 {
            Err(Mismatch { remainder: rest, expected: Expected::EndOfInput })
        } else {
            Ok((rest, backup))
        }
    }
}

/// What may follow the user tag: an optional version, then the suffix.
pub open spec fn match_tail(s: Seq<char>) -> Matched<(Option<Seq<char>>, Option<Seq<char>>)> {
    let (rest, version) = optional(match_version(s), s);
    match match_suffix(rest) {
        Ok((end, backup)) => Ok((end, (version, backup))),
        Err(e) => Err(e),
    }
}

/// `s` is, from its first character to its last, an optional version and the
/// suffix.
pub open spec fn is_tail(s: Seq<char>) -> bool {
    match_tail(s) is Ok
}

/// The rest of `s` from position `at` on is a tail.
pub open spec fn tail_at(s: Seq<char>, at: int) -> bool {
    is_tail(s.skip(at))
}

/// The first position at or after `from` from which the rest of `s` is a
/// tail.
pub open spec fn first_tail(s: Seq<char>, from: int) -> Option<int>
    decreases s.len() + 1 - from,
{
    if from < 0 || from > s.len() {
        None
    } else if tail_at(s, from) {
        Some(from)
    } else {
        first_tail(s, from + 1)
    }
}

/// The user tag: `user`, then the characters up to the first position from
/// which the rest of the input is a tail. There is at least one such
/// character.
pub open spec fn match_user_tag(s: Seq<char>) -> Matched<Seq<char>> {
    if !user_prefix().is_prefix_of(s) {
        Err(Mismatch { remainder: s, expected: Expected::UserPrefix })
    } else {
        let body = s.skip(4);
        match first_tail(body, 0) {
            None => Err(Mismatch { remainder: Seq::empty(), expected: Expected::Tail }),
            Some(end) => if end == 0 {
                Err(Mismatch { remainder: body, expected: Expected::Tag })
            } else {
                Ok((body.skip(end), body.take(end)))
            },
        }
    }
}

/// A whole name: an optional internal tag, the user tag, and the tail.
pub open spec fn match_name(s: Seq<char>) -> Matched<NameView> {
    let (after, internal_tag) = optional(match_internal_tag(s), s);
    match match_user_tag(after) {
        Err(e) => Err(e),
        Ok((rest, tag)) => match match_tail(rest) {
            Err(e) => Err(e),
            Ok((end, (version, backup_id))) => Ok(
                (end, NameView { tag, version, backup_id, internal_tag }),
            ),
        },
    }
}

} // verus!
