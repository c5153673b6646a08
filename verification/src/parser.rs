//! The matchers, on string slices. Each returns what its counterpart in
//! [`crate::grammar`] gives for the characters of the input.

use vstd::prelude::*;
use vstd::string::StrSliceExecFns;
use crate::failure::{Expected, ParseFailure};
use crate::grammar::{
    all_digits, backup_marker, digit_run, ends_version, first_tail, groups_run, is_tail,
    is_version, marker, match_internal_tag, match_name, match_suffix, match_suffix_bak,
    match_user_tag, match_version, separator, suffix, tail_at, user_prefix, version_prefix,
    version_run, Matched,
};
use crate::laws::{read_is_what_is_written, read_then_written, tail_is_what_is_written};
use crate::lemmas::{
    lemma_digit_run, lemma_first_occurrence, lemma_internal_tag_read, lemma_suffix_bak_read,
    lemma_suffix_read, lemma_user_tag_read, lemma_version_read,
};
use crate::matchers::{at_end, digits0, digits1, literal, take_chars, until};
use crate::save_info_struct::{
    backup_fits, internal_fits, slice_view, suffix_part, tail_part, version_fits, NameView,
    SaveNameInfo,
};

verus! {

/// The characters of what a matcher of one slice returned.
pub open spec fn slice_result<'a>(r: Result<(&'a str, &'a str), ParseFailure<'a>>) -> Matched<
    Seq<char>,
> {
    match r {
        Ok((rest, value)) => Ok((rest@, value@)),
        Err(e) => Err(e@),
    }
}

/// The characters of what the suffix matcher returned.
pub open spec fn suffix_result<'a>(
    r: Result<(&'a str, Option<&'a str>), ParseFailure<'a>>,
) -> Matched<Option<Seq<char>>> {
    match r {
        Ok((rest, backup)) => Ok((rest@, slice_view(backup))),
        Err(e) => Err(e@),
    }
}

/// The characters of what the name matcher returned.
pub open spec fn name_result<'a>(r: Result<(&'a str, SaveNameInfo), ParseFailure<'a>>) -> Matched<
    NameView,
> {
    match r {
        Ok((rest, info)) => Ok((rest@, info@)),
        Err(e) => Err(e@),
    }
}

/// Reads an internal tag: `__`, a text that is not empty and runs up to the
/// next `__`, and that `__`. The text is the value.
pub fn parse_tag_internal<'a>(input: &'a str) -> (r: Result<(&'a str, &'a str), ParseFailure<'a>>)
    ensures
        slice_result(r) == match_internal_tag(input@),
        r matches Ok((rest, text)) ==> input@ == marker() + text@ + marker() + rest@
            && internal_fits(Some(text@)),
{
    proof {
        reveal_strlit("__");
        assert("__"@ =~= marker());
        lemma_internal_tag_read(input@);
    }
    let body = match literal("__", input) {
        Some(rest) => rest,
        None => {
            return Err(ParseFailure { remainder: input, expected: Expected::OpeningMarker });
        },
    };
    proof {
        lemma_first_occurrence(body@, marker(), 0);
    }
    match until("__", body) {
        None => Err(ParseFailure { remainder: body, expected: Expected::ClosingMarker }),
        Some((rest, text)) => {
            if text.is_empty() {
                return Err(ParseFailure { remainder: body, expected: Expected::InternalTag });
            }
            match literal("__", rest) {
                Some(after) => {
                    assert(after@ =~= body@.skip(text@.len() as int + 2));
                    Ok((after, text))
                },
                // The text was cut in front of a marker: this arm is never taken.
                None => Err(ParseFailure { remainder: rest, expected: Expected::ClosingMarker }),
            }
        },
    }
}

/// Reads a backup marker: `.bak` and digits, none included, to the end of
/// the input. The digits are the value.
pub fn parse_suffix_bak<'a>(input: &'a str) -> (r: Result<(&'a str, &'a str), ParseFailure<'a>>)
    ensures
        slice_result(r) == match_suffix_bak(input@),
        r matches Ok((rest, id)) ==> rest@.len() == 0 && input@ == backup_marker() + id@
            && all_digits(id@),
{
    proof {
        reveal_strlit(".bak");
        assert(".bak"@ =~= backup_marker());
        lemma_suffix_bak_read(input@);
    }
    let body = match literal(".bak", input) {
        Some(rest) => rest,
        None => {
            return Err(ParseFailure { remainder: input, expected: Expected::BackupMarker });
        },
    };
    proof {
        lemma_digit_run(body@);
    }
    match digits0(body) {
        Some((rest, id)) => {
            if at_end(rest) {
                Ok((rest, id))
            } else {
                Err(ParseFailure { remainder: rest, expected: Expected::EndOfInput })
            }
        },
        // Zero digits match as well: this arm is never taken.
        None => Err(ParseFailure { remainder: body, expected: Expected::Digit }),
    }
}

/// Reads the suffix: `.dat`, then the end of the input or a backup marker.
/// The value is the backup's digits where there is a marker.
pub fn parse_suffix<'a>(input: &'a str) -> (r: Result<
    (&'a str, Option<&'a str>),
    ParseFailure<'a>,
>)
    ensures
        suffix_result(r) == match_suffix(input@),
        r matches Ok((rest, backup)) ==> rest@.len() == 0 && input@ == suffix_part(
            slice_view(backup),
        ) && backup_fits(slice_view(backup)),
{
    proof {
        reveal_strlit(".dat");
        assert(".dat"@ =~= suffix());
        lemma_suffix_read(input@);
    }
    let body = match literal(".dat", input) {
        Some(rest) => rest,
        None => {
            return Err(ParseFailure { remainder: input, expected: Expected::Suffix });
        },
    };
    let (rest, backup) = match parse_suffix_bak(body) {
        Ok((rest, id)) => (rest, Some(id)),
        Err(_) => (body, None),
    };
    if at_end(rest) {
        Ok((rest, backup))
    } else {
        Err(ParseFailure { remainder: rest, expected: Expected::EndOfInput })
    }
}

/// Reads a version: `_`, then groups of digits with one `.` between
/// neighbours, as many as follow. The groups with their dots are the value.
pub fn parse_version<'a>(input: &'a str) -> (r: Result<(&'a str, &'a str), ParseFailure<'a>>)
    ensures
        slice_result(r) == match_version(input@),
        r matches Ok((rest, version)) ==> input@ == version_prefix() + version@ + rest@
            && is_version(version@) && ends_version(rest@),
{
    proof {
        reveal_strlit("_");
        reveal_strlit(".");
        assert("_"@ =~= version_prefix());
        assert("."@ =~= separator());
        lemma_version_read(input@);
    }
    let body = match literal("_", input) {
        Some(rest) => rest,
        None => {
            return Err(ParseFailure { remainder: input, expected: Expected::VersionPrefix });
        },
    };
    let mut rest = match digits1(body) {
        Some((rest, _)) => rest,
        None => {
            return Err(ParseFailure { remainder: body, expected: Expected::Digit });
        },
    };
    let ghost mut read: int = digit_run(body@) as int;
    proof {
        lemma_digit_run(body@);
    }
    loop
        invariant
            "."@ == separator(),
            0 < read <= body@.len(),
            rest@ == body@.skip(read),
            version_run(body@) == read + groups_run(rest@),
        ensures
            0 < read <= body@.len(),
            rest@ == body@.skip(read),
            version_run(body@) == read,
        decreases body@.len() - read,
    {
        let group = match literal(".", rest) {
            Some(behind) => digits1(behind),
            None => None,
        };
        match group {
            Some((next, _)) => {
                proof {
                    let d = digit_run(rest@.skip(1)) as int;
                    lemma_digit_run(rest@.skip(1));
                    assert(rest@[0] == separator()[0]);
                    assert(rest@[1] == rest@.skip(1)[0]);
                    assert(next@ =~= body@.skip(read + 1 + d));
                    assert(rest@.skip(1 + d) =~= next@);
                    read = read + 1 + d;
                }
                rest = next;
            },
            None => {
                break ;
            },
        }
    }
    let length = body.unicode_len() - rest.unicode_len();
    match take_chars(length, body) {
        Some((rest, version)) => Ok((rest, version)),
        // What was read is no longer than the input: this arm is never taken.
        None => Err(ParseFailure { remainder: body, expected: Expected::Digit }),
    }
}

/// Whether the input is, to its end, an optional version and the suffix:
/// whether it is what is written for some version and backup id that fit.
/// Nothing is read.
pub fn tail_follows(input: &str) -> (b: bool)
    ensures
        b == is_tail(input@),
        b <==> exists|version: Option<Seq<char>>, backup_id: Option<Seq<char>>|
            version_fits(version) && backup_fits(backup_id) && input@ == #[trigger] tail_part(
                version,
                backup_id,
            ),
{
    proof {
        tail_is_what_is_written(input@);
    }
    let rest = match parse_version(input) {
        Ok((rest, _)) => rest,
        Err(_) => input,
    };
    match parse_suffix(rest) {
        Ok(_) => true,
        Err(_) => false,
    }
}

/// Reads the user tag: `user`, then the characters up to the first position
/// from which the rest of the input is an optional version and the suffix.
/// There is at least one such character, and these characters are the value.
pub fn parse_user_tag<'a>(input: &'a str) -> (r: Result<(&'a str, &'a str), ParseFailure<'a>>)
    ensures
        slice_result(r) == match_user_tag(input@),
        r matches Ok((rest, tag)) ==> {
            &&& input@ == user_prefix() + tag@ + rest@
            &&& tag@.len() > 0
            &&& is_tail(rest@)
            &&& forall|k: int| 0 <= k < tag@.len() ==> !tail_at(tag@ + rest@, k)
        },
{
    proof {
        reveal_strlit("user");
        assert("user"@ =~= user_prefix());
        lemma_user_tag_read(input@);
    }
    let body = match literal("user", input) {
        Some(rest) => rest,
        None => {
            return Err(ParseFailure { remainder: input, expected: Expected::UserPrefix });
        },
    };
    let mut rest = body;
    let ghost mut read: int = 0;
    loop
        invariant
            user_prefix().is_prefix_of(input@),
            body@ == input@.skip(4),
            0 <= read <= body@.len(),
            rest@ == body@.skip(read),
            first_tail(body@, 0) == first_tail(body@, read),
        ensures
            0 <= read <= body@.len(),
            rest@ == body@.skip(read),
            first_tail(body@, 0) == Some(read),
        decreases body@.len() - read,
    {
        if tail_follows(rest) {
            break ;
        }
        match take_chars(1, rest) {
            Some((next, _)) => {
                proof {
                    assert(next@ =~= body@.skip(read + 1));
                    read = read + 1;
                }
                rest = next;
            },
            None => {
                assert(first_tail(body@, read + 1) is None);
                assert(rest@ =~= Seq::empty());
                return Err(ParseFailure { remainder: rest, expected: Expected::Tail });
            },
        }
    }
    let length = body.unicode_len() - rest.unicode_len();
    if length == 0 {
        return Err(ParseFailure { remainder: body, expected: Expected::Tag });
    }
    match take_chars(length, body) {
        Some((rest, tag)) => Ok((rest, tag)),
        // What was read is no longer than the input: this arm is never taken.
        None => Err(ParseFailure { remainder: body, expected: Expected::Tag }),
    }
}

/// Reads a whole name: an optional internal tag, the user tag, an optional
/// version, and the suffix, with nothing left behind it. The names that are
/// read are those of the well-formed records. The record that a name gives
/// is well formed, and written again it is the name.
pub fn parse<'a>(input: &'a str) -> (r: Result<(&'a str, SaveNameInfo), ParseFailure<'a>>)
    ensures
        name_result(r) == match_name(input@),
        r is Ok <==> exists|record: NameView|
            record.well_formed() && input@ == #[trigger] record.name(),
        r matches Ok((rest, info)) ==> rest@.len() == 0 && info@.name() == input@
            && info@.well_formed(),
{
    proof {
        read_then_written(input@);
        read_is_what_is_written(input@);
    }
    let (after, internal_tag) = match parse_tag_internal(input) {
        Ok((rest, text)) => (rest, Some(text)),
        Err(_) => (input, None),
    };
    let (rest, tag) = match parse_user_tag(after) {
        Ok(found) => found,
        Err(e) => {
            return Err(e);
        },
    };
    let (rest, version) = match parse_version(rest) {
        Ok((rest, version)) => (rest, Some(version)),
        Err(_) => (rest, None),
    };
    let (rest, backup) = match parse_suffix(rest) {
        Ok(found) => found,
        Err(e) => {
            return Err(e);
        },
    };
    Ok((rest, SaveNameInfo::new(tag, version, backup, internal_tag)))
}

} // verus!
