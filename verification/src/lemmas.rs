//! What the pieces of the grammar read, proved one by one: for each of them
//! what a match means, and that what fits is matched.

use vstd::prelude::*;
use crate::failure::Mismatch;
use crate::grammar::{
    all_digits, backup_marker, digit_run, ends_version, first_occurrence, first_tail,
    groups_run, is_digit, is_tail, is_version, marker, match_internal_tag, match_suffix,
    match_suffix_bak, match_tail, match_user_tag, match_version, no_group, suffix, tail_at,
    user_prefix, version_char, version_prefix, version_run,
};
use crate::save_info_struct::{
    backup_fits, internal_fits, suffix_part, tail_part, version_fits,
};

verus! {

/// The digits that `s` begins with: they lie in `s`, each is a digit, and what
/// follows them is none.
pub proof fn lemma_digit_run(s: Seq<char>)
    ensures
        digit_run(s) <= s.len(),
        forall|i: int| 0 <= i < digit_run(s) ==> is_digit(#[trigger] s[i]),
        digit_run(s) < s.len() ==> !is_digit(s[digit_run(s) as int]),
    decreases s.len(),
{
    if s.len() > 0 && is_digit(s[0]) {
        let t = s.skip(1);
        lemma_digit_run(t);
        assert forall|i: int| 0 <= i < digit_run(s) implies is_digit(#[trigger] s[i]) by {
            if i > 0 {
                assert(s[i] == t[i - 1]);
            }
        }
        if digit_run(s) < s.len() {
            assert(s[digit_run(s) as int] == t[digit_run(t) as int]);
        }
    }
}

/// `s` begins with exactly `n` digits where its first `n` characters are
/// digits and the next one is none.
pub proof fn lemma_digit_run_is(s: Seq<char>, n: int)
    requires
        0 <= n <= s.len(),
        forall|i: int| 0 <= i < n ==> is_digit(#[trigger] s[i]),
        n < s.len() ==> !is_digit(s[n]),
    ensures
        digit_run(s) == n,
    decreases n,
{
    if n > 0 {
        let t = s.skip(1);
        assert forall|i: int| 0 <= i < n - 1 implies is_digit(#[trigger] t[i]) by {
            assert(t[i] == s[i + 1]);
        }
        if n - 1 < t.len() {
            assert(t[n - 1] == s[n]);
        }
        lemma_digit_run_is(t, n - 1);
    }
}

/// A sequence of digits only begins with as many digits as it holds, and no
/// other does.
pub proof fn lemma_all_digits(s: Seq<char>)
    ensures
        all_digits(s) <==> digit_run(s) == s.len(),
{
    lemma_digit_run(s);
    if all_digits(s) {
        lemma_digit_run_is(s, s.len() as int);
    }
}

/// A version begins with a digit. Where a character follows the digits that
/// it begins with, that is a `.`, and behind it stands a version again.
pub proof fn lemma_version_split(v: Seq<char>)
    requires
        is_version(v),
    ensures
        0 < digit_run(v) <= v.len(),
        digit_run(v) < v.len() ==> v[digit_run(v) as int] == '.' && is_version(
            v.skip(digit_run(v) as int + 1),
        ),
{
    lemma_digit_run(v);
    let d = digit_run(v) as int;
    assert(version_char(v, 0));
    if d < v.len() {
        let w = v.skip(d + 1);
        assert(version_char(v, d));
        assert forall|i: int| 0 <= i < w.len() implies #[trigger] version_char(w, i) by {
            assert(version_char(v, d + 1 + i));
            assert(w[i] == v[d + 1 + i]);
            if !is_digit(w[i]) {
                assert(w[i - 1] == v[d + i]);
                assert(w[i + 1] == v[d + 2 + i]);
            }
        }
    }
}

/// Digits, a `.` and a version make a version.
pub proof fn lemma_version_join(v: Seq<char>, d: int)
    requires
        0 < d < v.len(),
        forall|i: int| 0 <= i < d ==> is_digit(#[trigger] v[i]),
        v[d] == '.',
        is_version(v.skip(d + 1)),
    ensures
        is_version(v),
{
    let w = v.skip(d + 1);
    assert(version_char(w, 0));
    assert(w[0] == v[d + 1]);
    assert forall|i: int| 0 <= i < v.len() implies #[trigger] version_char(v, i) by {
        if i > d {
            assert(version_char(w, i - d - 1));
            assert(v[i] == w[i - d - 1]);
            if !is_digit(v[i]) {
                assert(v[i - 1] == w[i - d - 2]);
                assert(v[i + 1] == w[i - d]);
            }
        }
    }
}

/// What continues a version at the start of `s`: where it is not empty, a `.`
/// and a version, behind which `s` does not go on with it.
pub proof fn lemma_groups_run(s: Seq<char>)
    ensures
        groups_run(s) <= s.len(),
        groups_run(s) == 0 ==> no_group(s),
        groups_run(s) > 0 ==> s[0] == '.' && is_version(s.subrange(1, groups_run(s) as int))
            && ends_version(s.skip(groups_run(s) as int)),
    decreases s.len(),
{
    if s.len() > 1 && s[0] == '.' && is_digit(s[1]) {
        let t = s.skip(1);
        let d = digit_run(t) as int;
        lemma_digit_run(t);
        assert(t[0] == s[1]);
        let u = s.skip(1 + d);
        let g = groups_run(u) as int;
        lemma_groups_run(u);
        let n = 1 + d + g;
        assert(groups_run(s) == n);
        let v = s.subrange(1, n);
        assert(s.skip(n) =~= u.skip(g));
        assert forall|i: int| 0 <= i < d implies is_digit(#[trigger] v[i]) by {
            assert(v[i] == t[i]);
        }
        if g == 0 {
            if u.len() > 0 {
                assert(u[0] == t[d]);
            }
        } else {
            assert(v[d] == u[0]);
            assert(v.skip(d + 1) =~= u.subrange(1, g));
            lemma_version_join(v, d);
        }
    }
}

/// What continues a version at the start of `s` is `n` long where that much
/// of `s` is empty or a `.` and a version, and `s` does not go on with it
/// behind that.
pub proof fn lemma_groups_run_is(s: Seq<char>, n: int)
    requires
        0 <= n <= s.len(),
        n == 0 ==> no_group(s),
        n > 0 ==> s[0] == '.' && is_version(s.subrange(1, n)) && ends_version(s.skip(n)),
    ensures
        groups_run(s) == n,
    decreases n,
{
    if n > 0 {
        let v = s.subrange(1, n);
        let t = s.skip(1);
        lemma_version_split(v);
        lemma_digit_run(v);
        let d = digit_run(v) as int;
        assert(s[1] == v[0]);
        assert forall|i: int| 0 <= i < d implies is_digit(#[trigger] t[i]) by {
            assert(t[i] == v[i]);
        }
        if d < t.len() {
            if d < v.len() {
                assert(t[d] == v[d]);
            } else {
                assert(t[d] == s.skip(n)[0]);
            }
        }
        lemma_digit_run_is(t, d);
        let u = s.skip(1 + d);
        let m = n - 1 - d;
        if m > 0 {
            assert(u[0] == v[d]);
            assert(u.subrange(1, m) =~= v.skip(d + 1));
            assert(u.skip(m) =~= s.skip(n));
        } else {
            assert(u =~= s.skip(n));
        }
        lemma_groups_run_is(u, m);
    }
}

/// The longest version that `s` begins with: where there is one, it is a
/// version, and `s` does not go on with it.
pub proof fn lemma_version_run(s: Seq<char>)
    ensures
        version_run(s) <= s.len(),
        version_run(s) > 0 ==> is_version(s.take(version_run(s) as int)) && ends_version(
            s.skip(version_run(s) as int),
        ),
        version_run(s) == 0 ==> s.len() == 0 || !is_digit(s[0]),
{
    let d = digit_run(s) as int;
    lemma_digit_run(s);
    if d > 0 {
        let t = s.skip(d);
        let g = groups_run(t) as int;
        lemma_groups_run(t);
        let n = d + g;
        let v = s.take(n);
        assert(s.skip(n) =~= t.skip(g));
        assert forall|i: int| 0 <= i < d implies is_digit(#[trigger] v[i]) by {
            assert(v[i] == s[i]);
        }
        if g == 0 {
            if t.len() > 0 {
                assert(t[0] == s[d]);
            }
        } else {
            assert(v[d] == t[0]);
            assert(v.skip(d + 1) =~= t.subrange(1, g));
            lemma_version_join(v, d);
        }
    }
}

/// The longest version that `s` begins with is `n` long where that much of
/// `s` is a version and `s` does not go on with it.
pub proof fn lemma_version_run_is(s: Seq<char>, n: int)
    requires
        0 < n <= s.len(),
        is_version(s.take(n)),
        ends_version(s.skip(n)),
    ensures
        version_run(s) == n,
{
    let v = s.take(n);
    lemma_version_split(v);
    lemma_digit_run(v);
    let d = digit_run(v) as int;
    assert forall|i: int| 0 <= i < d implies is_digit(#[trigger] s[i]) by {
        assert(s[i] == v[i]);
    }
    if d < s.len() {
        if d < v.len() {
            assert(s[d] == v[d]);
        } else {
            assert(s[d] == s.skip(n)[0]);
        }
    }
    lemma_digit_run_is(s, d);
    let t = s.skip(d);
    let m = n - d;
    if m > 0 {
        assert(t[0] == v[d]);
        assert(t.subrange(1, m) =~= v.skip(d + 1));
        assert(t.skip(m) =~= s.skip(n));
    } else {
        assert(t =~= s.skip(n));
    }
    lemma_groups_run_is(t, m);
}

/// What the first occurrence is: `pattern` occurs there, and nowhere between
/// `from` and there; where there is none, `pattern` occurs nowhere from `from`
/// on.
pub proof fn lemma_first_occurrence(s: Seq<char>, pattern: Seq<char>, from: int)
    requires
        0 <= from <= s.len(),
    ensures
        match first_occurrence(s, pattern, from) {
            Some(at) => {
                &&& from <= at <= s.len()
                &&& pattern.is_prefix_of(s.skip(at))
                &&& forall|k: int| from <= k < at ==> !pattern.is_prefix_of(#[trigger] s.skip(k))
            },
            None => forall|k: int|
                from <= k <= s.len() ==> !pattern.is_prefix_of(#[trigger] s.skip(k)),
        },
    decreases s.len() - from,
{
    if !pattern.is_prefix_of(s.skip(from)) {
        if from < s.len() {
            lemma_first_occurrence(s, pattern, from + 1);
        } else {
            assert(first_occurrence(s, pattern, from + 1) is None);
        }
    }
}

/// The first occurrence is at `at` where `pattern` occurs there and nowhere
/// between `from` and there.
pub proof fn lemma_first_occurrence_is(s: Seq<char>, pattern: Seq<char>, from: int, at: int)
    requires
        0 <= from <= at <= s.len(),
        pattern.is_prefix_of(s.skip(at)),
        forall|k: int| from <= k < at ==> !pattern.is_prefix_of(#[trigger] s.skip(k)),
    ensures
        first_occurrence(s, pattern, from) == Some(at),
    decreases at - from,
{
    if from < at {
        lemma_first_occurrence_is(s, pattern, from + 1, at);
    }
}

/// What the first tail is: the rest of `s` from there is a tail, and from no
/// position between `from` and there; where there is none, the rest of `s` is
/// a tail from no position from `from` on.
pub proof fn lemma_first_tail(s: Seq<char>, from: int)
    requires
        0 <= from <= s.len(),
    ensures
        match first_tail(s, from) {
            Some(at) => {
                &&& from <= at <= s.len()
                &&& tail_at(s, at)
                &&& forall|k: int| from <= k < at ==> !tail_at(s, k)
            },
            None => forall|k: int| from <= k <= s.len() ==> !tail_at(s, k),
        },
    decreases s.len() - from,
{
    if !tail_at(s, from) {
        if from < s.len() {
            lemma_first_tail(s, from + 1);
        } else {
            assert(first_tail(s, from + 1) is None);
        }
    }
}

/// The first tail is at `at` where the rest of `s` is a tail from there and
/// from no position between `from` and there.
pub proof fn lemma_first_tail_is(s: Seq<char>, from: int, at: int)
    requires
        0 <= from <= at <= s.len(),
        tail_at(s, at),
        forall|k: int| from <= k < at ==> !tail_at(s, k),
    ensures
        first_tail(s, from) == Some(at),
    decreases at - from,
{
    if from < at {
        lemma_first_tail_is(s, from + 1, at);
    }
}

/// `s` begins with the marker where it begins with two underscores.
pub proof fn lemma_marker_at(s: Seq<char>)
    ensures
        marker().is_prefix_of(s) <==> s.len() >= 2 && s[0] == '_' && s[1] == '_',
{
    if marker().is_prefix_of(s) {
        assert(s[0] == marker()[0]);
        assert(s[1] == marker()[1]);
    }
}

/// What a matched internal tag means: the input is the marker, the tag, the
/// marker and the input left, and the tag fits.
pub proof fn lemma_internal_tag_read(s: Seq<char>)
    ensures
        match match_internal_tag(s) {
            Ok((rest, t)) => s == marker() + t + marker() + rest && internal_fits(Some(t)),
            Err(_) => true,
        },
{
    if let Ok((rest, t)) = match_internal_tag(s) {
        let body = s.skip(2);
        lemma_marker_at(s);
        lemma_first_occurrence(body, marker(), 0);
        let end = t.len() as int;
        lemma_marker_at(body.skip(end));
        assert(s =~= marker() + t + marker() + rest);
        let closed = t + marker();
        assert(closed.skip(end) =~= marker());
        assert forall|k: int| 0 <= k < end implies !marker().is_prefix_of(
            #[trigger] closed.skip(k),
        ) by {
            lemma_marker_at(closed.skip(k));
            lemma_marker_at(body.skip(k));
            assert(!marker().is_prefix_of(body.skip(k)));
            assert(closed.skip(k)[0] == body.skip(k)[0]);
            assert(closed.skip(k)[1] == body.skip(k)[1]);
        }
        lemma_first_occurrence_is(closed, marker(), 0, end);
    }
}

/// An internal tag that fits is read back from between its markers, whatever
/// follows.
pub proof fn lemma_internal_tag_written(t: Seq<char>, rest: Seq<char>)
    requires
        internal_fits(Some(t)),
    ensures
        match_internal_tag(marker() + t + marker() + rest) == Ok::<_, Mismatch>((rest, t)),
{
    let s = marker() + t + marker() + rest;
    let body = s.skip(2);
    let end = t.len() as int;
    let closed = t + marker();
    lemma_marker_at(s);
    lemma_first_occurrence(closed, marker(), 0);
    assert(body =~= closed + rest);
    lemma_marker_at(body.skip(end));
    assert forall|k: int| 0 <= k < end implies !marker().is_prefix_of(#[trigger] body.skip(k)) by {
        lemma_marker_at(closed.skip(k));
        lemma_marker_at(body.skip(k));
        assert(!marker().is_prefix_of(closed.skip(k)));
        assert(closed.skip(k)[0] == body.skip(k)[0]);
        assert(closed.skip(k)[1] == body.skip(k)[1]);
    }
    lemma_first_occurrence_is(body, marker(), 0, end);
    assert(body.take(end) =~= t);
    assert(body.skip(end + 2) =~= rest);
}

/// What a matched version means: the input is `_`, the version and the input
/// left; the version is one, and the input left does not go on with it.
pub proof fn lemma_version_read(s: Seq<char>)
    ensures
        match match_version(s) {
            Ok((rest, v)) => s == version_prefix() + v + rest && is_version(v) && ends_version(
                rest,
            ),
            Err(_) => true,
        },
{
    if let Ok((rest, v)) = match_version(s) {
        lemma_version_run(s.skip(1));
        assert(s[0] == version_prefix()[0]);
        assert(s =~= version_prefix() + v + rest);
    }
}

/// A version is read back from behind its `_`, in front of anything that does
/// not go on with it.
pub proof fn lemma_version_written(v: Seq<char>, rest: Seq<char>)
    requires
        is_version(v),
        ends_version(rest),
    ensures
        match_version(version_prefix() + v + rest) == Ok::<_, Mismatch>((rest, v)),
{
    let s = version_prefix() + v + rest;
    let body = s.skip(1);
    let n = v.len() as int;
    assert(body =~= v + rest);
    assert(body.take(n) =~= v);
    assert(body.skip(n) =~= rest);
    lemma_version_run_is(body, n);
}

/// What a matched backup marker means: nothing is left, and the input is
/// `.bak` and digits.
pub proof fn lemma_suffix_bak_read(s: Seq<char>)
    ensures
        match match_suffix_bak(s) {
            Ok((rest, id)) => rest.len() == 0 && s == backup_marker() + id && all_digits(id),
            Err(_) => true,
        },
{
    if let Ok((rest, id)) = match_suffix_bak(s) {
        let digits = s.skip(4);
        lemma_digit_run(digits);
        lemma_all_digits(digits);
        assert(id =~= digits);
        assert(s =~= backup_marker() + id);
    }
}

/// What a matched suffix means: nothing is left, the input is the suffix as
/// written for that backup id, and the id fits.
pub proof fn lemma_suffix_read(s: Seq<char>)
    ensures
        match match_suffix(s) {
            Ok((rest, backup)) => rest.len() == 0 && s == suffix_part(backup) && backup_fits(
                backup,
            ),
            Err(_) => true,
        },
{
    if let Ok((rest, backup)) = match_suffix(s) {
        let body = s.skip(4);
        assert(s =~= suffix() + body);
        lemma_suffix_bak_read(body);
        if let Ok((end, id)) = match_suffix_bak(body) {
            assert(s =~= suffix() + backup_marker() + id);
        } else {
            assert(s =~= suffix());
        }
    }
}

/// The suffix as written for a backup id that fits is read back as that id.
pub proof fn lemma_suffix_written(backup: Option<Seq<char>>)
    requires
        backup_fits(backup),
    ensures
        match_suffix(suffix_part(backup)) == Ok::<_, Mismatch>((Seq::<char>::empty(), backup)),
{
    let s = suffix_part(backup);
    let body = s.skip(4);
    match backup {
        Some(id) => {
            assert(body =~= backup_marker() + id);
            assert(body.skip(4) =~= id);
            lemma_all_digits(id);
            assert(id.take(id.len() as int) =~= id);
            assert(id.skip(id.len() as int) =~= Seq::<char>::empty());
        },
        None => {
            assert(body =~= Seq::<char>::empty());
        },
    }
}

/// What a matched tail means: nothing is left, the input is the version and
/// suffix as written, and both fit.
pub proof fn lemma_tail_read(s: Seq<char>)
    ensures
        match match_tail(s) {
            Ok((rest, (version, backup))) => rest.len() == 0 && s == tail_part(version, backup)
                && version_fits(version) && backup_fits(backup),
            Err(_) => true,
        },
{
    if let Ok((rest, (version, backup))) = match_tail(s) {
        lemma_version_read(s);
        match match_version(s) {
            Ok((behind, v)) => {
                lemma_suffix_read(behind);
                assert(s =~= tail_part(version, backup));
            },
            Err(_) => {
                lemma_suffix_read(s);
                assert(s =~= tail_part(version, backup));
            },
        }
    }
}

/// A version and a backup id that fit are read back from what is written for
/// them.
pub proof fn lemma_tail_written(version: Option<Seq<char>>, backup: Option<Seq<char>>)
    requires
        version_fits(version),
        backup_fits(backup),
    ensures
        match_tail(tail_part(version, backup)) == Ok::<_, Mismatch>(
            (Seq::<char>::empty(), (version, backup)),
        ),
{
    let end = suffix_part(backup);
    let s = tail_part(version, backup);
    lemma_suffix_written(backup);
    assert(end[0] == '.' && end[1] == 'd');
    match version {
        Some(v) => {
            assert(s =~= version_prefix() + v + end);
            lemma_version_written(v, end);
        },
        None => {
            assert(s =~= end);
            if version_prefix().is_prefix_of(s) {
                assert(s[0] == version_prefix()[0]);
            }
        },
    }
}

/// What a matched user tag means: the input is `user`, the tag and the input
/// left; the tag is not empty, the input left is a tail, and the input is a
/// tail from no position inside the tag.
pub proof fn lemma_user_tag_read(s: Seq<char>)
    ensures
        match match_user_tag(s) {
            Ok((rest, tag)) => {
                &&& s == user_prefix() + tag + rest
                &&& tag.len() > 0
                &&& is_tail(rest)
                &&& forall|k: int| 0 <= k < tag.len() ==> !tail_at(tag + rest, k)
            },
            Err(_) => true,
        },
{
    if let Ok((rest, tag)) = match_user_tag(s) {
        let body = s.skip(4);
        lemma_first_tail(body, 0);
        assert(s =~= user_prefix() + tag + rest);
        assert(body =~= tag + rest);
    }
}

/// A user tag is read back from between `user` and a tail, where it is not
/// empty and what is written is a tail from no position inside it.
pub proof fn lemma_user_tag_written(tag: Seq<char>, rest: Seq<char>)
    requires
        tag.len() > 0,
        is_tail(rest),
        forall|k: int| 0 <= k < tag.len() ==> !tail_at(tag + rest, k),
    ensures
        match_user_tag(user_prefix() + tag + rest) == Ok::<_, Mismatch>((rest, tag)),
{
    let s = user_prefix() + tag + rest;
    let body = s.skip(4);
    let end = tag.len() as int;
    assert(body =~= tag + rest);
    assert(body.skip(end) =~= rest);
    assert(body.take(end) =~= tag);
    lemma_first_tail_is(body, 0, end);
}

} // verus!
