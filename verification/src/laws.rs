//! Reading a name and writing a record undo each other.

use vstd::prelude::*;
use crate::failure::Mismatch;
use crate::grammar::{
    is_tail, marker, match_internal_tag, match_name, match_tail, match_user_tag, occurs_in,
    optional, user_prefix,
};
use crate::lemmas::{
    lemma_internal_tag_read, lemma_internal_tag_written, lemma_marker_at, lemma_tail_read,
    lemma_tail_written, lemma_user_tag_read, lemma_user_tag_written,
};
use crate::save_info_struct::{
    backup_fits, internal_fits, internal_part, tail_part, version_fits, NameView,
};

verus! {

/// A name is what is written for a record where it is the record's internal
/// tag between markers, if it has one, then `user`, the user tag and the tail.
proof fn lemma_name_of_parts(s: Seq<char>, after: Seq<char>, r: NameView)
    requires
        match r.internal_tag {
            Some(t) => s == marker() + t + marker() + after,
            None => s == after,
        },
        after == user_prefix() + r.tag + r.tail(),
    ensures
        s == r.name(),
{
    assert(s =~= r.name());
}

/// A name that is read is read to its end, the record that it gives is well
/// formed, and written again it is the name.
pub proof fn read_then_written(s: Seq<char>)
    ensures
        match match_name(s) {
            Ok((rest, r)) => rest.len() == 0 && r.name() == s && r.well_formed(),
            Err(_) => true,
        },
{
    if let Ok((end, r)) = match_name(s) {
        let (after, internal_tag) = optional(match_internal_tag(s), s);
        let (rest, tag) = match_user_tag(after)->Ok_0;
        lemma_internal_tag_read(s);
        lemma_user_tag_read(after);
        lemma_tail_read(rest);
        lemma_name_of_parts(s, after, r);
    }
}

/// A name is read as a record where its parts are read as the record's
/// fields.
proof fn lemma_name_read(s: Seq<char>, after: Seq<char>, r: NameView)
    requires
        optional(match_internal_tag(s), s) == (after, r.internal_tag),
        match_user_tag(after) == Ok::<_, Mismatch>((r.tail(), r.tag)),
        match_tail(r.tail()) == Ok::<_, Mismatch>(
            (Seq::<char>::empty(), (r.version, r.backup_id)),
        ),
    ensures
        match_name(s) == Ok::<_, Mismatch>((Seq::<char>::empty(), r)),
{
}

/// An internal tag that fits is read back from in front of `user`, and where
/// there is none, none is read.
proof fn lemma_front_read(internal_tag: Option<Seq<char>>, after: Seq<char>)
    requires
        internal_fits(internal_tag),
        user_prefix().is_prefix_of(after),
    ensures
        optional(
            match_internal_tag(internal_part(internal_tag) + after),
            internal_part(internal_tag) + after,
        ) == (after, internal_tag),
{
    let s = internal_part(internal_tag) + after;
    match internal_tag {
        Some(t) => {
            assert(s =~= marker() + t + marker() + after);
            lemma_internal_tag_written(t, after);
        },
        None => {
            assert(s =~= after);
            assert(s[0] == user_prefix()[0]);
            lemma_marker_at(s);
        },
    }
}

/// The name of a record is what is written for its internal tag and, behind
/// that, `user`, the user tag and the tail.
proof fn lemma_parts_of_name(r: NameView)
    ensures
        r.name() == internal_part(r.internal_tag) + (user_prefix() + r.tag + r.tail()),
        user_prefix().is_prefix_of(user_prefix() + r.tag + r.tail()),
{
    let after = user_prefix() + r.tag + r.tail();
    assert(user_prefix() =~= after.subrange(0, 4));
    assert(r.name() =~= internal_part(r.internal_tag) + after);
}

/// The user tag of a well-formed record is read back from in front of its
/// tail.
proof fn lemma_tag_read(r: NameView)
    requires
        r.well_formed(),
    ensures
        match_user_tag(user_prefix() + r.tag + r.tail()) == Ok::<_, Mismatch>((r.tail(), r.tag)),
{
    lemma_tail_written(r.version, r.backup_id);
    lemma_user_tag_written(r.tag, r.tail());
}

/// A well-formed record that is written and read again is the same record,
/// with nothing left of the name.
pub proof fn written_then_read(r: NameView)
    requires
        r.well_formed(),
    ensures
        match_name(r.name()) == Ok::<_, Mismatch>((Seq::<char>::empty(), r)),
{
    let after = user_prefix() + r.tag + r.tail();
    lemma_parts_of_name(r);
    lemma_front_read(r.internal_tag, after);
    lemma_tail_written(r.version, r.backup_id);
    lemma_tag_read(r);
    lemma_name_read(r.name(), after, r);
}

/// The names that are read are the names of the well-formed records, and no
/// others.
pub proof fn read_is_what_is_written(s: Seq<char>)
    ensures
        match_name(s) is Ok <==> exists|r: NameView| r.well_formed() && s == #[trigger] r.name(),
{
    if let Ok((rest, r)) = match_name(s) {
        read_then_written(s);
        assert(r.well_formed() && s == r.name());
    }
    assert forall|r: NameView| r.well_formed() && s == #[trigger] r.name() implies match_name(
        s,
    ) is Ok by {
        written_then_read(r);
    }
}

/// A name that opens with the marker, and has no internal tag closed by a
/// second one behind it, is not read.
pub proof fn unclosed_marker_is_not_read(s: Seq<char>)
    requires
        marker().is_prefix_of(s),
        match_internal_tag(s) is Err,
    ensures
        match_name(s) is Err,
{
    lemma_marker_at(s);
    if user_prefix().is_prefix_of(s) {
        assert(s[0] == user_prefix()[0]);
    }
}

/// Only a well-formed record is read back from what is written for it.
pub proof fn read_back_is_well_formed(r: NameView)
    requires
        match_name(r.name()) matches Ok((_, read)) && read == r,
    ensures
        r.well_formed(),
{
    read_then_written(r.name());
}

/// Two well-formed records with one name are one record. So a backup without
/// a number and no backup, which differ as records, differ as names.
pub proof fn one_name_one_record(a: NameView, b: NameView)
    requires
        a.well_formed(),
        b.well_formed(),
        a.name() == b.name(),
    ensures
        a == b,
{
    written_then_read(a);
    written_then_read(b);
}

/// A tail is what is written for a version and a backup id that fit, and
/// nothing else is.
pub proof fn tail_is_what_is_written(s: Seq<char>)
    ensures
        is_tail(s) <==> exists|version: Option<Seq<char>>, backup_id: Option<Seq<char>>|
            version_fits(version) && backup_fits(backup_id) && s == #[trigger] tail_part(
                version,
                backup_id,
            ),
{
    if is_tail(s) {
        lemma_tail_read(s);
        let (version, backup_id) = match_tail(s)->Ok_0.1;
        assert(s == tail_part(version, backup_id));
    }
    assert forall|version: Option<Seq<char>>, backup_id: Option<Seq<char>>|
        version_fits(version) && backup_fits(backup_id) && s == #[trigger] tail_part(
            version,
            backup_id,
        ) implies is_tail(s) by {
        lemma_tail_written(version, backup_id);
    }
}

/// The name of every record, well formed or not, holds the literal `user`.
pub proof fn name_holds_user(r: NameView)
    ensures
        occurs_in(user_prefix(), r.name()),
{
    let at = internal_part(r.internal_tag).len() as int;
    let s = r.name();
    assert(user_prefix() =~= s.skip(at).subrange(0, 4));
    assert(user_prefix().is_prefix_of(s.skip(at)));
}

} // verus!
