//! The decoded name and how it is written.

use vstd::prelude::*;
use vstd::string::StringExecFns;
use crate::grammar::{
    all_digits, backup_marker, first_occurrence, is_version, marker, occurs_in, suffix, tail_at,
    user_prefix, version_prefix,
};
use crate::laws::{name_holds_user, read_back_is_well_formed, written_then_read};
use crate::parser::parse;

verus! {

/// The fields of a name, as sequences of characters.
pub struct NameView {
    pub tag: Seq<char>,
    pub version: Option<Seq<char>>,
    pub backup_id: Option<Seq<char>>,
    pub internal_tag: Option<Seq<char>>,
}

/// `__<internal>__`, or nothing.
pub open spec fn internal_part(internal_tag: Option<Seq<char>>) -> Seq<char> {
    match internal_tag {
        Some(t) => marker() + t + marker(),
        None => Seq::empty(),
    }
}

/// `_<version>`, or nothing.
pub open spec fn version_part(version: Option<Seq<char>>) -> Seq<char> {
    match version {
        Some(v) => version_prefix() + v,
        None => Seq::empty(),
    }
}

/// `.dat`, and `.bak<id>` behind it for a backup.
pub open spec fn suffix_part(backup_id: Option<Seq<char>>) -> Seq<char> {
    match backup_id {
        Some(id) => suffix() + backup_marker() + id,
        None => suffix(),
    }
}

/// What is written behind a user tag: the version, then the suffix.
pub open spec fn tail_part(version: Option<Seq<char>>, backup_id: Option<Seq<char>>) -> Seq<char> {
    version_part(version) + suffix_part(backup_id)
}

/// A version, where there is one, is groups of digits with dots between them.
pub open spec fn version_fits(version: Option<Seq<char>>) -> bool {
    match version {
        Some(v) => is_version(v),
        None => true,
    }
}

/// A backup id, where there is one, is digits only.
pub open spec fn backup_fits(backup_id: Option<Seq<char>>) -> bool {
    match backup_id {
        Some(id) => all_digits(id),
        None => true,
    }
}

/// An internal tag, where there is one, is not empty, and with the closing
/// marker behind it the first `__` is that marker.
pub open spec fn internal_fits(internal_tag: Option<Seq<char>>) -> bool {
    match internal_tag {
        Some(t) => t.len() > 0 && first_occurrence(t + marker(), marker(), 0) == Some(
            t.len() as int,
        ),
        None => true,
    }
}

impl NameView {
    /// What follows the user tag in the written name.
    pub open spec fn tail(self) -> Seq<char> {
        tail_part(self.version, self.backup_id)
    }

    /// The written name.
    pub open spec fn name(self) -> Seq<char> {
        internal_part(self.internal_tag) + user_prefix() + self.tag + self.tail()
    }

    /// The fields are such that the written name is read back as these same
    /// fields:
    /// - the user tag is not empty, and the name has no tail from any position
    ///   inside it;
    /// - a version is groups of digits with dots between them;
    /// - a backup id is digits only, or empty;
    /// - an internal tag is not empty, and with the closing marker behind it
    ///   the first `__` is that marker.
    pub open spec fn well_formed(self) -> bool {
        &&& self.tag.len() > 0
        &&& forall|k: int| 0 <= k < self.tag.len() ==> !tail_at(self.tag + self.tail(), k)
        &&& version_fits(self.version)
        &&& backup_fits(self.backup_id)
        &&& internal_fits(self.internal_tag)
    }
}

/// A decoded save-file name.
#[derive(Debug, PartialEq, Clone)]
pub struct SaveNameInfo {
    /// The user tag: what stands between `user` and the version or suffix.
    pub tag: String,
    /// The version, without its `_`.
    pub version: Option<String>,
    /// The digits behind `.bak`. `Some` of the empty string is a backup
    /// without a number; `None` is no backup.
    pub backup_id: Option<String>,
    /// The text between the two `__` in front of `user`.
    pub internal_tag: Option<String>,
}

/// The characters of an optional string.
pub open spec fn option_view(s: Option<String>) -> Option<Seq<char>> {
    match s {
        Some(t) => Some(t@),
        None => None,
    }
}

impl View for SaveNameInfo {
    type V = NameView;

    open spec fn view(&self) -> NameView {
        NameView {
            tag: self.tag@,
            version: option_view(self.version),
            backup_id: option_view(self.backup_id),
            internal_tag: option_view(self.internal_tag),
        }
    }
}

/// The characters of an optional slice.
pub open spec fn slice_view(s: Option<&str>) -> Option<Seq<char>> {
    match s {
        Some(t) => Some(t@),
        None => None,
    }
}

/// An owned copy of an optional slice.
fn owned(s: Option<&str>) -> (r: Option<String>)
    ensures
        option_view(r) == slice_view(s),
{
    match s {
        Some(t) => Some(t.to_owned()),
        None => None,
    }
}

/// Whether two optional strings hold the same characters, or both none.
fn same_text(a: &Option<String>, b: &Option<String>) -> (r: bool)
    ensures
        r == (option_view(*a) == option_view(*b)),
{
    match (a, b) {
        (Some(x), Some(y)) => *x == *y,
        (None, None) => true,
        _ => false,
    }
}

impl SaveNameInfo {
    /// A record of the given fields, whatever they hold.
    pub fn new(
        tag: &str,
        version: Option<&str>,
        backup: Option<&str>,
        internal_tag: Option<&str>,
    ) -> (r: Self)
        ensures
            r@ == (NameView {
                tag: tag@,
                version: slice_view(version),
                backup_id: slice_view(backup),
                internal_tag: slice_view(internal_tag),
            }),
    {
        SaveNameInfo {
            tag: tag.to_owned(),
            version: owned(version),
            backup_id: owned(backup),
            internal_tag: owned(internal_tag),
        }
    }

    /// The name that these fields stand for. Every record has one, and `user`
    /// stands in it.
    pub fn to_string(&self) -> (name: String)
        ensures
            name@ == self@.name(),
            occurs_in(user_prefix(), name@),
    {
        let mut name = String::new();
        proof {
            reveal_strlit("__");
            reveal_strlit("user");
            reveal_strlit("_");
            reveal_strlit(".dat");
            reveal_strlit(".bak");
            assert("__"@ =~= marker());
            assert("user"@ =~= user_prefix());
            assert("_"@ =~= version_prefix());
            assert(".dat"@ =~= suffix());
            assert(".bak"@ =~= backup_marker());
        }
        match &self.internal_tag {
            Some(t) => {
                name.append("__");
                name.append(t.as_str());
                name.append("__");
            },
            None => {},
        }
        assert(name@ =~= internal_part(self@.internal_tag));
        name.append("user");
        name.append(self.tag.as_str());
        let ghost head = name@;
        match &self.version {
            Some(v) => {
                name.append("_");
                name.append(v.as_str());
            },
            None => {},
        }
        assert(name@ =~= head + version_part(self@.version));
        name.append(".dat");
        match &self.backup_id {
            Some(id) => {
                name.append(".bak");
                name.append(id.as_str());
            },
            None => {},
        }
        assert(name@ =~= self@.name());
        proof {
            name_holds_user(self@);
        }
        name
    }

    /// Whether the record is well formed: whether its name is read back as
    /// the record itself.
    pub fn is_well_formed(&self) -> (b: bool)
        ensures
            b == self@.well_formed(),
    {
        let name = self.to_string();
        proof {
            if self@.well_formed() {
                written_then_read(self@);
            }
        }
        match parse(name.as_str()) {
            Ok((_, read)) => {
                let same = read.tag == self.tag && same_text(&read.version, &self.version)
                    && same_text(&read.backup_id, &self.backup_id) && same_text(
                    &read.internal_tag,
                    &self.internal_tag,
                );
                proof {
                    if same {
                        assert(read@ == self@);
                        read_back_is_well_formed(self@);
                    }
                }
                same
            },
            Err(_) => false,
        }
    }
}

} // verus!
