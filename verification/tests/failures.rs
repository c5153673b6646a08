use savename::failure::{Expected, ParseFailure};
use savename::parser::{
    parse, parse_suffix, parse_suffix_bak, parse_tag_internal, parse_user_tag, parse_version,
    tail_follows,
};

fn failure(remainder: &str, expected: Expected) -> ParseFailure<'_> {
    ParseFailure { remainder, expected }
}

#[test]
fn internal_tag_is_read() {
    assert_eq!(parse_tag_internal("__some_attr__"), Ok(("", "some_attr")));
    assert_eq!(parse_tag_internal("__sometag__user2.dat"), Ok(("user2.dat", "sometag")));
    assert_eq!(parse_tag_internal("__a__b__"), Ok(("b__", "a")));
    assert_eq!(parse_tag_internal("___a___"), Ok(("_", "_a")));
}

#[test]
fn internal_tag_failures() {
    assert_eq!(
        parse_tag_internal("user1.dat"),
        Err(failure("user1.dat", Expected::OpeningMarker))
    );
    assert_eq!(parse_tag_internal("_"), Err(failure("_", Expected::OpeningMarker)));
    assert_eq!(parse_tag_internal(""), Err(failure("", Expected::OpeningMarker)));
    assert_eq!(parse_tag_internal("__pin_user"), Err(failure("pin_user", Expected::ClosingMarker)));
    assert_eq!(parse_tag_internal("__"), Err(failure("", Expected::ClosingMarker)));
    assert_eq!(
        parse_tag_internal("____user1.dat"),
        Err(failure("__user1.dat", Expected::InternalTag))
    );
}

#[test]
fn version_is_read() {
    assert_eq!(parse_version("_1.0.28891"), Ok(("", "1.0.28891")));
    assert_eq!(parse_version("_1.2.3.28891"), Ok(("", "1.2.3.28891")));
    assert_eq!(parse_version("_1.0.28891.dat"), Ok((".dat", "1.0.28891")));
    assert_eq!(parse_version("_12"), Ok(("", "12")));
    assert_eq!(parse_version("_1..2"), Ok(("..2", "1")));
    assert_eq!(parse_version("_1.2."), Ok((".", "1.2")));
    assert_eq!(parse_version("_1_2"), Ok(("_2", "1")));
}

#[test]
fn version_failures() {
    assert_eq!(parse_version("1.0"), Err(failure("1.0", Expected::VersionPrefix)));
    assert_eq!(parse_version(""), Err(failure("", Expected::VersionPrefix)));
    assert_eq!(parse_version("_.dat"), Err(failure(".dat", Expected::Digit)));
    assert_eq!(parse_version("_"), Err(failure("", Expected::Digit)));
    assert_eq!(parse_version("_٣"), Err(failure("٣", Expected::Digit)));
}

#[test]
fn backup_marker_failures() {
    assert_eq!(parse_suffix_bak(".dat"), Err(failure(".dat", Expected::BackupMarker)));
    assert_eq!(parse_suffix_bak(""), Err(failure("", Expected::BackupMarker)));
    assert_eq!(parse_suffix_bak(".bak12x"), Err(failure("x", Expected::EndOfInput)));
    assert_eq!(parse_suffix_bak(".bak.bak"), Err(failure(".bak", Expected::EndOfInput)));
}

#[test]
fn suffix_failures() {
    assert_eq!(parse_suffix(""), Err(failure("", Expected::Suffix)));
    assert_eq!(parse_suffix(".da"), Err(failure(".da", Expected::Suffix)));
    assert_eq!(parse_suffix(".datx"), Err(failure("x", Expected::EndOfInput)));
    assert_eq!(parse_suffix(".dat.bak1x"), Err(failure(".bak1x", Expected::EndOfInput)));
    assert_eq!(parse_suffix(".dat.dat"), Err(failure(".dat", Expected::EndOfInput)));
}

#[test]
fn look_ahead_reads_nothing_and_wants_all() {
    assert!(tail_follows(".dat"));
    assert!(tail_follows(".dat.bak"));
    assert!(tail_follows(".dat.bak42"));
    assert!(tail_follows("_1.0.dat"));
    assert!(tail_follows("_1.0.dat.bak42"));
    assert!(!tail_follows(""));
    assert!(!tail_follows("_1.0"));
    assert!(!tail_follows("_.dat"));
    assert!(!tail_follows("_1..dat"));
    assert!(!tail_follows(".dat.dat"));
    assert!(!tail_follows(".dat "));
    assert!(!tail_follows("1.dat"));
}

#[test]
fn user_tag_failures() {
    assert_eq!(parse_user_tag("1.dat"), Err(failure("1.dat", Expected::UserPrefix)));
    assert_eq!(parse_user_tag("use"), Err(failure("use", Expected::UserPrefix)));
    assert_eq!(parse_user_tag("User1.dat"), Err(failure("User1.dat", Expected::UserPrefix)));
    assert_eq!(parse_user_tag("user"), Err(failure("", Expected::Tail)));
    assert_eq!(parse_user_tag("user1.datx"), Err(failure("", Expected::Tail)));
    assert_eq!(parse_user_tag("user1.dat.bak1x"), Err(failure("", Expected::Tail)));
    assert_eq!(parse_user_tag("user.dat"), Err(failure(".dat", Expected::Tag)));
    assert_eq!(parse_user_tag("user_1.0.dat"), Err(failure("_1.0.dat", Expected::Tag)));
    assert_eq!(parse_user_tag("user.dat.bak3"), Err(failure(".dat.bak3", Expected::Tag)));
}

#[test]
fn user_tag_stops_at_the_first_tail() {
    assert_eq!(parse_user_tag("user1_.dat"), Ok((".dat", "1_")));
    assert_eq!(parse_user_tag("user1_1..dat"), Ok((".dat", "1_1.")));
    assert_eq!(parse_user_tag("user1_2_3.dat"), Ok(("_3.dat", "1_2")));
    assert_eq!(parse_user_tag("user1.dat.bak.dat"), Ok((".dat", "1.dat.bak")));
    assert_eq!(parse_user_tag("userää.dat.bak9"), Ok((".dat.bak9", "ää")));
    assert_eq!(parse_user_tag("useruser.dat"), Ok((".dat", "user")));
}

#[test]
fn name_failures() {
    assert_eq!(parse(""), Err(failure("", Expected::UserPrefix)));
    assert_eq!(parse("save1.dat"), Err(failure("save1.dat", Expected::UserPrefix)));
    assert_eq!(parse("__pin_user1.dat"), Err(failure("__pin_user1.dat", Expected::UserPrefix)));
    assert_eq!(parse("____user1.dat"), Err(failure("____user1.dat", Expected::UserPrefix)));
    assert_eq!(parse("__pin__1.dat"), Err(failure("1.dat", Expected::UserPrefix)));
    assert_eq!(parse("__a___user1.dat"), Err(failure("_user1.dat", Expected::UserPrefix)));
    assert_eq!(parse("user1.dat.bak1 "), Err(failure("", Expected::Tail)));
    assert_eq!(parse("user1.dat\n"), Err(failure("", Expected::Tail)));
    assert_eq!(parse("user.dat"), Err(failure(".dat", Expected::Tag)));
    assert_eq!(parse("__pin__user_1.dat"), Err(failure("_1.dat", Expected::Tag)));
}
