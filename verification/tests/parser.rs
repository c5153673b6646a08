use savename::failure::{Expected, ParseFailure};
use savename::parser::{parse, parse_suffix, parse_suffix_bak, parse_user_tag};

#[test]
fn test_parse() {
    // whether a name is written back as it was read
    fn round_trips(input: &str) -> bool {
        let x = parse(input).unwrap().1;
        let s = x.to_string();

        input == s.as_str()
    }

    // basic cases
    assert!(round_trips("user1.dat"));
    assert!(round_trips("user2_1.0.28891.dat"));
    assert!(round_trips("user2.dat.bak123"));

    // long name with all field filled
    assert!(round_trips("__pin__useraaa_bbb-ccc.ddd_1.0.28891.dat.bak123"));
    assert!(round_trips("__aa-bb_cc.dd__useraaa_bbb-ccc.ddd_1.2.3.28891.dat.bak123"));
}

#[test]
fn test_parse_suffix() {
    // backup suffix with id
    assert_eq!(parse_suffix_bak(".bak123"), Ok(("", "123")));
    assert_eq!(parse_suffix_bak(".bak"), Ok(("", "")));

    // parse full suffix section
    assert_eq!(parse_suffix(".dat"), Ok(("", None)));
    assert_eq!(parse_suffix(".dat.bak"), Ok(("", Some(""))));
    assert_eq!(parse_suffix(".dat.bak123"), Ok(("", Some("123"))));
    assert_eq!(
        parse_suffix("err"),
        Err(ParseFailure { remainder: "err", expected: Expected::Suffix })
    );
}

#[test]
fn test_parser_user_tag() {
    // Part 1: numerical user tag.
    assert_eq!(parse_user_tag("user1.dat"), Ok((".dat", "1"))); // basic case.
    assert_eq!(parse_user_tag("user4_1.0.28891.dat"), Ok(("_1.0.28891.dat", "4"))); // with version
    assert_eq!(parse_user_tag("user1.dat.bak"), Ok((".dat.bak", "1"))); // with backup
    assert_eq!(parse_user_tag("user1.dat.bak123"), Ok((".dat.bak123", "1"))); // with backup id
    assert_eq!(
        parse_user_tag("user4_1.0.28891.dat.bak123"),
        Ok(("_1.0.28891.dat.bak123", "4"))
    ); // with version + backup id

    // Part 2: general user tag.
    assert_eq!(parse_user_tag("userTest.dat"), Ok((".dat", "Test")));
    // different symbols
    assert_eq!(parse_user_tag("usera-b_c__d.e.dat"), Ok((".dat", "a-b_c__d.e")));
    assert_eq!(
        parse_user_tag("usera-b_c__d.e_1.0.28891.dat"),
        Ok(("_1.0.28891.dat", "a-b_c__d.e"))
    ); // with version
    // with backup
    assert_eq!(parse_user_tag("usera-b_c__d.e.dat.bak"), Ok((".dat.bak", "a-b_c__d.e")));
    // with backup id
    assert_eq!(parse_user_tag("usera-b_c__d.e.dat.bak123"), Ok((".dat.bak123", "a-b_c__d.e")));
    assert_eq!(
        parse_user_tag("usera-b_c__d.e_1.0.28891.dat.bak123"),
        Ok(("_1.0.28891.dat.bak123", "a-b_c__d.e"))
    ); // with version + backup id

    // an extreme case, `1.dat` as user tag.
    assert_eq!(parse_user_tag("user1.dat.dat"), Ok((".dat", "1.dat")));
}
