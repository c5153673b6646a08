use savename::failure::{Expected, ParseFailure};
use savename::parser::parse;
use savename::save_info_struct::SaveNameInfo;

fn read(name: &str) -> SaveNameInfo {
    let (rest, info) = parse(name).unwrap();
    assert_eq!(rest, "");
    info
}

#[test]
fn names_are_written_as_read() {
    let names = [
        "user1.dat",
        "user2_1.0.28891.dat",
        "user2.dat.bak",
        "user2.dat.bak123",
        "user4_1.2.3.28891.dat.bak0",
        "user1.dat.dat",
        "userTest.dat",
        "usera-b_c__d.e_1.0.28891.dat.bak123",
        "__pin__user4_1.0.28650.dat.bak13",
        "__aa-bb_cc.dd__useraaa_bbb-ccc.ddd_1.2.3.28891.dat.bak123",
        "user1_.dat",
        "user_x_7.dat",
        "userä_1.dat",
        "__ξ__userß.dat.bak7",
    ];
    for name in names {
        assert_eq!(read(name).to_string(), name);
    }
}

#[test]
fn records_are_read_as_written() {
    let records = [
        SaveNameInfo::new("1", None, None, None),
        SaveNameInfo::new("4", Some("1.0.28650"), None, None),
        SaveNameInfo::new("4", Some("1.0.28650"), Some("13"), None),
        SaveNameInfo::new("4", Some("1.2.3.28650"), Some(""), None),
        SaveNameInfo::new("2", None, Some("15"), None),
        SaveNameInfo::new("2", None, Some(""), Some("pin")),
        SaveNameInfo::new("1.dat", None, None, None),
        SaveNameInfo::new("a-b_c__d.e", Some("7"), None, Some("aa-bb_cc.dd")),
        SaveNameInfo::new("ä", Some("0"), Some("00"), Some("ξ")),
    ];
    for record in records {
        assert!(record.is_well_formed());
        let name = record.to_string();
        assert_eq!(parse(&name), Ok(("", record.clone())));
    }
}

#[test]
fn extra_suffix_goes_into_the_tag() {
    let info = read("user1.dat.dat");
    assert_eq!(info, SaveNameInfo::new("1.dat", None, None, None));
}

#[test]
fn empty_backup_id_is_not_no_backup() {
    let backup = read("user2.dat.bak");
    let plain = read("user2.dat");
    assert_eq!(backup.backup_id, Some(String::new()));
    assert_eq!(plain.backup_id, None);
    assert_ne!(backup, plain);
    assert_ne!(backup.to_string(), plain.to_string());
}

#[test]
fn versions_of_three_and_four_groups() {
    assert_eq!(read("user2_1.0.28891.dat").version, Some("1.0.28891".to_owned()));
    assert_eq!(read("user2_1.2.3.28891.dat").version, Some("1.2.3.28891".to_owned()));
    assert_eq!(read("user2_7.dat").version, Some("7".to_owned()));
}

#[test]
fn internal_tag_end_to_end() {
    let info = read("__pin__user4_1.0.28650.dat.bak13");
    assert_eq!(info.internal_tag, Some("pin".to_owned()));
    assert_eq!(info.tag, "4");
    assert_eq!(info.version, Some("1.0.28650".to_owned()));
    assert_eq!(info.backup_id, Some("13".to_owned()));
}

#[test]
fn missing_suffix_fails() {
    assert_eq!(
        parse("usersomething"),
        Err(ParseFailure { remainder: "", expected: Expected::Tail })
    );
}

#[test]
fn every_name_holds_user() {
    let records = [
        SaveNameInfo::new("", None, None, None),
        SaveNameInfo::new("x", Some("not a version"), Some("id"), Some("")),
        SaveNameInfo::new("4", Some("1.0.28650"), Some("13"), Some("pin")),
    ];
    for record in records {
        assert!(record.to_string().contains("user"));
    }
    assert_eq!(SaveNameInfo::new("", None, None, None).to_string(), "user.dat");
    assert_eq!(
        SaveNameInfo::new("x", Some("not a version"), Some("id"), Some("")).to_string(),
        "____userx_not a version.dat.bakid"
    );
}

#[test]
fn new_copies_its_arguments() {
    let info = SaveNameInfo::new("4", Some("1.0"), Some(""), Some("pin"));
    assert_eq!(
        info,
        SaveNameInfo {
            tag: "4".to_owned(),
            version: Some("1.0".to_owned()),
            backup_id: Some(String::new()),
            internal_tag: Some("pin".to_owned()),
        }
    );
    let bare = SaveNameInfo::new("1", None, None, None);
    assert_eq!(
        bare,
        SaveNameInfo { tag: "1".to_owned(), version: None, backup_id: None, internal_tag: None }
    );
}

#[test]
fn ill_formed_records_are_told_apart() {
    // an empty user tag
    assert!(!SaveNameInfo::new("", None, None, None).is_well_formed());
    // a user tag that a version and suffix could be cut from
    assert!(!SaveNameInfo::new("a_1.0", None, None, None).is_well_formed());
    assert!(!SaveNameInfo::new("a_1", None, Some("1"), None).is_well_formed());
    assert!(!SaveNameInfo::new("_1", None, None, None).is_well_formed());
    // versions that are not groups of digits with dots between them
    assert!(!SaveNameInfo::new("1", Some(""), None, None).is_well_formed());
    assert!(!SaveNameInfo::new("1", Some("1..2"), None, None).is_well_formed());
    assert!(!SaveNameInfo::new("1", Some("1."), None, None).is_well_formed());
    assert!(!SaveNameInfo::new("1", Some(".1"), None, None).is_well_formed());
    assert!(!SaveNameInfo::new("1", Some("1.a"), None, None).is_well_formed());
    // a backup id with something else than digits
    assert!(!SaveNameInfo::new("1", None, Some("1a"), None).is_well_formed());
    assert!(!SaveNameInfo::new("1", None, Some("٣"), None).is_well_formed());
    // internal tags that are empty or hold the marker before their end
    assert!(!SaveNameInfo::new("1", None, None, Some("")).is_well_formed());
    assert!(!SaveNameInfo::new("1", None, None, Some("a__b")).is_well_formed());
    assert!(!SaveNameInfo::new("1", None, None, Some("a_")).is_well_formed());
    assert!(!SaveNameInfo::new("1", None, None, Some("_")).is_well_formed());
    // and their neighbours that are in order
    assert!(SaveNameInfo::new("a_1.0x", None, Some("1"), Some("_a_b")).is_well_formed());
    assert!(SaveNameInfo::new("a.dat", None, None, None).is_well_formed());
    assert!(SaveNameInfo::new("a.dat", None, Some("1"), None).is_well_formed());
    assert!(SaveNameInfo::new("a_1.0", Some("2"), None, None).is_well_formed());
    assert!(SaveNameInfo::new("1", Some("0.0"), Some("0"), Some("_a")).is_well_formed());
}

#[test]
fn ill_formed_record_is_read_as_another() {
    let record = SaveNameInfo::new("a_1.0", None, None, None);
    let name = record.to_string();
    assert_eq!(name, "usera_1.0.dat");
    assert_eq!(read(&name), SaveNameInfo::new("a", Some("1.0"), None, None));
}
