use savename::save_info_struct::SaveNameInfo;

#[test]
fn test_info_to_name() {
    // Default case
    let case1 = SaveNameInfo {
        tag: "1".to_owned(),
        version: None,
        backup_id: None,
        internal_tag: None,
    };

    assert_eq!(case1.to_string(), "user1.dat", "testing: basic info tag");

    let case2 = SaveNameInfo {
        tag: "4".to_owned(),
        version: Some("1.0.28650".to_owned()),
        ..case1.clone()
    };

    assert_eq!(case2.to_string(), "user4_1.0.28650.dat", "testing: with version tag");

    let case3 = SaveNameInfo {
        backup_id: Some("13".to_owned()),
        ..case2.clone()
    };

    assert_eq!(case3.to_string(), "user4_1.0.28650.dat.bak13", "testing: with version, backup tag");

    let case4 = SaveNameInfo {
        backup_id: Some("".to_owned()),
        ..case2.clone()
    };

    assert_eq!(case4.to_string(), "user4_1.0.28650.dat.bak", "testing: empty backup tag");

    let case5 = SaveNameInfo {
        tag: "2".to_owned(),
        backup_id: Some("15".to_owned()),
        ..case1.clone()
    };

    assert_eq!(case5.to_string(), "user2.dat.bak15", "testing: backup tag only");

    let case6 = SaveNameInfo {
        tag: "2".to_owned(),
        backup_id: Some("".to_owned()),
        ..case1.clone()
    };

    assert_eq!(case6.to_string(), "user2.dat.bak", "testing: empty backup tag only");

    let case7 = SaveNameInfo {
        internal_tag: Some("pin".to_owned()),
        ..case3.clone()
    };

    assert_eq!(case7.to_string(), "__pin__user4_1.0.28650.dat.bak13", "testing: with internal tag");
}
