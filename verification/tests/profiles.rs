use playfusion_cart_ui::profile::{
    active_profile_id, active_profile_record, avatar_file_name, default_name, default_profile,
    new_profile, next_avatar,
    parse_profile, profile_file_name, profile_id, profile_record, profiles_from_records,
    slot_of_id, Profile, ProfileError,
};

#[test]
fn profile_ids_and_files() {
    assert_eq!(profile_id(0), "default");
    assert_eq!(profile_id(3), "profile-3");
    assert_eq!(profile_file_name(2), "profile-2.conf");
    for slot in 0..4 {
        assert_eq!(slot_of_id(profile_id(slot)), Some(slot));
    }
    assert_eq!(slot_of_id("profile-4"), None);
    assert_eq!(slot_of_id("Default"), None);
}

#[test]
fn new_profiles_are_named_after_their_slot() {
    for slot in 0..4 {
        let p = new_profile(slot);
        assert_eq!((p.slot, p.name.clone(), p.avatar), (slot, format!("Profile {slot}"), slot + 1));
    }
    let d = default_profile();
    assert_eq!((d.slot, d.name.as_str(), d.avatar), (0, "Default Profile", 1));
}

#[test]
fn default_names() {
    assert_eq!(default_name(0), "Default Profile");
    assert_eq!(default_name(2), "Profile 2");
}

#[test]
fn parse_profile_reads_name_and_avatar() {
    let p = parse_profile(1, "name=Alice\navatar=7\n");
    assert_eq!((p.slot, p.name.as_str(), p.avatar), (1, "Alice", 7));
}

#[test]
fn parse_profile_defaults() {
    let p = parse_profile(0, "");
    assert_eq!((p.name.as_str(), p.avatar), ("Default Profile", 1));
    let p = parse_profile(2, "colour=blue\n");
    assert_eq!((p.name.as_str(), p.avatar), ("Profile 2", 3));
}

#[test]
fn parse_profile_tidies_and_keeps_the_last_useful_name() {
    let p = parse_profile(1, "name=  Big   Bob!! \nname=???\navatar=2");
    assert_eq!(p.name, "Big Bob");
    let p = parse_profile(1, "name=First\nname=Second\n");
    assert_eq!(p.name, "Second");
    let p = parse_profile(3, "name=Crlf\r\navatar=4\r\n");
    assert_eq!((p.name.as_str(), p.avatar), ("Crlf", 4));
}

#[test]
fn parse_profile_limits_the_avatar() {
    assert_eq!(parse_profile(1, "avatar=99").avatar, 20);
    assert_eq!(parse_profile(1, "avatar=0").avatar, 1);
    assert_eq!(parse_profile(1, "avatar=abc").avatar, 2);
    assert_eq!(parse_profile(3, "avatar= 5").avatar, 4);
    assert_eq!(parse_profile(1, "avatar=+5").avatar, 5);
    assert_eq!(parse_profile(1, "avatar=5\navatar=x").avatar, 2);
}

#[test]
fn record_reads_back() {
    let p = Profile { slot: 2, name: "Player  Two!".to_string(), avatar: 11 };
    let text = profile_record(&p);
    assert_eq!(text, "name=Player Two\navatar=11\n");
    let back = parse_profile(2, &text);
    assert_eq!((back.slot, back.name.as_str(), back.avatar), (2, "Player Two", 11));
    let blank = Profile { slot: 1, name: "!!".to_string(), avatar: 20 };
    let back = parse_profile(1, &profile_record(&blank));
    assert_eq!((back.name.as_str(), back.avatar), ("Profile 1", 20));
}

#[test]
fn active_profile_ids() {
    assert_eq!(active_profile_id(Some("  profile-2\n")), "profile-2");
    assert_eq!(active_profile_id(None), "default");
    assert_eq!(active_profile_id(Some("")), "");
}

#[test]
fn active_profile_records() {
    assert!(matches!(active_profile_record("profile-1"), Ok(ref t) if t == "profile-1\n"));
    assert!(matches!(active_profile_record("default"), Ok(ref t) if t == "default\n"));
    assert!(matches!(active_profile_record("bogus"), Err(ProfileError::UnknownProfile)));
}

#[test]
fn avatar_files() {
    assert_eq!(avatar_file_name(3), "avatar-03.png");
    assert_eq!(avatar_file_name(12), "avatar-12.png");
    assert_eq!(avatar_file_name(100), "avatar-100.png");
}

#[test]
fn avatar_cycle() {
    assert_eq!(next_avatar(1), 2);
    assert_eq!(next_avatar(19), 20);
    assert_eq!(next_avatar(20), 1);
}

#[test]
fn loading_profiles() {
    let records = vec![None, Some("name=Ann\navatar=5\n".to_string()), None, Some(String::new())];
    let (ps, new_default) = profiles_from_records(&records);
    assert!(new_default);
    let got: Vec<(usize, String, usize)> = ps.iter().map(|p| (p.slot, p.name.clone(), p.avatar)).collect();
    assert_eq!(got, vec![
        (0, "Default Profile".to_string(), 1),
        (1, "Ann".to_string(), 5),
        (3, "Profile 3".to_string(), 4),
    ]);
    let records = vec![Some("name=Me".to_string()), None, Some(String::new()), None];
    let (ps, new_default) = profiles_from_records(&records);
    assert!(!new_default);
    let got: Vec<(usize, String)> = ps.iter().map(|p| (p.slot, p.name.clone())).collect();
    assert_eq!(got, vec![(0, "Me".to_string()), (2, "Profile 2".to_string())]);
    let (ps, new_default) = profiles_from_records(&vec![None, None, None, None]);
    assert!(new_default);
    assert_eq!(ps.len(), 1);
    assert_eq!((ps[0].slot, ps[0].name.as_str(), ps[0].avatar), (0, "Default Profile", 1));
}

#[test]
fn active_record_reads_back() {
    for slot in 0..4 {
        let id = profile_id(slot);
        let record = active_profile_record(id).unwrap();
        assert_eq!(active_profile_id(Some(&record)), id);
    }
}

