use playfusion_cart_ui::input::{Input, Key, PadButton, PadFrame, Stick, StickDirection};
use playfusion_cart_ui::profile::{profiles_from_records, Profile};
use playfusion_cart_ui::profile_menu::{keyboard_key, keyboard_label, KeyboardKey, Message, ProfileMenu, Step, Effect};

fn idle() -> Input {
    Input::new()
}

fn menu_of(records: Vec<Option<&str>>, active: &str) -> ProfileMenu {
    let records: Vec<Option<String>> = records.into_iter().map(|r| r.map(|s| s.to_string())).collect();
    let (ps, _) = profiles_from_records(&records);
    ProfileMenu::new(ps, active)
}

fn slots(m: &ProfileMenu) -> Vec<usize> {
    m.profiles.iter().map(|p| p.slot).collect()
}

fn press(f: impl Fn(&mut Input)) -> Input {
    let mut i = idle();
    f(&mut i);
    i
}

#[test]
fn poll_reads_keys_and_buttons() {
    let mut input = Input::new();
    input.poll(&vec![Key::Enter, Key::F2], None);
    assert!(input.accept && input.rename && !input.back && !input.up);
    assert!(input.stick_neutral);
    let pad = PadFrame { buttons: vec![PadButton::East, PadButton::Select], stick: Stick::Neutral };
    input.poll(&vec![], Some(&pad));
    assert!(input.back && input.delete && !input.accept && !input.rename);
}

#[test]
fn stick_moves_once_per_push() {
    let mut input = Input::new();
    let pushed = PadFrame { buttons: vec![], stick: Stick::Deflected(Some(StickDirection::Left)) };
    input.poll(&vec![], Some(&pushed));
    assert!(input.left);
    assert!(!input.stick_neutral);
    input.poll(&vec![], Some(&pushed));
    assert!(!input.left);
    let rest = PadFrame { buttons: vec![], stick: Stick::Neutral };
    input.poll(&vec![], Some(&rest));
    assert!(input.stick_neutral);
    input.poll(&vec![], Some(&pushed));
    assert!(input.left);
    // Without gamepads the stick's state is kept.
    input.poll(&vec![], None);
    assert!(!input.stick_neutral);
}

#[test]
fn keyboard_layout() {
    assert!(keyboard_key(0) == KeyboardKey::Char('A'));
    assert!(keyboard_key(25) == KeyboardKey::Char('Z'));
    assert!(keyboard_key(26) == KeyboardKey::Char('0'));
    assert!(keyboard_key(35) == KeyboardKey::Char('9'));
    assert!(keyboard_key(36) == KeyboardKey::Space);
    assert!(keyboard_key(42) == KeyboardKey::Cancel);
    assert_eq!(keyboard_label(36), "SPACE");
    assert_eq!(keyboard_label(38), "_");
    assert_eq!(keyboard_label(41), "DONE");
}

#[test]
fn menu_starts_on_the_active_profile() {
    let m = menu_of(vec![Some(""), Some("name=B"), None, Some("")], "profile-3");
    assert_eq!(slots(&m), vec![0, 1, 3]);
    assert_eq!(m.selected, 2);
    let m = menu_of(vec![Some(""), None, None, None], "profile-2");
    assert_eq!(m.selected, 0);
    assert!(m.message == Message::Nothing);
}

#[test]
fn navigation_stays_on_the_cards() {
    let mut m = menu_of(vec![Some(""), Some(""), None, None], "default");
    let right = press(|i| i.right = true);
    m.step(&right);
    m.step(&right);
    assert_eq!(m.selected, 2); // the "add" card
    m.step(&right);
    assert_eq!(m.selected, 2);
    let left = press(|i| i.left = true);
    for _ in 0..4 {
        m.step(&left);
    }
    assert_eq!(m.selected, 0);
    m.step(&press(|i| i.add = true));
    assert_eq!(m.selected, 2);
}

#[test]
fn adding_a_profile_fills_the_first_free_slot() {
    let mut m = menu_of(vec![Some(""), None, Some(""), None], "default");
    m.step(&press(|i| i.add = true));
    match m.step(&press(|i| i.accept = true)) {
        Step::Create(p) => {
            assert_eq!((p.slot, p.name.as_str(), p.avatar), (1, "Profile 1", 2));
            m.created(p);
        }
        _ => panic!("expected a new profile"),
    }
    assert_eq!(slots(&m), vec![0, 1, 2]);
    assert_eq!(m.selected, 1);
    assert!(m.message == Message::Created);
    assert_eq!(m.message.text(), "PROFILE CREATED");
}

#[test]
fn accepting_a_profile_asks_to_activate_it() {
    let mut m = menu_of(vec![Some(""), Some("")], "default");
    match m.step(&press(|i| { i.right = true; i.accept = true; })) {
        Step::Activate(slot) => assert_eq!(slot, 1),
        _ => panic!("expected activation"),
    }
    let effects = m.activation_failed(&press(|i| { i.right = true; i.accept = true; }));
    assert!(effects.is_empty());
    assert!(m.message == Message::CouldNotActivate);
    match m.step(&press(|i| i.back = true)) {
        Step::Activate(slot) => assert_eq!(slot, 1),
        _ => panic!("expected activation"),
    }
}

#[test]
fn avatar_control_cycles_and_stores() {
    let mut m = menu_of(vec![Some("avatar=20")], "default");
    match m.step(&press(|i| i.avatar = true)) {
        Step::Effects(effects) => {
            assert_eq!(effects.len(), 1);
            match &effects[0] {
                Effect::Store(p) => assert_eq!((p.slot, p.avatar), (0, 1)),
                _ => panic!("expected a store"),
            }
        }
        _ => panic!("expected effects"),
    }
    assert_eq!(m.profiles[0].avatar, 1);
}

#[test]
fn delete_keeps_the_default_profile() {
    let mut m = menu_of(vec![Some(""), Some(""), Some("")], "profile-2");
    assert_eq!(m.selected, 2);
    match m.step(&press(|i| i.delete = true)) {
        Step::Effects(effects) => {
            assert_eq!(effects.len(), 1);
            assert!(matches!(effects[0], Effect::Archive(2)));
        }
        _ => panic!("expected effects"),
    }
    assert_eq!(slots(&m), vec![0, 1]);
    assert_eq!(m.selected, 1);
    assert_eq!(m.message.text(), "PROFILE REMOVED; SAVES WERE KEPT");
    m.step(&press(|i| i.left = true));
    match m.step(&press(|i| i.delete = true)) {
        Step::Effects(effects) => assert!(effects.is_empty()),
        _ => panic!("expected effects"),
    }
    assert_eq!(slots(&m), vec![0, 1]);
}

#[test]
fn renaming_with_the_keyboard() {
    let mut m = menu_of(vec![Some("name=Al")], "default");
    m.step(&press(|i| i.rename = true));
    assert_eq!(m.keyboard.as_ref().unwrap().text(), "Al");
    // Cursor on 'A' (index 0): type it.
    m.step(&press(|i| i.accept = true));
    assert_eq!(m.keyboard.as_ref().unwrap().text(), "AlA");
    // Down four rows from A (0) reaches 36, SPACE; type it.
    for _ in 0..4 {
        m.step(&press(|i| i.down = true));
    }
    assert_eq!(m.keyboard.as_ref().unwrap().key_index, 36);
    m.step(&press(|i| i.accept = true));
    assert_eq!(m.keyboard.as_ref().unwrap().text(), "AlA ");
    // Right three times: BACK (39).
    for _ in 0..3 {
        m.step(&press(|i| i.right = true));
    }
    m.step(&press(|i| i.accept = true));
    assert_eq!(m.keyboard.as_ref().unwrap().text(), "AlA");
    // Right twice: DONE (41).
    m.step(&press(|i| i.right = true));
    match m.step(&press(|i| { i.right = true; i.accept = true; })) {
        Step::Effects(effects) => {
            assert_eq!(effects.len(), 1);
            match &effects[0] {
                Effect::Store(p) => assert_eq!(p.name, "AlA"),
                _ => panic!("expected a store"),
            }
        }
        _ => panic!("expected effects"),
    }
    assert!(m.keyboard.is_none());
    assert_eq!(m.profiles[0].name, "AlA");
    assert_eq!(m.message.text(), "PROFILE NAME SAVED");
}

#[test]
fn keyboard_cancel_and_typing_limit() {
    let mut m = menu_of(vec![Some("name=ABCDEFGHIJKLMNOPQRST")], "default");
    m.step(&press(|i| i.rename = true));
    m.step(&press(|i| i.accept = true));
    assert_eq!(m.keyboard.as_ref().unwrap().text(), "ABCDEFGHIJKLMNOPQRST");
    m.step(&press(|i| i.back = true));
    assert!(m.keyboard.is_none());
    assert_eq!(m.profiles[0].name, "ABCDEFGHIJKLMNOPQRST");
    assert!(m.message == Message::Nothing);
}

#[test]
fn done_with_an_empty_name_changes_nothing() {
    let p = Profile { slot: 0, name: "Zed".to_string(), avatar: 3 };
    let mut m = ProfileMenu::new(vec![p], "default");
    m.step(&press(|i| i.rename = true));
    // CLEAR is 40: down four rows (36), right four.
    for _ in 0..4 {
        m.step(&press(|i| i.down = true));
    }
    for _ in 0..4 {
        m.step(&press(|i| i.right = true));
    }
    m.step(&press(|i| i.accept = true));
    assert_eq!(m.keyboard.as_ref().unwrap().text(), "");
    m.step(&press(|i| i.right = true));
    match m.step(&press(|i| i.accept = true)) {
        Step::Effects(effects) => assert!(effects.is_empty()),
        _ => panic!("expected effects"),
    }
    assert!(m.keyboard.is_none());
    assert_eq!(m.profiles[0].name, "Zed");
}

#[test]
fn the_default_profile_is_offered_even_without_its_record() {
    // Only profile 1 could be read: the default profile is set up anew.
    let mut m = menu_of(vec![None, Some("name=Solo")], "profile-1");
    assert_eq!(slots(&m), vec![0, 1]);
    assert_eq!(m.selected, 1);
    assert_eq!(m.profiles[0].name, "Default Profile");
    // Renaming and deleting profile 1 in one frame leaves the default profile.
    match m.step(&press(|i| { i.rename = true; i.delete = true; })) {
        Step::Effects(effects) => assert!(matches!(effects[0], Effect::Archive(1))),
        _ => panic!("expected effects"),
    }
    assert_eq!(slots(&m), vec![0]);
    assert_eq!(m.selected, 0);
    assert!(m.keyboard.is_some());
}

#[test]
fn keyboard_shows_the_frame_that_closes_it() {
    let mut m = menu_of(vec![Some("name=Al")], "default");
    m.step(&press(|i| i.rename = true));
    let typing_a_and_back = press(|i| { i.accept = true; i.back = true; });
    let (shown, key) = m.keyboard.as_ref().unwrap().after_input(&typing_a_and_back);
    assert_eq!((shown.as_str(), key), ("AlA", 0));
    m.step(&typing_a_and_back);
    assert!(m.keyboard.is_none());
    assert_eq!(m.profiles[0].name, "Al");
}
