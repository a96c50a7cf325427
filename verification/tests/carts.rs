use playfusion_cart_ui::browser::{
    browser_footer, browser_heading, card_source, card_subtitle, card_title, Browser, BrowserAction,
};
use playfusion_cart_ui::cart::{cart_from_kzi, kzi_value, sort_carts, Cart};
use playfusion_cart_ui::input::Input;

fn cart(name: &str, system: &str, origin: usize) -> Cart {
    Cart {
        name: name.to_string(),
        system: system.to_string(),
        runtime: "rt".to_string(),
        source: String::new(),
        cover: String::new(),
        icon: "icon.png".to_string(),
        origin,
    }
}

#[test]
fn kzi_values() {
    let content = "Name= Super Game \nRuntime=nes\nName=Other\nIcon=icon.png";
    assert_eq!(kzi_value(content, "Name"), "Super Game");
    assert_eq!(kzi_value(content, "Runtime"), "nes");
    assert_eq!(kzi_value(content, "Cover"), "");
    assert_eq!(kzi_value(content, "Icon"), "icon.png");
    assert_eq!(kzi_value("Id=1\r\n", "Id"), "1");
}

#[test]
fn carts_need_a_name_and_a_runtime() {
    let c = cart_from_kzi("Name=Game\nRuntime=snes\nPlatform=snes\nSourceFile=game.sfc\nCover=c.png\nIcon=i.png\n", 4).unwrap();
    assert_eq!((c.name.as_str(), c.system.as_str(), c.runtime.as_str(), c.source.as_str()), ("Game", "snes", "snes", "game.sfc"));
    assert_eq!((c.cover.as_str(), c.icon.as_str(), c.origin), ("c.png", "i.png", 4));
    assert!(cart_from_kzi("Name=Game\n", 0).is_none());
    assert!(cart_from_kzi("Runtime=x\nName=  \n", 0).is_none());
}

#[test]
fn artwork_prefers_an_existing_cover() {
    let c = cart_from_kzi("Name=G\nRuntime=r\nCover=c.png\nIcon=i.png", 0).unwrap();
    assert_eq!(c.artwork(true), "c.png");
    assert_eq!(c.artwork(false), "i.png");
    let no_cover = cart_from_kzi("Name=G\nRuntime=r\nIcon=i.png", 0).unwrap();
    assert_eq!(no_cover.artwork(true), "i.png");
}

#[test]
fn carts_sort_by_system_then_name_stably() {
    let mut cs = vec![
        cart("Zelda", "snes", 0),
        cart("Aladdin", "snes", 1),
        cart("Tetris", "gb", 2),
        cart("Aladdin", "snes", 3),
        cart("Contra", "nes", 4),
        cart("b", "snes", 5),
    ];
    sort_carts(&mut cs);
    let order: Vec<usize> = cs.iter().map(|c| c.origin).collect();
    assert_eq!(order, vec![2, 4, 1, 3, 0, 5]);
}

#[test]
fn browser_moves_on_a_grid() {
    let mut b = Browser::new(10).unwrap();
    let mut input = Input::new();
    input.down = true;
    assert_eq!(b.step(&input), BrowserAction::Stay);
    assert_eq!(b.selected, 4);
    assert_eq!(b.step(&input), BrowserAction::Stay);
    assert_eq!(b.selected, 8);
    // No cart four places further: down stays.
    assert_eq!(b.step(&input), BrowserAction::Stay);
    assert_eq!(b.selected, 8);
    input.down = false;
    input.right = true;
    b.step(&input);
    b.step(&input);
    assert_eq!(b.selected, 9);
    input.right = false;
    input.up = true;
    b.step(&input);
    assert_eq!(b.selected, 5);
    b.step(&input);
    b.step(&input);
    assert_eq!(b.selected, 0);
    input.up = false;
    input.left = true;
    b.step(&input);
    assert_eq!(b.selected, 0);
    input.left = false;
    input.accept = true;
    assert_eq!(b.step(&input), BrowserAction::Choose(0));
    input.back = true;
    assert_eq!(b.step(&input), BrowserAction::Cancel);
    assert!(Browser::new(0).is_none());
}

#[test]
fn browser_pages() {
    let mut b = Browser::new(10).unwrap();
    assert_eq!(b.page_count(), 2);
    assert_eq!(b.page_range(), (0, 8));
    b.selected = 9;
    assert_eq!(b.page(), 1);
    assert_eq!(b.page_range(), (8, 10));
    assert_eq!(browser_footer(&b), "PAGE 2 / 2   \u{2022}   A PLAY   B CANCEL");
    assert_eq!(Browser::new(8).unwrap().page_count(), 1);
    assert_eq!(browser_heading(3), "3 RECOGNIZED ROMS ON REMOVABLE MEDIA");
}

#[test]
fn card_texts() {
    let mut c = cart("A Very Long Game Title That Goes On", "snes", 0);
    assert_eq!(card_title(&c), "A Very Long Game Title That\u{2026}");
    assert_eq!(card_source(&c), "REMOVABLE MEDIA");
    c.source = "/run/media/usb/roms/some/deep/folder/game.sfc".to_string();
    let expected: String = c.source.chars().take(33).collect::<String>() + "\u{2026}";
    assert_eq!(card_source(&c), expected);
    assert_eq!(card_subtitle(&c), "SNES  \u{2022}  rt");
    let short = cart("Short", "gb", 0);
    assert_eq!(card_title(&short), "Short");
}
