use chip8::keyboard::{map_key_to_u8, Keyboard};

#[test]
fn keys_start_released() {
    let keyboard = Keyboard::new();
    for k in 0..16 {
        assert!(!keyboard.is_pressed(k));
    }
    assert!(!keyboard.is_any_pressed());
    assert_eq!(keyboard.first_pressed(), None);
}

#[test]
fn press_and_release_one_key() {
    let mut keyboard = Keyboard::new();
    keyboard.press(0xF);
    assert!(keyboard.is_pressed(0xF));
    assert!(!keyboard.is_pressed(0xE));
    assert!(keyboard.is_any_pressed());
    keyboard.press(4);
    assert_eq!(keyboard.first_pressed(), Some(4));
    keyboard.release(4);
    assert!(!keyboard.is_pressed(4));
    assert_eq!(keyboard.first_pressed(), Some(0xF));
    keyboard.release(0xF);
    assert!(!keyboard.is_any_pressed());
}

#[test]
fn layout_maps_keys_to_codes() {
    assert_eq!(map_key_to_u8('x'), Some(0));
    assert_eq!(map_key_to_u8('1'), Some(1));
    assert_eq!(map_key_to_u8('4'), Some(0xC));
    assert_eq!(map_key_to_u8('v'), Some(0xF));
    assert_eq!(map_key_to_u8('p'), None);
}
