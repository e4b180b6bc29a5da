use zswap::tick_bitmap::can_search;
use zswap::tick_bitmap::flip_tick;
use zswap::tick_bitmap::next_initialized_tick_within_one_word;
use zswap::tick_bitmap::position;
use zswap::tick_bitmap::TickBitmap;

fn bitmap_with(ticks: &[i32], tick_spacing: i32) -> TickBitmap {
    let mut bitmap = TickBitmap::new();
    for tick in ticks {
        flip_tick(&mut bitmap, *tick, tick_spacing);
    }
    bitmap
}

#[test]
fn test_position() {
    assert_eq!(position(0), (0, 0));
    assert_eq!(position(1), (0, 1));
    assert_eq!(position(255), (0, 255));
    assert_eq!(position(256), (1, 0));
    assert_eq!(position(-1), (-1, 255));
    assert_eq!(position(-256), (-1, 0));
    assert_eq!(position(-257), (-2, 255));
    assert_eq!(position(887272), (3465, 232));
    assert_eq!(position(-887272), (-3466, 24));
}

#[test]
fn test_flip_tick() {
    let mut bitmap = TickBitmap::new();
    flip_tick(&mut bitmap, -230, 1);
    assert_eq!(next_initialized_tick_within_one_word(&bitmap, -230, 1, true), (-230, true));
    assert_eq!(next_initialized_tick_within_one_word(&bitmap, -231, 1, true), (-256, false));
    assert_eq!(next_initialized_tick_within_one_word(&bitmap, -229, 1, true), (-230, true));
    // flipping again clears the tick
    flip_tick(&mut bitmap, -230, 1);
    assert_eq!(next_initialized_tick_within_one_word(&bitmap, -230, 1, true), (-256, false));
    // a flip touches only its own tick
    flip_tick(&mut bitmap, -230, 1);
    flip_tick(&mut bitmap, -259, 1);
    flip_tick(&mut bitmap, -229, 1);
    flip_tick(&mut bitmap, 500, 1);
    flip_tick(&mut bitmap, -259, 1);
    flip_tick(&mut bitmap, -229, 1);
    flip_tick(&mut bitmap, -259, 1);
    assert_eq!(next_initialized_tick_within_one_word(&bitmap, -259, 1, true), (-259, true));
    assert_eq!(next_initialized_tick_within_one_word(&bitmap, -229, 1, true), (-230, true));
    assert_eq!(next_initialized_tick_within_one_word(&bitmap, 500, 1, true), (500, true));
    // ticks are counted in units of the spacing
    let mut spaced = TickBitmap::new();
    flip_tick(&mut spaced, 120, 60);
    assert_eq!(spaced.get_word(0).lo, 4);
    flip_tick(&mut spaced, -60, 60);
    assert_eq!(spaced.get_word(-1).hi, 1u128 << 127);
}

#[test]
fn test_next_initialized_tick_within_one_word() {
    let bitmap = bitmap_with(&[-200, -55, -4, 70, 78, 84, 139, 240, 535], 1);
    // searching upwards
    assert_eq!(next_initialized_tick_within_one_word(&bitmap, 78, 1, false), (84, true));
    assert_eq!(next_initialized_tick_within_one_word(&bitmap, -55, 1, false), (-4, true));
    assert_eq!(next_initialized_tick_within_one_word(&bitmap, 77, 1, false), (78, true));
    assert_eq!(next_initialized_tick_within_one_word(&bitmap, -56, 1, false), (-55, true));
    assert_eq!(next_initialized_tick_within_one_word(&bitmap, 255, 1, false), (511, false));
    assert_eq!(next_initialized_tick_within_one_word(&bitmap, -257, 1, false), (-200, true));
    assert_eq!(next_initialized_tick_within_one_word(&bitmap, 328, 1, false), (511, false));
    assert_eq!(next_initialized_tick_within_one_word(&bitmap, 508, 1, false), (511, false));
    assert_eq!(next_initialized_tick_within_one_word(&bitmap, 383, 1, false), (511, false));
    // searching downwards
    assert_eq!(next_initialized_tick_within_one_word(&bitmap, 78, 1, true), (78, true));
    assert_eq!(next_initialized_tick_within_one_word(&bitmap, 79, 1, true), (78, true));
    assert_eq!(next_initialized_tick_within_one_word(&bitmap, 258, 1, true), (256, false));
    assert_eq!(next_initialized_tick_within_one_word(&bitmap, 256, 1, true), (256, false));
    assert_eq!(next_initialized_tick_within_one_word(&bitmap, 72, 1, true), (70, true));
    assert_eq!(next_initialized_tick_within_one_word(&bitmap, -257, 1, true), (-512, false));
    assert_eq!(next_initialized_tick_within_one_word(&bitmap, 1023, 1, true), (768, false));
    assert_eq!(next_initialized_tick_within_one_word(&bitmap, 900, 1, true), (768, false));
    // with a spacing, a tick between two usable ticks counts as the one below
    let spaced = bitmap_with(&[-120, 60, 600], 60);
    assert_eq!(next_initialized_tick_within_one_word(&spaced, 59, 60, false), (60, true));
    assert_eq!(next_initialized_tick_within_one_word(&spaced, 60, 60, false), (600, true));
    assert_eq!(next_initialized_tick_within_one_word(&spaced, 119, 60, true), (60, true));
    assert_eq!(next_initialized_tick_within_one_word(&spaced, -1, 60, true), (-120, true));
    assert_eq!(next_initialized_tick_within_one_word(&spaced, -121, 60, true), (-15360, false));
    assert_eq!(next_initialized_tick_within_one_word(&spaced, 600, 60, false), (15300, false));
}

#[test]
fn search_upwards_stops_at_the_highest_tick() {
    assert!(can_search(887272, 1, true));
    assert!(!can_search(887272, 1, false));
    assert!(can_search(887271, 1, false));
    assert!(can_search(887272, 60, false));
}
