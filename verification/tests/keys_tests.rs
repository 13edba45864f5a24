use capsule_collision::keys::{Keys, KEY_A, KEY_D, KEY_S, KEY_SPACE, KEY_W};
use capsule_collision::player::MoveInput;

#[test]
fn no_key_is_held_at_first() {
    let keys = Keys::new();
    for key in [KEY_W, KEY_A, KEY_S, KEY_D, KEY_SPACE, 0, -1, 27] {
        assert!(!keys.get_key(key));
        assert!(!keys.get_key_down(key));
        assert!(!keys.get_key_up(key));
    }
}

#[test]
fn keys_go_down_and_up() {
    let mut keys = Keys::new();
    keys.tick(vec![KEY_W, KEY_SPACE]);
    assert!(keys.get_key(KEY_W));
    assert!(keys.get_key(KEY_SPACE));
    assert!(!keys.get_key(KEY_A));
    assert!(keys.get_key_down(KEY_W));
    assert!(keys.get_key_down(KEY_SPACE));
    assert!(!keys.get_key_up(KEY_W));

    keys.tick(vec![KEY_W, KEY_A]);
    assert!(keys.get_key(KEY_W));
    assert!(keys.get_key(KEY_A));
    assert!(!keys.get_key(KEY_SPACE));
    assert!(!keys.get_key_down(KEY_W));
    assert!(keys.get_key_down(KEY_A));
    assert!(keys.get_key_up(KEY_SPACE));
    assert!(!keys.get_key_up(KEY_W));
    assert!(!keys.get_key_up(KEY_A));

    keys.tick(Vec::new());
    assert!(!keys.get_key(KEY_W));
    assert!(!keys.get_key_down(KEY_W));
    assert!(keys.get_key_up(KEY_W));
    assert!(keys.get_key_up(KEY_A));
    assert!(!keys.get_key_up(KEY_SPACE));

    keys.tick(Vec::new());
    assert!(!keys.get_key_up(KEY_W));
    assert!(!keys.get_key_up(KEY_A));
}

#[test]
fn a_key_reported_twice_is_one_key() {
    let mut keys = Keys::new();
    keys.tick(vec![KEY_D, KEY_D]);
    assert!(keys.get_key(KEY_D));
    assert!(keys.get_key_down(KEY_D));
    keys.tick(vec![KEY_D]);
    assert!(keys.get_key(KEY_D));
    assert!(!keys.get_key_down(KEY_D));
    assert!(!keys.get_key_up(KEY_D));
}

#[test]
fn input_is_read_off_the_keys() {
    let mut keys = Keys::new();
    keys.tick(vec![KEY_W, KEY_D, KEY_SPACE]);
    let input = MoveInput::from_keys(&keys);
    assert!(input.forward && input.right && input.jump_pressed);
    assert!(!input.back && !input.left && !input.jump_released);
    keys.tick(vec![KEY_S, KEY_A]);
    let input = MoveInput::from_keys(&keys);
    assert!(input.back && input.left && input.jump_released);
    assert!(!input.forward && !input.right && !input.jump_pressed);
    assert_eq!((KEY_W, KEY_A, KEY_S, KEY_D, KEY_SPACE), (119, 97, 115, 100, 32));
}
