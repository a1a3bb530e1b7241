use async_operators::button::button;

#[test]
fn fresh_button_is_not_pressed() {
    let (mut handle, _button) = button(3);
    assert!(!handle.local_pressed());
    assert!(!handle.all_pressed());
    assert!(!handle.is_complete());
}

#[test]
fn press_broadcasts_once_to_every_worker() {
    let (mut handle, mut button) = button(3);
    assert_eq!(button.press(&mut handle), 3);
    assert!(handle.local_pressed());
    // Pressing again is safe and sends nothing.
    assert_eq!(button.press(&mut handle), 0);
    assert_eq!(button.press(&mut handle), 0);
    assert!(handle.local_pressed());
}

#[test]
fn all_pressed_needs_a_broadcast_from_every_worker() {
    let (mut handle, mut button) = button(3);
    button.press(&mut handle);
    assert!(!handle.all_pressed());
    handle.deliver(true);
    assert!(!handle.all_pressed());
    handle.deliver(true);
    assert!(!handle.is_complete());
    assert!(!handle.all_pressed());
    handle.deliver(true);
    assert!(handle.is_complete());
    assert!(handle.all_pressed());
    // It stays so.
    assert!(handle.all_pressed());
    assert!(handle.is_complete());
}

#[test]
fn broadcasts_count_whether_or_not_this_worker_pressed() {
    let (mut handle, _button) = button(2);
    handle.deliver(true);
    handle.deliver(true);
    assert!(handle.all_pressed());
    assert!(!handle.local_pressed());
}

#[test]
fn broadcasts_that_arrive_together_are_counted_together() {
    let (mut handle, _button) = button(4);
    handle.deliver(true);
    handle.deliver(true);
    handle.deliver(true);
    assert!(!handle.all_pressed());
    handle.deliver(true);
    assert!(handle.all_pressed());
}

#[test]
fn single_worker_completes_on_its_own_press() {
    let (mut handle, mut button) = button(1);
    let broadcasts = button.press(&mut handle);
    assert_eq!(broadcasts, 1);
    assert!(!handle.all_pressed());
    for _ in 0..broadcasts {
        handle.deliver(true);
    }
    assert!(handle.all_pressed());
}

#[test]
fn no_workers_means_nothing_to_wait_for() {
    let (mut handle, mut button) = button(0);
    assert!(handle.all_pressed());
    assert_eq!(button.press(&mut handle), 0);
}

#[test]
fn press_on_drop_presses_when_released() {
    let (mut handle, button) = button(2);
    let switch = button.press_on_drop();
    assert!(!handle.local_pressed());
    assert_eq!(switch.release(&mut handle), 2);
    assert!(handle.local_pressed());
}

#[test]
fn press_on_drop_after_press_sends_nothing_more() {
    let (mut handle, mut button) = button(2);
    assert_eq!(button.press(&mut handle), 2);
    let switch = button.press_on_drop();
    assert_eq!(switch.release(&mut handle), 0);
    assert!(handle.local_pressed());
}
