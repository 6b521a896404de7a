use taiko_untitled::sdl2_utils::enable_momentum_scroll;
use taiko_untitled::utils::{to_digits, OptionCompare};
use taiko_untitled::value_with_update_time::ValueWithUpdateTime;

#[test]
fn digits_most_significant_first() {
    assert_eq!(to_digits(0), vec![0]);
    assert_eq!(to_digits(7), vec![7]);
    assert_eq!(to_digits(1200), vec![1, 2, 0, 0]);
    assert_eq!(to_digits(u64::MAX).len(), 20);
    let n = 9_081_726_354u64;
    let back = to_digits(n).iter().fold(0u64, |acc, d| acc * 10 + *d as u64);
    assert_eq!(back, n);
}

#[test]
fn content_equals_only_compares_two_values() {
    assert!(Some(1).content_equals(Some(1)));
    assert!(!Some(1).content_equals(Some(2)));
    assert!(Some(1).content_equals(None));
    assert!(None::<i32>.content_equals(Some(2)));
    assert!(None::<i32>.content_equals(None));
}

#[test]
fn value_with_update_time_keeps_value_and_time() {
    let start = std::time::Instant::now();
    let mut v = ValueWithUpdateTime::new_with_time(3, start);
    assert_eq!(v.get(), 3);
    assert_eq!(v.last_update(), start);
    v.set(4);
    assert_eq!(v.get(), 4);
    assert!(v.last_update() >= start);
    v.set_with(|x| x * 10);
    assert_eq!(v.get(), 40);
    v.set_with_time(5, start);
    assert_eq!((v.get(), v.last_update()), (5, start));
    v.update(|x| *x += 1);
    assert_eq!(v.get(), 6);
    assert!(v.last_update() >= start);
    let _elapsed = v.duration_since_update();
    let w = ValueWithUpdateTime::new(1u8);
    assert_eq!(w.get(), 1);
}

#[test]
fn momentum_scroll_is_harmless() {
    enable_momentum_scroll();
}

#[test]
fn duration_since_update_counts_from_the_stamp() {
    let now = std::time::Instant::now();
    let earlier = now.checked_sub(std::time::Duration::from_secs(2)).unwrap_or(now);
    let stamped = taiko_untitled::value_with_update_time::ValueWithUpdateTime::new_with_time(1u8, earlier);
    assert!(stamped.duration_since_update() >= now.duration_since(earlier));
    let fresh = taiko_untitled::value_with_update_time::ValueWithUpdateTime::new(1u8);
    assert!(fresh.duration_since_update() < std::time::Duration::from_secs(2));
}
