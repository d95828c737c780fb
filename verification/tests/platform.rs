use localdrop::android::{
    device_name, display_name, is_ignoring_battery_optimizations,
    request_ignore_battery_optimizations, set_keep_screen_on, start_background_service,
    stop_background_service,
};

#[test]
fn desktop_hooks_are_inert() {
    assert_eq!(display_name("content://x/y"), None);
    assert_eq!(device_name(), None);
    assert!(is_ignoring_battery_optimizations());
    set_keep_screen_on(true);
    start_background_service(Some("Transferring files…"));
    stop_background_service();
    request_ignore_battery_optimizations();
}
