use xero_howdy_qt::config::{configured_device, is_howdy_disabled, update_device_path};

#[test]
fn disabled_values() {
    assert!(is_howdy_disabled("[core]\ndisabled = true\n"));
    assert!(is_howdy_disabled("disabled = TRUE"));
    assert!(is_howdy_disabled("  disabled=1  "));
    assert!(!is_howdy_disabled("disabled = false\n"));
    assert!(!is_howdy_disabled("disabled = 0\n"));
    assert!(!is_howdy_disabled("[core]\nno setting here\n"));
    assert!(!is_howdy_disabled(""));
}

#[test]
fn first_disabled_line_with_value_decides() {
    // A `disabled` line without `=` does not decide; the next one does.
    assert!(is_howdy_disabled("disabled\ndisabled = true\n"));
    assert!(!is_howdy_disabled("disabled = no\ndisabled = true\n"));
    // The value ends at a second `=`.
    assert!(is_howdy_disabled("disabled = true = x\n"));
}

#[test]
fn configured_device_values() {
    assert_eq!(configured_device("[video]\ndevice_path = /dev/video2\n"), Some("/dev/video2".to_string()));
    assert_eq!(configured_device("device_path = none\n"), None);
    assert_eq!(configured_device("device_path = null\n"), None);
    assert_eq!(configured_device("device_path =\n"), None);
    assert_eq!(configured_device("device_path\ndevice_path = /dev/video0\n"), None);
    assert_eq!(configured_device("# device_path = /dev/video0\n"), None);
    assert_eq!(
        configured_device("x = 1\n  device_path = /dev/v4l/by-path/usb-0:1  \n"),
        Some("/dev/v4l/by-path/usb-0:1".to_string())
    );
}

#[test]
fn update_replaces_the_setting() {
    let text = update_device_path("[video]\ndevice_path = none\n# device_path = old\nmax_height = 320", "/dev/video2");
    assert_eq!(text, "[video]\ndevice_path = /dev/video2\n# device_path = old\nmax_height = 320\n");
}

#[test]
fn update_appends_the_setting() {
    assert_eq!(update_device_path("[video]\n", "/dev/video0"), "[video]\ndevice_path = /dev/video0\n");
    assert_eq!(update_device_path("", "/dev/video0"), "device_path = /dev/video0\n");
}

#[test]
fn setting_then_reading_gives_the_camera() {
    for content in ["", "[video]\ndevice_path = none\n", "a\r\nb\r\n", "device_path=1\ndevice_path=2"] {
        let updated = update_device_path(content, "/dev/video7");
        assert_eq!(configured_device(&updated), Some("/dev/video7".to_string()));
    }
}

#[test]
fn a_camera_with_surrounding_spaces_reads_back_trimmed() {
    let updated = update_device_path("[video]\ndevice_path = none\n", "  /dev/video3 ");
    assert_eq!(updated, "[video]\ndevice_path =   /dev/video3 \n");
    assert_eq!(configured_device(&updated), Some("/dev/video3".to_string()));
    let updated = update_device_path("", "\t/dev/video1\r");
    assert_eq!(configured_device(&updated), Some("/dev/video1".to_string()));
}

#[test]
fn saving_the_same_camera_twice_changes_nothing() {
    for content in ["", "[video]\ndevice_path = none\n", "a\n  device_path = 2\n# device_path = 3", "x"] {
        let once = update_device_path(content, "/dev/video4");
        let twice = update_device_path(&once, "/dev/video4");
        assert_eq!(once, twice);
    }
}
