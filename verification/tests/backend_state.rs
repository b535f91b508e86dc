use xero_howdy_qt::backend::{DeviceProbe, HowdyBackendRust, InstallOutcome, PamSource};
use xero_howdy_qt::devices::video_device_list;
use xero_howdy_qt::howdy::CommandOutput;

fn output(success: bool, stdout: &[u8], stderr: &[u8]) -> CommandOutput {
    CommandOutput { success, code: Some(if success { 0 } else { 1 }), stdout: stdout.to_vec(), stderr: stderr.to_vec() }
}

#[test]
fn starts_empty() {
    let b = HowdyBackendRust::default();
    assert!(b.face_models.is_empty());
    assert!(b.status_message.is_empty());
    assert!(!b.howdy_enabled && !b.pam_sddm && !b.sddm_installed);
}

#[test]
fn display_managers_fall_back_to_sddm() {
    let mut b = HowdyBackendRust::default();
    b.detect_display_managers("1.2.3", false, false);
    assert_eq!(b.app_version, "1.2.3");
    assert!(b.sddm_installed && !b.plasma_lm_installed);
    b.detect_display_managers("1.2.3", false, true);
    assert!(!b.sddm_installed && b.plasma_lm_installed);
    b.detect_display_managers("1.2.3", true, true);
    assert!(b.sddm_installed && b.plasma_lm_installed);
}

fn probe(installed: bool, video: bool, config: Option<&str>, exists: bool) -> DeviceProbe {
    DeviceProbe {
        howdy_installed: installed,
        video_devices: video,
        config: config.map(|c| c.to_string()),
        configured_device_exists: exists,
    }
}

#[test]
fn device_check_outcomes() {
    let mut b = HowdyBackendRust::default();
    b.check_device(probe(false, true, None, false));
    assert!(!b.device_supported);
    assert_eq!(b.status_message, "Howdy is not installed");

    b.check_device(probe(true, false, None, false));
    assert!(!b.device_supported);
    assert_eq!(b.status_message, "No video devices found (install v4l-utils for better detection)");

    b.check_device(probe(true, true, Some("device_path = /dev/video0\ndisabled = false\n"), true));
    assert!(b.device_supported && b.howdy_enabled);
    assert_eq!(b.status_message, "Device found: /dev/video0");

    b.check_device(probe(true, true, Some("device_path = /dev/v4l/by-id/cam\ndisabled = true\n"), true));
    assert!(b.device_supported && !b.howdy_enabled);
    assert_eq!(b.status_message, "Device configured (stable path): /dev/v4l/by-id/cam");

    b.check_device(probe(true, true, Some("device_path = /dev/video9\n"), false));
    assert!(b.device_supported && b.howdy_enabled);
    assert_eq!(b.status_message, "Video device(s) found - run 'sudo howdy config' to set device_path");

    b.howdy_enabled = false;
    b.check_device(probe(true, true, None, false));
    assert!(b.device_supported && !b.howdy_enabled);
    assert_eq!(b.status_message, "Video device(s) found - run 'sudo howdy config' to set device_path");
}

#[test]
fn model_refresh() {
    let mut b = HowdyBackendRust::default();
    b.refresh_models(false, None);
    assert_eq!(b.status_message, "Howdy is not installed");
    b.refresh_models(true, None);
    assert_eq!(b.status_message, "Failed to list models");
    b.refresh_models(true, Some(output(true, b"ID Date Label\n0 2024 Default\n", b"")));
    assert_eq!(b.face_models, vec!["0 2024 Default".to_string()]);
    assert_eq!(b.status_message, "Found 1 registered face(s)");
    b.refresh_models(true, Some(output(true, b"No users", b"")));
    assert!(b.face_models.is_empty());
    assert_eq!(b.status_message, "No faces registered");
    b.refresh_models(true, Some(output(true, b"header only\n", b"")));
    assert_eq!(b.status_message, "No faces registered");
}

#[test]
fn registration_flow() {
    let mut b = HowdyBackendRust::default();
    assert!(!b.add_model("", true));
    assert_eq!(b.status_message, "Failed: Please enter a model name");
    assert!(!b.add_model("Default", false));
    assert_eq!(b.status_message, "Failed: Howdy is not installed");
    assert!(b.add_model("Default", true));
    assert_eq!(b.status_message, "Look at the camera...");
    assert!(!b.check_add_result(None));
    assert!(b.check_add_result(Some("Face registered successfully".to_string())));
    assert_eq!(b.status_message, "Face registered successfully");
    assert_eq!(b.discard_face(true, Some("5\n".to_string())), Some("5".to_string()));
    assert_eq!(b.status_message, "Face discarded");
    assert_eq!(b.discard_face(true, None), None);
    b.status_message = "kept".to_string();
    assert_eq!(b.discard_face(false, Some("5".to_string())), None);
    assert_eq!(b.status_message, "kept");
}

#[test]
fn model_removal() {
    let mut b = HowdyBackendRust::default();
    assert!(!b.remove_model(None));
    assert_eq!(b.status_message, "Howdy is not installed");
    assert!(b.remove_model(Some(Ok(output(true, b"", b"")))));
    assert_eq!(b.status_message, "Model removed");
    assert!(!b.remove_model(Some(Ok(output(false, b"", b"no such model")))));
    assert_eq!(b.status_message, "Failed: no such model");
    assert!(!b.remove_model(Some(Err("denied".to_string()))));
    assert_eq!(b.status_message, "Error: denied");
}

#[test]
fn enabling_and_disabling_howdy() {
    let mut b = HowdyBackendRust::default();
    b.howdy_enabled = true;
    assert_eq!(b.toggle_enabled_arg(), "1");
    b.toggle_enabled(Some(Ok(output(true, b"", b""))));
    assert!(!b.howdy_enabled);
    assert_eq!(b.status_message, "Howdy disabled");
    assert_eq!(b.toggle_enabled_arg(), "0");
    b.toggle_enabled(Some(Ok(output(true, b"", b""))));
    assert!(b.howdy_enabled);
    assert_eq!(b.status_message, "Howdy enabled");
    b.toggle_enabled(Some(Ok(output(false, b"", b"denied"))));
    assert!(b.howdy_enabled);
    assert_eq!(b.status_message, "Failed: denied");
    b.toggle_enabled(None);
    assert_eq!(b.status_message, "Howdy is not installed");
}

#[test]
fn recognition_test() {
    let mut b = HowdyBackendRust::default();
    assert!(!b.run_test(false));
    assert_eq!(b.status_message, "Howdy is not installed");
    assert!(b.run_test(true));
    assert_eq!(b.status_message, "Running test... Look at the camera");
    b.test_finished(Ok(output(true, b"Opening camera\nRecognized face\n", b"")));
    assert_eq!(b.status_message, "Test complete: Recognized face");
    b.test_finished(Ok(output(true, b"", b"")));
    assert_eq!(b.status_message, "Test complete: Success");
    b.test_finished(Ok(output(false, b"", b"timeout")));
    assert_eq!(b.status_message, "Test failed: timeout");
    b.test_finished(Err("gone".to_string()));
    assert_eq!(b.status_message, "Error: gone");
}

#[test]
fn camera_preview() {
    let mut b = HowdyBackendRust::default();
    assert!(!b.test_camera(""));
    assert_eq!(b.status_message, "No device selected");
    assert!(b.test_camera("/dev/video0"));
    b.camera_preview_started("/dev/video0", Ok(()));
    assert_eq!(b.status_message, "Previewing /dev/video0 \u{2014} close mpv when done");
    b.camera_preview_started("/dev/video0", Err("not found".to_string()));
    assert_eq!(b.status_message, "Failed to launch mpv: not found");
}

#[test]
fn camera_list_and_configuration() {
    let names: Vec<String> = ["video2", "null", "video0", "video10", "tty"].iter().map(|s| s.to_string()).collect();
    assert_eq!(video_device_list(&names), vec!["/dev/video0", "/dev/video10", "/dev/video2"]);
    let mut b = HowdyBackendRust::default();
    b.load_video_devices(&names, Some("device_path = /dev/video0\n".to_string()));
    assert_eq!(b.video_devices, vec!["/dev/video0", "/dev/video10", "/dev/video2"]);
    assert!(b.camera_configured);
    b.load_video_devices(&names, Some("device_path = none\n".to_string()));
    assert!(!b.camera_configured);
    b.load_video_devices(&Vec::new(), None);
    assert!(b.video_devices.is_empty() && !b.camera_configured);
}

#[test]
fn saving_the_camera() {
    let mut b = HowdyBackendRust::default();
    assert!(!b.save_device_path(""));
    assert_eq!(b.status_message, "No device selected");
    b.status_message = String::new();
    assert!(b.save_device_path("/dev/video0"));
    assert_eq!(b.status_message, "");
    assert_eq!(b.device_config_read("/dev/video0", None), None);
    assert_eq!(b.status_message, "Howdy config not found");
    assert_eq!(
        b.device_config_read("/dev/video0", Some("[video]\ndevice_path = none\n".to_string())),
        Some("[video]\ndevice_path = /dev/video0\n".to_string())
    );
    b.device_path_saved("/dev/video0", InstallOutcome::Ran(Ok(output(true, b"", b""))));
    assert_eq!(b.status_message, "Camera saved: /dev/video0");
    b.device_path_saved("/dev/video0", InstallOutcome::Ran(Ok(output(false, b"", b"denied"))));
    assert_eq!(b.status_message, "Failed to save: denied");
    b.device_path_saved("/dev/video0", InstallOutcome::TempWriteFailed("disk full".to_string()));
    assert_eq!(b.status_message, "Failed to write temp file: disk full");
    b.device_path_saved("/dev/video0", InstallOutcome::Ran(Err("no pkexec".to_string())));
    assert_eq!(b.status_message, "Error: no pkexec");
}

#[test]
fn pam_status_of_every_stack() {
    let mut b = HowdyBackendRust::default();
    let on = Some("auth sufficient pam_howdy.so\n".to_string());
    let off = Some("#auth sufficient pam_howdy.so\n".to_string());
    b.check_pam_status(on.clone(), off.clone(), None, on.clone(), off, on);
    assert!(b.pam_sddm && !b.pam_kde && !b.pam_sudo && b.pam_system_login && !b.pam_plasma_lm && b.pam_polkit);
}

#[test]
fn toggling_a_stack() {
    let mut b = HowdyBackendRust::default();
    let edit = b.toggle_pam("/etc/pam.d/sudo", PamSource::Text("#%PAM-1.0\nauth include system-auth\n".to_string())).unwrap();
    assert!(!edit.enabled_before && !edit.polkit);
    assert_eq!(edit.content, "#%PAM-1.0\nauth sufficient pam_howdy.so\nauth include system-auth\n");
    b.pam_toggled("/etc/pam.d/sudo", edit.enabled_before, InstallOutcome::Ran(Ok(output(true, b"", b""))));
    assert!(b.pam_sudo);
    assert_eq!(b.status_message, "Howdy enabled in sudo");
    b.check_pam_status(None, None, Some(edit.content.clone()), None, None, None);
    assert!(b.pam_sudo);

    let edit = b.toggle_pam("/etc/pam.d/sudo", PamSource::Text(edit.content)).unwrap();
    assert!(edit.enabled_before);
    b.pam_toggled("/etc/pam.d/sudo", edit.enabled_before, InstallOutcome::Ran(Ok(output(true, b"", b""))));
    assert!(!b.pam_sudo);
    assert_eq!(b.status_message, "Howdy disabled in sudo");

    b.pam_toggled("/etc/pam.d/sddm", false, InstallOutcome::Ran(Ok(output(false, b"", b"denied"))));
    assert!(!b.pam_sddm);
    assert_eq!(b.status_message, "Failed to update PAM: denied");
    b.pam_toggled("/etc/pam.d/login", false, InstallOutcome::Ran(Ok(output(true, b"", b""))));
    assert_eq!(b.status_message, "Howdy enabled in login");
}

#[test]
fn toggling_polkit() {
    let mut b = HowdyBackendRust::default();
    let edit = b.toggle_pam("/etc/pam.d/polkit-1", PamSource::Text("auth include system-auth\n".to_string())).unwrap();
    assert!(edit.polkit && !edit.enabled_before);
    assert_eq!(edit.content, "auth sufficient /lib/security/pam_howdy.so\nauth include system-auth\n");
    b.pam_toggled("/etc/pam.d/polkit-1", false, InstallOutcome::Ran(Ok(output(true, b"", b""))));
    assert!(b.pam_polkit);
    assert_eq!(b.status_message, "Howdy enabled for polkit (camera sandbox configured)");
    b.pam_toggled("/etc/pam.d/polkit-1", true, InstallOutcome::Ran(Ok(output(true, b"", b""))));
    assert!(!b.pam_polkit);
    assert_eq!(b.status_message, "Howdy disabled for polkit");
    b.pam_toggled("/etc/pam.d/polkit-1", true, InstallOutcome::Ran(Ok(output(false, b"", b"x"))));
    assert_eq!(b.status_message, "Failed to configure polkit: x");
}

#[test]
fn unreadable_stacks() {
    let mut b = HowdyBackendRust::default();
    assert!(b.toggle_pam("/etc/pam.d/kde", PamSource::Missing).is_none());
    assert_eq!(b.status_message, "No PAM config found for /etc/pam.d/kde");
    assert!(b.toggle_pam("/etc/pam.d/kde", PamSource::Unreadable("Permission denied".to_string())).is_none());
    assert_eq!(b.status_message, "Cannot read /etc/pam.d/kde: Permission denied");
}
