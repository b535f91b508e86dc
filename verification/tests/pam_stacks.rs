use xero_howdy_qt::pam::{
    howdy_or_default, pam_file_name, pam_howdy_active, polkit_script, stack_of, toggle_pam_content,
    vendor_pam_path, PamStack, PAM_LINE, PAM_POLKIT, PAM_POLKIT_LINE, POLKIT_OVERRIDE,
};

#[test]
fn active_line_is_detected() {
    assert!(pam_howdy_active("#%PAM-1.0\nauth sufficient pam_howdy.so\nauth include system-login\n"));
    assert!(pam_howdy_active("   auth  sufficient   pam_howdy.so  "));
    assert!(pam_howdy_active("auth sufficient pam_python.so /lib/security/howdy/pam.py\n"));
}

#[test]
fn commented_or_missing_line_is_not_active() {
    assert!(!pam_howdy_active("#auth sufficient pam_howdy.so\n"));
    assert!(!pam_howdy_active("   # auth sufficient pam_howdy.so\n"));
    assert!(!pam_howdy_active("auth include system-login\n"));
    assert!(!pam_howdy_active(""));
}

#[test]
fn disabling_comments_out_every_active_line() {
    let (was, text) = toggle_pam_content(
        "#%PAM-1.0\n  auth sufficient pam_howdy.so\nauth include system-login\r\nauth sufficient pam_python.so howdy/pam.py",
        false,
    );
    assert!(was);
    assert_eq!(
        text,
        "#%PAM-1.0\n#  auth sufficient pam_howdy.so\nauth include system-login\n#auth sufficient pam_python.so howdy/pam.py\n"
    );
    assert!(!pam_howdy_active(&text));
}

#[test]
fn enabling_uncomments_a_commented_line() {
    let (was, text) = toggle_pam_content("#%PAM-1.0\n#  auth sufficient pam_howdy.so\nauth include login\n", false);
    assert!(!was);
    assert_eq!(text, "#%PAM-1.0\nauth sufficient pam_howdy.so\nauth include login\n");
    assert!(pam_howdy_active(&text));
}

#[test]
fn enabling_inserts_after_the_header() {
    let (was, text) = toggle_pam_content("#%PAM-1.0\nauth include login\n", false);
    assert!(!was);
    assert_eq!(text, format!("#%PAM-1.0\n{}\nauth include login\n", PAM_LINE));
    assert!(pam_howdy_active(&text));
}

#[test]
fn enabling_inserts_at_the_top_without_header() {
    let (_, text) = toggle_pam_content("auth include login", false);
    assert_eq!(text, "auth sufficient pam_howdy.so\nauth include login\n");
    let (_, empty) = toggle_pam_content("", false);
    assert_eq!(empty, "auth sufficient pam_howdy.so\n");
}

#[test]
fn enabling_polkit_replaces_howdy_lines_with_the_full_path() {
    let (was, text) = toggle_pam_content(
        "#%PAM-1.0\n#auth sufficient pam_howdy.so\nauth include system-auth\n",
        true,
    );
    assert!(!was);
    assert_eq!(text, format!("#%PAM-1.0\n{}\nauth include system-auth\n", PAM_POLKIT_LINE));
    assert!(pam_howdy_active(&text));
}

#[test]
fn disabling_polkit_comments_out() {
    let (was, text) = toggle_pam_content("auth sufficient /lib/security/pam_howdy.so\n", true);
    assert!(was);
    assert_eq!(text, "#auth sufficient /lib/security/pam_howdy.so\n");
}

#[test]
fn doubly_commented_line_is_uncommented() {
    let (was, text) = toggle_pam_content("##auth sufficient pam_howdy.so\n", false);
    assert!(!was);
    assert_eq!(text, "auth sufficient pam_howdy.so\n");
    assert!(pam_howdy_active(&text));
    let (was, text) = toggle_pam_content("  # # auth sufficient pam_howdy.so\n", false);
    assert!(!was);
    assert_eq!(text, "auth sufficient pam_howdy.so\n");
}

#[test]
fn joined_stacks_are_active_when_either_is() {
    let on = "auth sufficient pam_howdy.so";
    let off = "#auth sufficient pam_howdy.so\nauth include login";
    for (a, b, expected) in [(on, off, true), (off, on, true), (off, off, false), ("", "", false), (on, "", true)] {
        let joined = format!("{}\n{}", a, b);
        assert_eq!(pam_howdy_active(&joined), expected);
        assert_eq!(pam_howdy_active(&joined), pam_howdy_active(a) || pam_howdy_active(b));
    }
}

#[test]
fn toggling_twice_restores_the_state() {
    let stack = "#%PAM-1.0\nauth include login\n";
    let (_, on) = toggle_pam_content(stack, false);
    let (was_on, off) = toggle_pam_content(&on, false);
    assert!(was_on);
    assert!(!pam_howdy_active(&off));
}

#[test]
fn vendor_path_replaces_the_directory() {
    assert_eq!(vendor_pam_path("/etc/pam.d/sddm"), "/usr/lib/pam.d/sddm");
    assert_eq!(vendor_pam_path("/other/file"), "/other/file");
    assert_eq!(vendor_pam_path("/etc/pam.d//etc/pam.d/x"), "/usr/lib/pam.d//usr/lib/pam.d/x");
}

#[test]
fn file_name_is_the_last_component() {
    assert_eq!(pam_file_name("/etc/pam.d/sudo"), "sudo");
    assert_eq!(pam_file_name("sudo"), "sudo");
    assert_eq!(pam_file_name("/etc/pam.d/"), "");
}

#[test]
fn stacks_are_found_by_path() {
    assert_eq!(stack_of("/etc/pam.d/sddm"), Some(PamStack::Sddm));
    assert_eq!(stack_of("/etc/pam.d/kde"), Some(PamStack::Kde));
    assert_eq!(stack_of("/etc/pam.d/sudo"), Some(PamStack::Sudo));
    assert_eq!(stack_of("/etc/pam.d/system-local-login"), Some(PamStack::SystemLogin));
    assert_eq!(stack_of("/etc/pam.d/plasmalogin"), Some(PamStack::PlasmaLogin));
    assert_eq!(stack_of(PAM_POLKIT), Some(PamStack::Polkit));
    assert_eq!(stack_of("/etc/pam.d/login"), None);
}

#[test]
fn polkit_scripts() {
    assert_eq!(
        polkit_script(true, "/usr/bin/howdy"),
        "cp /tmp/howdy_pam_tmp /etc/pam.d/polkit-1 && /usr/bin/howdy set warn_no_device false && /usr/bin/howdy set timeout_notice false && /usr/bin/howdy set timeout 10 && mkdir -p '/etc/systemd/system/polkit-agent-helper@.service.d' && cp /tmp/howdy_polkit_override.conf '/etc/systemd/system/polkit-agent-helper@.service.d/override.conf' && systemctl daemon-reload && systemctl restart polkit-agent-helper.socket"
    );
    assert_eq!(
        polkit_script(false, "/usr/bin/howdy"),
        "cp /tmp/howdy_pam_tmp /etc/pam.d/polkit-1 && rm -f '/etc/systemd/system/polkit-agent-helper@.service.d/override.conf' && systemctl daemon-reload && systemctl restart polkit-agent-helper.socket"
    );
    assert_eq!(howdy_or_default(None), "/usr/bin/howdy");
    assert_eq!(howdy_or_default(Some("/opt/howdy".to_string())), "/opt/howdy");
    assert_eq!(POLKIT_OVERRIDE, "[Service]\nPrivateDevices=no\nDeviceAllow=char-video4linux rw\n");
}

#[test]
fn enabling_polkit_leaves_one_howdy_line() {
    let (was, text) = toggle_pam_content(
        "auth include system-auth\n#auth sufficient pam_howdy.so\n# auth sufficient pam_python.so /lib/security/howdy/pam.py\naccount include system-auth\n",
        true,
    );
    assert!(!was);
    assert_eq!(
        text,
        "auth sufficient /lib/security/pam_howdy.so\nauth include system-auth\naccount include system-auth\n"
    );
    let howdy_lines = text.lines().filter(|l| l.contains("pam_howdy.so") || l.contains("howdy/pam.py")).count();
    assert_eq!(howdy_lines, 1);
}
