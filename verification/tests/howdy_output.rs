use xero_howdy_qt::howdy::{
    add_outcome, added_face_id, face_id_argument, faces_status_exec, find_howdy, needs_elevated_listing,
    parse_model_list, v4l2_lists_devices, CommandOutput,
};
use xero_howdy_qt::numbers::{parse_i32_exec, render_i32_exec};

fn output(success: bool, code: Option<i32>, stdout: &[u8], stderr: &[u8]) -> CommandOutput {
    CommandOutput { success, code, stdout: stdout.to_vec(), stderr: stderr.to_vec() }
}

fn parse(s: &str) -> Option<i32> {
    parse_i32_exec(&s.chars().collect())
}

fn render(n: i32) -> String {
    render_i32_exec(n).into_iter().collect()
}

#[test]
fn integers_parse_like_from_str() {
    assert_eq!(parse("42"), Some(42));
    assert_eq!(parse("+7"), Some(7));
    assert_eq!(parse("-2147483648"), Some(i32::MIN));
    assert_eq!(parse("2147483647"), Some(i32::MAX));
    assert_eq!(parse("2147483648"), None);
    assert_eq!(parse("99999999999999999999"), None);
    assert_eq!(parse("007"), Some(7));
    assert_eq!(parse(""), None);
    assert_eq!(parse("-"), None);
    assert_eq!(parse("1a"), None);
    assert_eq!(parse(" 1"), None);
}

#[test]
fn integers_render_like_to_string() {
    for n in [0, 5, 10, 1234567, -1, -10, i32::MIN, i32::MAX] {
        assert_eq!(render(n), n.to_string());
        assert_eq!(parse(&render(n)), Some(n));
    }
}

#[test]
fn howdy_path_from_which() {
    assert_eq!(find_howdy(&Some(output(true, Some(0), b"/usr/bin/howdy\n", b""))), Some("/usr/bin/howdy".to_string()));
    assert_eq!(find_howdy(&Some(output(false, Some(1), b"/usr/bin/howdy\n", b""))), None);
    assert_eq!(find_howdy(&Some(output(true, Some(0), b"  \n", b""))), None);
    assert_eq!(find_howdy(&Some(output(true, Some(0), b"/usr/\xffbin\n", b""))), None);
    assert_eq!(find_howdy(&None), None);
}

#[test]
fn elevated_listing_only_when_needed() {
    assert!(!needs_elevated_listing(&Some(output(true, Some(0), b"", b""))));
    assert!(needs_elevated_listing(&Some(output(false, Some(1), b"", b""))));
    assert!(needs_elevated_listing(&None));
}

#[test]
fn model_list_is_parsed() {
    let out = output(
        true,
        Some(0),
        "Known face models for user:\n\n  ID  Date                 Label\n  \u{2500}\u{2500}\u{2500}\n  0   2024-01-15 10:00:00  Default\n  1   2024-01-16 11:00:00  Glasses\n---\n".as_bytes(),
        b"",
    );
    let (none, models) = parse_model_list(&out);
    assert!(!none);
    assert_eq!(models, vec!["0   2024-01-15 10:00:00  Default".to_string(), "1   2024-01-16 11:00:00  Glasses".to_string()]);
    assert_eq!(faces_status_exec(models.len()), "Found 2 registered face(s)");
    assert_eq!(faces_status_exec(0), "No faces registered");
}

#[test]
fn no_faces_is_reported_in_any_case() {
    let (none, models) = parse_model_list(&output(false, Some(1), b"", b"No Users have been registered"));
    assert!(none);
    assert!(models.is_empty());
    let (none, _) = parse_model_list(&output(true, Some(0), b"NO MODELS", b""));
    assert!(none);
    // Split between the two streams.
    let (none, _) = parse_model_list(&output(true, Some(0), b"0 a\nno us", b"ers"));
    assert!(none);
}

#[test]
fn face_id_of_a_registration() {
    assert_eq!(added_face_id("Adding face model\nFace added as 3\n"), Some(3));
    assert_eq!(added_face_id("  Face added as model 12  \nFace added as 4"), Some(12));
    assert_eq!(added_face_id("Face added as x\nFace added as 4"), None);
    assert_eq!(added_face_id("nothing here"), None);
}

#[test]
fn registration_outcomes() {
    let ok = add_outcome(&Ok(output(true, Some(0), b"Face added as 5\n", b"")));
    assert_eq!(ok, ("Face registered successfully".to_string(), Some(5)));
    let failed = add_outcome(&Ok(output(false, Some(1), b"", b"  no camera\n")));
    assert_eq!(failed, ("Failed: no camera".to_string(), None));
    let silent = add_outcome(&Ok(output(false, Some(3), b"", b"")));
    assert_eq!(silent, ("Failed (exit code: Some(3))".to_string(), None));
    let killed = add_outcome(&Ok(output(false, None, b" ", b"\n")));
    assert_eq!(killed, ("Failed (exit code: None)".to_string(), None));
    let not_started = add_outcome(&Err("No such file or directory (os error 2)".to_string()));
    assert_eq!(not_started, ("Failed: No such file or directory (os error 2)".to_string(), None));
    let lossy = add_outcome(&Ok(output(false, Some(1), b"bad \xff byte", b"")));
    assert_eq!(lossy, ("Failed: bad \u{fffd} byte".to_string(), None));
}

#[test]
fn kept_face_id_gives_the_removal_argument() {
    assert_eq!(face_id_argument(" 12\n"), Some("12".to_string()));
    assert_eq!(face_id_argument("+012"), Some("12".to_string()));
    assert_eq!(face_id_argument("-3"), Some("-3".to_string()));
    assert_eq!(face_id_argument("abc"), None);
    for n in [0, 7, -4, i32::MAX] {
        assert_eq!(face_id_argument(&n.to_string()), Some(n.to_string()));
    }
}

#[test]
fn v4l2_answers() {
    assert_eq!(v4l2_lists_devices(&Some(output(true, Some(0), b"Cam (usb):\n\t/dev/video0\n", b""))), Some(true));
    assert_eq!(v4l2_lists_devices(&Some(output(true, Some(0), b" \n\t", b""))), Some(false));
    assert_eq!(v4l2_lists_devices(&Some(output(false, Some(1), b"x", b""))), None);
    assert_eq!(v4l2_lists_devices(&None), None);
}
