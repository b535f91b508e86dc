//! The state that the front end shows (the properties of its `HowdyBackend`
//! object) and how each of its actions changes it. The actions that run
//! commands or touch files take what those produced as arguments; the front
//! end performs them.
use vstd::prelude::*;
use crate::text::{chars_of, contains, contains_exec, lines, lines_exec, push_all, push_str, after_last};
use crate::stdcalls::{lossy_text, lossy_utf8, string_of};
use crate::config::{
    configured_device, configured_device_of, disabled_in, is_howdy_disabled, update_device_path,
    with_device,
};
use crate::pam::{
    PamStack, howdy_active, pam_file_name, pam_howdy_active, stack_at, stack_of, toggle_pam_content,
    toggled_pam, PAM_POLKIT, lemma_toggle_flips, lemma_stack_at_path, stack_path,
};
use crate::howdy::{
    CommandOutput, CommandResult, face_id_argument, face_id_argument_spec, faces_status,
    faces_status_exec, listed_models, no_faces_reported, parse_model_list,
};
use crate::devices::{sorted, video_device_list, video_paths};

verus! {

/// What the front end shows, as values.
pub struct BackendView {
    pub face_models: Seq<Seq<char>>,
    pub video_devices: Seq<Seq<char>>,
    pub status_message: Seq<char>,
    pub howdy_enabled: bool,
    pub device_supported: bool,
    pub camera_configured: bool,
    pub pam_sddm: bool,
    pub pam_kde: bool,
    pub pam_sudo: bool,
    pub pam_system_login: bool,
    pub pam_plasma_lm: bool,
    pub pam_polkit: bool,
    pub sddm_installed: bool,
    pub plasma_lm_installed: bool,
    pub app_version: Seq<char>,
}

impl BackendView {
    pub open spec fn with_status(self, m: Seq<char>) -> BackendView {
        BackendView { status_message: m, ..self }
    }

    /// The view with the flag of a PAM stack set.
    pub open spec fn with_stack_flag(self, st: PamStack, v: bool) -> BackendView {
        match st {
            PamStack::Sddm => BackendView { pam_sddm: v, ..self },
            PamStack::Kde => BackendView { pam_kde: v, ..self },
            PamStack::Sudo => BackendView { pam_sudo: v, ..self },
            PamStack::SystemLogin => BackendView { pam_system_login: v, ..self },
            PamStack::PlasmaLogin => BackendView { pam_plasma_lm: v, ..self },
            PamStack::Polkit => BackendView { pam_polkit: v, ..self },
        }
    }

    /// The flag of a PAM stack.
    pub open spec fn stack_flag(self, st: PamStack) -> bool {
        match st {
            PamStack::Sddm => self.pam_sddm,
            PamStack::Kde => self.pam_kde,
            PamStack::Sudo => self.pam_sudo,
            PamStack::SystemLogin => self.pam_system_login,
            PamStack::PlasmaLogin => self.pam_plasma_lm,
            PamStack::Polkit => self.pam_polkit,
        }
    }
}

/// The state behind the front end's `HowdyBackend` object.
pub struct HowdyBackendRust {
    pub face_models: Vec<String>,
    pub video_devices: Vec<String>,
    pub status_message: String,
    pub howdy_enabled: bool,
    pub device_supported: bool,
    pub camera_configured: bool,
    pub pam_sddm: bool,
    pub pam_kde: bool,
    pub pam_sudo: bool,
    pub pam_system_login: bool,
    pub pam_plasma_lm: bool,
    pub pam_polkit: bool,
    pub sddm_installed: bool,
    pub plasma_lm_installed: bool,
    pub app_version: String,
}

/// The QML object's name for this state.
pub type HowdyBackend = HowdyBackendRust;

impl View for HowdyBackendRust {
    type V = BackendView;

    open spec fn view(&self) -> BackendView {
        BackendView {
            face_models: self.face_models@.map_values(|s: String| s@),
            video_devices: self.video_devices@.map_values(|s: String| s@),
            status_message: self.status_message@,
            howdy_enabled: self.howdy_enabled,
            device_supported: self.device_supported,
            camera_configured: self.camera_configured,
            pam_sddm: self.pam_sddm,
            pam_kde: self.pam_kde,
            pam_sudo: self.pam_sudo,
            pam_system_login: self.pam_system_login,
            pam_plasma_lm: self.pam_plasma_lm,
            pam_polkit: self.pam_polkit,
            sddm_installed: self.sddm_installed,
            plasma_lm_installed: self.plasma_lm_installed,
            app_version: self.app_version@,
        }
    }
}

/// The state before any action: no faces, no cameras, empty texts, every flag off.
pub open spec fn initial_view() -> BackendView {
    BackendView {
        face_models: Seq::empty(),
        video_devices: Seq::empty(),
        status_message: Seq::empty(),
        howdy_enabled: false,
        device_supported: false,
        camera_configured: false,
        pam_sddm: false,
        pam_kde: false,
        pam_sudo: false,
        pam_system_login: false,
        pam_plasma_lm: false,
        pam_polkit: false,
        sddm_installed: false,
        plasma_lm_installed: false,
        app_version: Seq::empty(),
    }
}

impl Default for HowdyBackendRust {
    fn default() -> (r: Self)
        ensures
            r@ == initial_view(),
    {
        let r = HowdyBackendRust {
            face_models: Vec::new(),
            video_devices: Vec::new(),
            status_message: String::new(),
            howdy_enabled: false,
            device_supported: false,
            camera_configured: false,
            pam_sddm: false,
            pam_kde: false,
            pam_sudo: false,
            pam_system_login: false,
            pam_plasma_lm: false,
            pam_polkit: false,
            sddm_installed: false,
            plasma_lm_installed: false,
            app_version: String::new(),
        };
        assert(r@.face_models =~= Seq::<Seq<char>>::empty());
        assert(r@.video_devices =~= Seq::<Seq<char>>::empty());
        r
    }
}

/// `prefix` followed by `tail`.
fn message(prefix: &str, tail: &str) -> (r: String)
    ensures
        r@ == prefix@ + tail@,
{
    let mut v = chars_of(prefix);
    push_str(&mut v, tail);
    string_of(&v)
}

/// The status after a command of Howdy's ran: `Error: ` and the system's
/// message when it could not start, `fail` and its standard error when it
/// failed.
pub open spec fn command_status(result: CommandResult, ok: Seq<char>, fail: Seq<char>) -> Seq<char> {
    match result {
        Ok(o) => if o.success {
            ok
        } else {
            fail + lossy_utf8(o.stderr@)
        },
        Err(e) => "Error: "@ + e@,
    }
}

fn command_status_exec(result: &CommandResult, ok: &str, fail: &str) -> (r: String)
    ensures
        r@ == command_status(*result, ok@, fail@),
{
    match result {
        Ok(o) => {
            if o.success {
                String::from_str(ok)
            } else {
                let err = lossy_text(&o.stderr);
                message(fail, err.as_str())
            }
        },
        Err(e) => message("Error: ", e.as_str()),
    }
}

/// The last line of a text, or `Success` when it has none.
pub open spec fn last_line_or_success(s: Seq<char>) -> Seq<char> {
    if lines(s).len() > 0 {
        lines(s).last()
    } else {
        "Success"@
    }
}

/// The status that a face recognition test ends with.
pub open spec fn test_status(result: CommandResult) -> Seq<char> {
    match result {
        Ok(o) => if o.success {
            "Test complete: "@ + last_line_or_success(lossy_utf8(o.stdout@))
        } else {
            "Test failed: "@ + lossy_utf8(o.stderr@)
        },
        Err(e) => "Error: "@ + e@,
    }
}

impl HowdyBackendRust {
    /// Show the application's version and which display managers are
    /// installed; with neither found, SDDM is shown (the most common one).
    pub fn detect_display_managers(&mut self, version: &str, sddm_found: bool, plasma_found: bool)
        ensures
            final(self)@ == (BackendView {
                app_version: version@,
                sddm_installed: sddm_found || !plasma_found,
                plasma_lm_installed: plasma_found,
                ..old(self)@
            }),
            final(self).sddm_installed || final(self).plasma_lm_installed,
    {
        self.app_version = String::from_str(version);
        self.sddm_installed = sddm_found;
        self.plasma_lm_installed = plasma_found;
        if !sddm_found && !plasma_found {
            self.sddm_installed = true;
        }
    }

    /// Registering a face may start: returns whether to run `howdy add -y
    /// <name>`; otherwise the status says why not.
    pub fn add_model(&mut self, name: &str, howdy_installed: bool) -> (start: bool)
        ensures
            start == (name@.len() > 0 && howdy_installed),
            final(self)@ == old(self)@.with_status(
                if name@.len() == 0 {
                    "Failed: Please enter a model name"@
                } else if !howdy_installed {
                    "Failed: Howdy is not installed"@
                } else {
                    "Look at the camera..."@
                },
            ),
    {
        if chars_of(name).len() == 0 {
            self.status_message = String::from_str("Failed: Please enter a model name");
            return false;
        }
        if !howdy_installed {
            self.status_message = String::from_str("Failed: Howdy is not installed");
            return false;
        }
        self.status_message = String::from_str("Look at the camera...");
        true
    }

    /// Show the result of a face registration that finished in the
    /// background, if one is pending; returns whether there was one.
    pub fn check_add_result(&mut self, pending: Option<String>) -> (found: bool)
        ensures
            found == pending is Some,
            pending matches Some(m) ==> final(self)@ == old(self)@.with_status(m@),
            pending is None ==> final(self)@ == old(self)@,
    {
        match pending {
            Some(m) => {
                self.status_message = m;
                true
            },
            None => false,
        }
    }

    /// Discard the face just registered, whose ID was kept as `saved_id`:
    /// returns the argument for `howdy remove -y`, if the ID reads as an
    /// `i32`. Without Howdy nothing happens.
    pub fn discard_face(&mut self, howdy_installed: bool, saved_id: Option<String>) -> (arg: Option<String>)
        ensures
            !howdy_installed ==> arg is None && final(self)@ == old(self)@,
            howdy_installed ==> final(self)@ == old(self)@.with_status("Face discarded"@),
            howdy_installed && saved_id is None ==> arg is None,
            howdy_installed && saved_id is Some ==> match arg {
                Some(a) => face_id_argument_spec(saved_id->0@) == Some(a@),
                None => face_id_argument_spec(saved_id->0@) is None,
            },
    {
        if !howdy_installed {
            return None;
        }
        let arg = match saved_id {
            Some(text) => face_id_argument(text.as_str()),
            None => None,
        };
        self.status_message = String::from_str("Face discarded");
        arg
    }

    /// Show how removing a face model went (`None`: Howdy is not installed,
    /// so nothing ran); returns whether the list of faces is to be reloaded.
    pub fn remove_model(&mut self, outcome: Option<CommandResult>) -> (reload: bool)
        ensures
            reload == (outcome matches Some(Ok(o)) && o.success),
            final(self)@ == old(self)@.with_status(
                match outcome {
                    Some(r) => command_status(r, "Model removed"@, "Failed: "@),
                    None => "Howdy is not installed"@,
                },
            ),
    {
        match outcome {
            Some(r) => {
                self.status_message = command_status_exec(&r, "Model removed", "Failed: ");
                match r {
                    Ok(o) => o.success,
                    Err(_) => false,
                }
            },
            None => {
                self.status_message = String::from_str("Howdy is not installed");
                false
            },
        }
    }

    /// The argument of `howdy disable` that flips the current state: `1`
    /// (disable) while Howdy is enabled, else `0`.
    pub fn toggle_enabled_arg(&self) -> (arg: &'static str)
        ensures
            arg@ == if self.howdy_enabled {
                "1"@
            } else {
                "0"@
            },
    {
        if self.howdy_enabled {
            "1"
        } else {
            "0"
        }
    }

    /// Show how turning Howdy on or off went (`None`: Howdy is not
    /// installed); on success the flag flips.
    pub fn toggle_enabled(&mut self, outcome: Option<CommandResult>)
        ensures
            final(self)@ == toggled_enabled(old(self)@, outcome),
    {
        match outcome {
            Some(r) => {
                let was = self.howdy_enabled;
                let ok = if was {
                    "Howdy disabled"
                } else {
                    "Howdy enabled"
                };
                self.status_message = command_status_exec(&r, ok, "Failed: ");
                match r {
                    Ok(o) => {
                        if o.success {
                            self.howdy_enabled = !was;
                        }
                    },
                    Err(_) => {},
                }
            },
            None => {
                self.status_message = String::from_str("Howdy is not installed");
            },
        }
    }

    /// A face recognition test may start: returns whether to run `howdy
    /// test`; the status says that it runs, or that Howdy is missing.
    pub fn run_test(&mut self, howdy_installed: bool) -> (start: bool)
        ensures
            start == howdy_installed,
            final(self)@ == old(self)@.with_status(
                if howdy_installed {
                    "Running test... Look at the camera"@
                } else {
                    "Howdy is not installed"@
                },
            ),
    {
        if !howdy_installed {
            self.status_message = String::from_str("Howdy is not installed");
            return false;
        }
        self.status_message = String::from_str("Running test... Look at the camera");
        true
    }

    /// Show how the face recognition test went.
    pub fn test_finished(&mut self, result: CommandResult)
        ensures
            final(self)@ == old(self)@.with_status(test_status(result)),
    {
        match result {
            Ok(o) => {
                if o.success {
                    let out = lossy_text(&o.stdout);
                    let ls = lines_exec(&chars_of(out.as_str()));
                    let mut v = chars_of("Test complete: ");
                    if ls.len() > 0 {
                        push_all(&mut v, &ls[ls.len() - 1]);
                    } else {
                        push_str(&mut v, "Success");
                    }
                    self.status_message = string_of(&v);
                } else {
                    let err = lossy_text(&o.stderr);
                    self.status_message = message("Test failed: ", err.as_str());
                }
            },
            Err(e) => {
                self.status_message = message("Error: ", e.as_str());
            },
        }
    }

    /// A camera preview may start: returns whether to launch `mpv <device>`.
    pub fn test_camera(&mut self, device: &str) -> (start: bool)
        ensures
            start == (device@.len() > 0),
            start ==> final(self)@ == old(self)@,
            !start ==> final(self)@ == old(self)@.with_status("No device selected"@),
    {
        if chars_of(device).len() == 0 {
            self.status_message = String::from_str("No device selected");
            return false;
        }
        true
    }

    /// Show whether the preview of `device` started.
    pub fn camera_preview_started(&mut self, device: &str, started: Result<(), String>)
        ensures
            final(self)@ == old(self)@.with_status(
                match started {
                    Ok(_) => "Previewing "@ + device@ + " \u{2014} close mpv when done"@,
                    Err(e) => "Failed to launch mpv: "@ + e@,
                },
            ),
    {
        match started {
            Ok(_) => {
                let mut v = chars_of("Previewing ");
                push_str(&mut v, device);
                push_str(&mut v, " \u{2014} close mpv when done");
                self.status_message = string_of(&v);
            },
            Err(e) => {
                self.status_message = message("Failed to launch mpv: ", e.as_str());
            },
        }
    }
}

/// The state after turning Howdy on or off.
pub open spec fn toggled_enabled(v: BackendView, outcome: Option<CommandResult>) -> BackendView {
    match outcome {
        Some(r) => {
            let st = command_status(
                r,
                if v.howdy_enabled {
                    "Howdy disabled"@
                } else {
                    "Howdy enabled"@
                },
                "Failed: "@,
            );
            if r matches Ok(o) && o.success {
                BackendView { howdy_enabled: !v.howdy_enabled, status_message: st, ..v }
            } else {
                v.with_status(st)
            }
        },
        None => v.with_status("Howdy is not installed"@),
    }
}

/// What the front end found out about the machine for `check_device`.
pub struct DeviceProbe {
    /// `which howdy` succeeded.
    pub howdy_installed: bool,
    /// Video devices exist: `v4l2-ctl --list-devices` printed some (see
    /// `v4l2_lists_devices`), or else `/dev/v4l/by-path` has entries.
    pub video_devices: bool,
    /// The text of the first Howdy configuration file that exists, if it
    /// could be read.
    pub config: Option<String>,
    /// The camera that the configuration sets (see `configured_device`)
    /// exists on the machine.
    pub configured_device_exists: bool,
}

/// The status for a configured camera that exists.
pub open spec fn device_found_status(d: Seq<char>) -> Seq<char> {
    if contains(d, "/by-path/"@) || contains(d, "/by-id/"@) {
        "Device configured (stable path): "@ + d
    } else {
        "Device found: "@ + d
    }
}

/// The state after checking for a supported camera.
pub open spec fn device_checked(v: BackendView, p: DeviceProbe) -> BackendView {
    if !p.howdy_installed {
        BackendView { device_supported: false, status_message: "Howdy is not installed"@, ..v }
    } else if !p.video_devices {
        BackendView {
            device_supported: false,
            status_message: "No video devices found (install v4l-utils for better detection)"@,
            ..v
        }
    } else {
        let enabled = match p.config {
            Some(c) => !disabled_in(lines(c@)),
            None => v.howdy_enabled,
        };
        let st = match p.config {
            Some(c) => match configured_device_of(c@) {
                Some(d) => if p.configured_device_exists {
                    device_found_status(d)
                } else {
                    "Video device(s) found - run 'sudo howdy config' to set device_path"@
                },
                None => "Video device(s) found - run 'sudo howdy config' to set device_path"@,
            },
            None => "Video device(s) found - run 'sudo howdy config' to set device_path"@,
        };
        BackendView { device_supported: true, howdy_enabled: enabled, status_message: st, ..v }
    }
}

/// The state after reloading the list of faces: `howdy_installed` says
/// whether Howdy is there, `listing` is what `howdy list` left, if it ran.
pub open spec fn models_refreshed(v: BackendView, howdy_installed: bool, listing: Option<CommandOutput>) -> BackendView {
    if !howdy_installed {
        v.with_status("Howdy is not installed"@)
    } else {
        match listing {
            None => v.with_status("Failed to list models"@),
            Some(o) => if no_faces_reported(o) {
                BackendView { face_models: Seq::empty(), status_message: "No faces registered"@, ..v }
            } else {
                let models = listed_models(lossy_utf8(o.stdout@));
                BackendView { face_models: models, status_message: faces_status(models.len()), ..v }
            },
        }
    }
}

impl HowdyBackendRust {
    /// Check whether the machine has a camera that Howdy can use.
    pub fn check_device(&mut self, probe: DeviceProbe)
        ensures
            final(self)@ == device_checked(old(self)@, probe),
    {
        if !probe.howdy_installed {
            self.device_supported = false;
            self.status_message = String::from_str("Howdy is not installed");
            return;
        }
        if !probe.video_devices {
            self.device_supported = false;
            self.status_message = String::from_str(
                "No video devices found (install v4l-utils for better detection)",
            );
            return;
        }
        let mut configured = false;
        let mut status = String::new();
        match &probe.config {
            Some(content) => {
                match configured_device(content.as_str()) {
                    Some(d) => {
                        if probe.configured_device_exists {
                            configured = true;
                            let dv = chars_of(d.as_str());
                            if contains_exec(&dv, "/by-path/") || contains_exec(&dv, "/by-id/") {
                                status = message("Device configured (stable path): ", d.as_str());
                            } else {
                                status = message("Device found: ", d.as_str());
                            }
                        }
                    },
                    None => {},
                }
                self.howdy_enabled = !is_howdy_disabled(content.as_str());
            },
            None => {},
        }
        if !configured {
            status = String::from_str(
                "Video device(s) found - run 'sudo howdy config' to set device_path",
            );
        }
        self.device_supported = true;
        self.status_message = status;
    }

    /// Reload the list of registered faces from what `howdy list` left.
    pub fn refresh_models(&mut self, howdy_installed: bool, listing: Option<CommandOutput>)
        ensures
            final(self)@ == models_refreshed(old(self)@, howdy_installed, listing),
    {
        if !howdy_installed {
            self.status_message = String::from_str("Howdy is not installed");
            return;
        }
        match listing {
            None => {
                self.status_message = String::from_str("Failed to list models");
            },
            Some(o) => {
                let (none, models) = parse_model_list(&o);
                if none {
                    self.face_models = Vec::new();
                    self.status_message = String::from_str("No faces registered");
                    assert(self@.face_models =~= Seq::<Seq<char>>::empty());
                } else {
                    let count = models.len();
                    self.face_models = models;
                    self.status_message = faces_status_exec(count);
                }
            },
        }
    }

    /// Show the cameras among the entries of `/dev` (their names), and
    /// whether the configuration already sets one (`config`: the text of the
    /// first Howdy configuration file that could be read).
    pub fn load_video_devices(&mut self, dev_entries: &Vec<String>, config: Option<String>)
        ensures
            sorted(final(self)@.video_devices),
            final(self)@.video_devices.to_multiset() == video_paths(
                dev_entries@.map_values(|s: String| s@),
            ).to_multiset(),
            final(self)@ == (BackendView {
                video_devices: final(self)@.video_devices,
                camera_configured: config matches Some(c) && configured_device_of(c@) is Some,
                ..old(self)@
            }),
    {
        self.video_devices = video_device_list(dev_entries);
        self.camera_configured = match config {
            Some(c) => configured_device(c.as_str()).is_some(),
            None => false,
        };
    }
}

/// How installing an edited file with elevated rights went: writing the
/// temporary copy failed (with the system's message), or the install
/// command ran or failed to start.
pub enum InstallOutcome {
    TempWriteFailed(String),
    Ran(CommandResult),
}

/// The status after installing the edited configuration for camera `device`.
pub open spec fn device_saved_status(device: Seq<char>, outcome: InstallOutcome) -> Seq<char> {
    match outcome {
        InstallOutcome::TempWriteFailed(e) => "Failed to write temp file: "@ + e@,
        InstallOutcome::Ran(r) => command_status(r, "Camera saved: "@ + device, "Failed to save: "@),
    }
}

/// A PAM stack as the front end read it: its text (from `/etc/pam.d/`, or
/// else from the distribution's default), missing in both places, or not
/// readable (with the system's message).
pub enum PamSource {
    Text(String),
    Missing,
    Unreadable(String),
}

/// The edit of a PAM stack to install.
pub struct PamEdit {
    /// Howdy was enabled in the stack before the edit.
    pub enabled_before: bool,
    /// The stack is the polkit one.
    pub polkit: bool,
    /// The new text of the stack.
    pub content: String,
}

/// The state after installing the toggled stack `path`, which had Howdy
/// enabled (`was`) or not before.
pub open spec fn pam_installed(v: BackendView, path: Seq<char>, was: bool, outcome: InstallOutcome) -> BackendView {
    match outcome {
        InstallOutcome::TempWriteFailed(e) => v.with_status("Failed to write temp file: "@ + e@),
        InstallOutcome::Ran(r) => if path == PAM_POLKIT@ {
            let st = command_status(
                r,
                if !was {
                    "Howdy enabled for polkit (camera sandbox configured)"@
                } else {
                    "Howdy disabled for polkit"@
                },
                "Failed to configure polkit: "@,
            );
            if r matches Ok(o) && o.success {
                BackendView { pam_polkit: !was, status_message: st, ..v }
            } else {
                v.with_status(st)
            }
        } else {
            let name = after_last(path, '/');
            let st = command_status(
                r,
                if !was {
                    "Howdy enabled in "@ + name
                } else {
                    "Howdy disabled in "@ + name
                },
                "Failed to update PAM: "@,
            );
            if r matches Ok(o) && o.success {
                match stack_at(path) {
                    Some(stack) => v.with_stack_flag(stack, !was).with_status(st),
                    None => v.with_status(st),
                }
            } else {
                v.with_status(st)
            }
        },
    }
}

/// Whether a read PAM stack has Howdy enabled; an unreadable one has not.
pub open spec fn stack_enabled(content: Option<String>) -> bool {
    content matches Some(c) && howdy_active(c@)
}

fn stack_enabled_exec(content: &Option<String>) -> (r: bool)
    ensures
        r == stack_enabled(*content),
{
    match content {
        Some(c) => pam_howdy_active(c.as_str()),
        None => false,
    }
}

impl HowdyBackendRust {
    /// Set the camera in the Howdy configuration, first step: returns whether
    /// a camera is selected, so that the configuration is to be read;
    /// otherwise the status says that none is.
    pub fn save_device_path(&mut self, device: &str) -> (go: bool)
        ensures
            go == (device@.len() > 0),
            go ==> final(self)@ == old(self)@,
            !go ==> final(self)@ == old(self)@.with_status("No device selected"@),
    {
        if chars_of(device).len() == 0 {
            self.status_message = String::from_str("No device selected");
            return false;
        }
        true
    }

    /// Set the camera in the Howdy configuration, second step: `config` is
    /// the text of the first configuration file that exists and could be
    /// read. Returns the new text to install there, or `None` with the status
    /// saying that there is no configuration.
    pub fn device_config_read(&mut self, device: &str, config: Option<String>) -> (r: Option<String>)
        ensures
            config is None ==> r is None && final(self)@ == old(self)@.with_status(
                "Howdy config not found"@,
            ),
            config is Some ==> final(self)@ == old(self)@ && (r matches Some(t) && t@ == with_device(
                config->0@,
                device@,
            )),
    {
        match config {
            Some(c) => Some(update_device_path(c.as_str(), device)),
            None => {
                self.status_message = String::from_str("Howdy config not found");
                None
            },
        }
    }

    /// Show how installing the configuration for camera `device` went.
    pub fn device_path_saved(&mut self, device: &str, outcome: InstallOutcome)
        ensures
            final(self)@ == old(self)@.with_status(device_saved_status(device@, outcome)),
    {
        match outcome {
            InstallOutcome::TempWriteFailed(e) => {
                self.status_message = message("Failed to write temp file: ", e.as_str());
            },
            InstallOutcome::Ran(r) => {
                let ok = message("Camera saved: ", device);
                self.status_message = command_status_exec(&r, ok.as_str(), "Failed to save: ");
            },
        }
    }

    /// Show, for each PAM stack, whether Howdy is enabled in it, from their
    /// texts (`None`: not readable).
    pub fn check_pam_status(
        &mut self,
        sddm: Option<String>,
        kde: Option<String>,
        sudo: Option<String>,
        system_login: Option<String>,
        plasma_lm: Option<String>,
        polkit: Option<String>,
    )
        ensures
            final(self)@ == (BackendView {
                pam_sddm: stack_enabled(sddm),
                pam_kde: stack_enabled(kde),
                pam_sudo: stack_enabled(sudo),
                pam_system_login: stack_enabled(system_login),
                pam_plasma_lm: stack_enabled(plasma_lm),
                pam_polkit: stack_enabled(polkit),
                ..old(self)@
            }),
    {
        self.pam_sddm = stack_enabled_exec(&sddm);
        self.pam_kde = stack_enabled_exec(&kde);
        self.pam_sudo = stack_enabled_exec(&sudo);
        self.pam_system_login = stack_enabled_exec(&system_login);
        self.pam_plasma_lm = stack_enabled_exec(&plasma_lm);
        self.pam_polkit = stack_enabled_exec(&polkit);
    }

    /// Toggle Howdy in the PAM stack `file_path`, as read: returns the edit
    /// to install, or `None` with the status saying why the stack could not
    /// be read.
    pub fn toggle_pam(&mut self, file_path: &str, source: PamSource) -> (r: Option<PamEdit>)
        ensures
            source matches PamSource::Text(c) ==> final(self)@ == old(self)@ && (r matches Some(e)
                && e.enabled_before == howdy_active(c@) && e.polkit == (file_path@ == PAM_POLKIT@)
                && e.content@ == toggled_pam(c@, file_path@ == PAM_POLKIT@)),
            source matches PamSource::Missing ==> r is None && final(self)@ == old(self)@.with_status(
                "No PAM config found for "@ + file_path@,
            ),
            source matches PamSource::Unreadable(e) ==> r is None && final(self)@
                == old(self)@.with_status("Cannot read "@ + file_path@ + ": "@ + e@),
    {
        match source {
            PamSource::Text(c) => {
                let polkit = crate::text::eq_exec(&chars_of(file_path), PAM_POLKIT);
                let (was, content) = toggle_pam_content(c.as_str(), polkit);
                Some(PamEdit { enabled_before: was, polkit, content })
            },
            PamSource::Missing => {
                self.status_message = message("No PAM config found for ", file_path);
                None
            },
            PamSource::Unreadable(e) => {
                let mut v = chars_of("Cannot read ");
                push_str(&mut v, file_path);
                push_str(&mut v, ": ");
                push_str(&mut v, e.as_str());
                self.status_message = string_of(&v);
                None
            },
        }
    }

    /// Show how installing the toggled stack `file_path` went, and on
    /// success flip its flag.
    pub fn pam_toggled(&mut self, file_path: &str, enabled_before: bool, outcome: InstallOutcome)
        ensures
            final(self)@ == pam_installed(old(self)@, file_path@, enabled_before, outcome),
    {
        match outcome {
            InstallOutcome::TempWriteFailed(e) => {
                self.status_message = message("Failed to write temp file: ", e.as_str());
            },
            InstallOutcome::Ran(r) => {
                if crate::text::eq_exec(&chars_of(file_path), PAM_POLKIT) {
                    self.polkit_installed(enabled_before, r);
                } else {
                    self.stack_installed(file_path, enabled_before, r);
                }
            },
        }
    }

    fn polkit_installed(&mut self, enabled_before: bool, r: CommandResult)
        ensures
            final(self)@ == pam_installed(
                old(self)@,
                PAM_POLKIT@,
                enabled_before,
                InstallOutcome::Ran(r),
            ),
    {
        let succeeded = match &r {
            Ok(o) => o.success,
            Err(_) => false,
        };
        let ok = if !enabled_before {
            "Howdy enabled for polkit (camera sandbox configured)"
        } else {
            "Howdy disabled for polkit"
        };
        self.status_message = command_status_exec(&r, ok, "Failed to configure polkit: ");
        if succeeded {
            self.pam_polkit = !enabled_before;
        }
    }

    fn stack_installed(&mut self, file_path: &str, enabled_before: bool, r: CommandResult)
        requires
            file_path@ != PAM_POLKIT@,
        ensures
            final(self)@ == pam_installed(
                old(self)@,
                file_path@,
                enabled_before,
                InstallOutcome::Ran(r),
            ),
    {
        let succeeded = match &r {
            Ok(o) => o.success,
            Err(_) => false,
        };
        let name = pam_file_name(file_path);
        let ok = if !enabled_before {
            message("Howdy enabled in ", name.as_str())
        } else {
            message("Howdy disabled in ", name.as_str())
        };
        let st = command_status_exec(&r, ok.as_str(), "Failed to update PAM: ");
        if succeeded {
            match stack_of(file_path) {
                Some(stack) => self.set_stack_flag(stack, !enabled_before),
                None => {},
            }
        }
        self.status_message = st;
    }

    fn set_stack_flag(&mut self, stack: PamStack, v: bool)
        ensures
            final(self)@ == old(self)@.with_stack_flag(stack, v),
    {
        match stack {
            PamStack::Sddm => {
                self.pam_sddm = v;
            },
            PamStack::Kde => {
                self.pam_kde = v;
            },
            PamStack::Sudo => {
                self.pam_sudo = v;
            },
            PamStack::SystemLogin => {
                self.pam_system_login = v;
            },
            PamStack::PlasmaLogin => {
                self.pam_plasma_lm = v;
            },
            PamStack::Polkit => {
                self.pam_polkit = v;
            },
        }
    }
}

/// Turning Howdy off and on again (both commands succeeding) gives back
/// the state it was in.
pub proof fn lemma_toggle_enabled_twice(v: BackendView, first: CommandOutput, second: CommandOutput)
    requires
        first.success,
        second.success,
    ensures
        toggled_enabled(toggled_enabled(v, Some(Ok(first))), Some(Ok(second))).howdy_enabled
            == v.howdy_enabled,
{
}

/// After a successful toggle of a PAM stack that the front end shows, the
/// flag shown for it is what reading the installed stack back gives: whether
/// the new text enables Howdy.
pub proof fn lemma_shown_flag_matches_stack(
    v: BackendView,
    stack: PamStack,
    content: Seq<char>,
    install: CommandOutput,
)
    requires
        install.success,
    ensures
        ({
            let path = stack_path(stack);
            let polkit = path == PAM_POLKIT@;
            pam_installed(v, path, howdy_active(content), InstallOutcome::Ran(Ok(install))).stack_flag(
                stack,
            ) == howdy_active(toggled_pam(content, polkit))
        }),
{
    let path = stack_path(stack);
    lemma_stack_at_path(stack);
    lemma_toggle_flips(content, path == PAM_POLKIT@);
}

} // verus!

verus! {

/// Once Howdy and a camera are found, a configuration that was read decides
/// whether Howdy is shown enabled, whatever camera it sets: enabled exactly
/// when no `disabled` setting turns it off. Otherwise the flag stays as it
/// was.
pub proof fn lemma_check_device_enabled_flag(v: BackendView, p: DeviceProbe)
    ensures
        p.howdy_installed && p.video_devices && p.config is Some ==> device_checked(v, p).howdy_enabled
            == !disabled_in(lines(p.config->0@)),
        !(p.howdy_installed && p.video_devices && p.config is Some) ==> device_checked(v, p).howdy_enabled
            == v.howdy_enabled,
{
}

/// A successful face recognition test shows the last line that the test
/// printed, or `Success` when it printed no line.
pub proof fn lemma_test_shows_last_line(o: CommandOutput)
    requires
        o.success,
    ensures
        lines(lossy_utf8(o.stdout@)).len() > 0 ==> test_status(Ok(o)) == "Test complete: "@ + lines(
            lossy_utf8(o.stdout@),
        )[lines(lossy_utf8(o.stdout@)).len() - 1],
        lines(lossy_utf8(o.stdout@)).len() == 0 ==> test_status(Ok(o)) == "Test complete: Success"@,
{
    reveal_strlit("Test complete: ");
    reveal_strlit("Success");
    reveal_strlit("Test complete: Success");
    assert("Test complete: "@ + "Success"@ =~= "Test complete: Success"@);
}

} // verus!
