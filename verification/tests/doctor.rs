//! What the doctor concludes.

use gaze::config::{
    AuthConfig, CameraConfig, Config, EnrollmentConfig, InferenceConfig, LivenessConfig, Reading,
    SecurityConfig, SecurityError, SecurityField, StorageConfig, Validation, DEFAULT_RGB_CAMERA,
};
use gaze::doctor::cameras::{detected_source_remedy, gstreamer_package_hint_for, CameraEntry};
use gaze::doctor::desktop::{
    extension_installed_in, extension_metadata_path, extension_schema_dir_in,
};
use gaze::doctor::greeter::{
    dconf_bool, extensions_include, profile_reads_system_db, report_gdm_camera_policy,
    semodule_lists, GdmCameraPolicy, GDM_SELINUX_MODULE,
};
use gaze::doctor::kde::{
    check_kde_confirmation_bypass, check_kde_lock_screen, check_kde_login_greeter,
};
use gaze::doctor::settings::config_findings;
use gaze::doctor::stack::shared_stack_hint_for;
use gaze::doctor::system::{
    dedup_by_target, installed_privileged_files, node_openable, ownership_is_unsafe, parse_daemon_credentials,
    DaemonCredentials, Group, PRIVILEGED_FILES,
};
use gaze::doctor::wallet::report_keyring_record;
use gaze::pam::{
    find_misplaced_retry_entry, find_pam_ordering_conflicts, pam_include_target,
    pam_line_has_grosshack, pam_line_has_reference, pam_line_is_retry, pam_line_module_paths,
    KDE_FACE_PAM_FILE, KDE_SMARTCARD_PAM_FILE,
};
use gaze::pam_stack::{
    gdm_face_stack_passes_the_token, hyprlock_selects_gaze, kde_lock_status,
    kde_login_stack_passes_the_token, slot_status, KdeLockStatus,
};
use gaze::report::{Check, Level, Report};

fn strings(items: &[&str]) -> Vec<String> {
    items.iter().map(|item| item.to_string()).collect()
}

fn entry(label: &str, target: &str) -> CameraEntry {
    CameraEntry {
        label: label.to_string(),
        target: target.to_string(),
    }
}

fn groups() -> Vec<Group> {
    vec![Group {
        name: "video".to_string(),
        gid: 44,
    }]
}

fn reading(value: f64) -> Reading {
    Reading {
        bits: value.to_bits(),
        shown: format!("{value}"),
    }
}

fn value_of(reading: &Reading) -> f64 {
    f64::from_bits(reading.bits)
}

fn default_config() -> Config {
    Config {
        security: SecurityConfig {
            level: "medium".to_string(),
            detector: "standard".to_string(),
            recognizer: "standard".to_string(),
            rgb_threshold: reading(0.4),
            ir_threshold: reading(0.4),
            hybrid_policy: "default".to_string(),
        },
        cameras: CameraConfig {
            rgb: DEFAULT_RGB_CAMERA.to_string(),
            ir: String::new(),
            emitter_enabled: false,
            parallel_capture: "never".to_string(),
            dark_luma_threshold: 20,
        },
        enrollment: EnrollmentConfig {
            max_templates: 2,
            min_face_size_ratio: reading(0.25),
        },
        liveness: LivenessConfig {
            enabled: true,
            threshold: reading(0.8),
            max_seconds: reading(2.0),
            max_frames: 30,
        },
        auth: AuthConfig {
            require_confirmation_lock_screen: false,
            require_confirmation_elevation: false,
            abort_if_ssh: true,
            abort_if_lid_closed: true,
            abort_before_first_resume: false,
            resume_grace_ms: 0,
            start_delay_ms: 0,
            start_delay_scope: "all".to_string(),
        },
        storage: StorageConfig {
            encrypt_templates: false,
            unlock_gnome_keyring: false,
            unlock_kwallet: false,
        },
        inference: InferenceConfig {
            execution_provider: "cpu".to_string(),
            device: "cpu".to_string(),
        },
    }
}

/// What the validation of a configuration says.
fn validation(config: &Config) -> Validation {
    let mut security = Vec::new();
    if config.security.level == "custom" {
        for (key, value) in [
            ("rgb_threshold", &config.security.rgb_threshold),
            ("ir_threshold", &config.security.ir_threshold),
        ] {
            if !(0.0..=1.0).contains(&value_of(value)) {
                security.push(SecurityError {
                    field: SecurityField::Threshold,
                    message: format!("security.{key} is out of range"),
                });
            }
        }
        if !["default", "or", "fallback_on_dark", "and"]
            .contains(&config.security.hybrid_policy.as_str())
        {
            security.push(SecurityError {
                field: SecurityField::HybridPolicy,
                message: "security.hybrid_policy is unknown".to_string(),
            });
        }
    }
    let ratio = value_of(&config.enrollment.min_face_size_ratio);
    Validation {
        security,
        enrollment: if (0.10..=0.75).contains(&ratio) {
            None
        } else {
            Some("enrollment.min_face_size_ratio is out of range".to_string())
        },
        cameras: if ["never", "auto", "always"].contains(&config.cameras.parallel_capture.as_str())
        {
            None
        } else {
            Some("cameras.parallel_capture is unknown".to_string())
        },
        inference: None,
        keyring: None,
    }
}

fn findings_of(config: &Config) -> Vec<Check> {
    config_findings(config, &validation(config), false)
}

#[test]
fn pam_include_targets_are_read_from_both_include_forms() {
    assert_eq!(
        pam_include_target("auth       include      system-auth"),
        Some("system-auth".to_string())
    );
    assert_eq!(
        pam_include_target("auth       substack     password-auth"),
        Some("password-auth".to_string())
    );
    assert_eq!(
        pam_include_target("@include common-auth"),
        Some("common-auth".to_string())
    );
    assert_eq!(
        pam_include_target("auth        sufficient    pam_gaze.so"),
        None
    );
    assert_eq!(pam_include_target("# auth include system-auth"), None);
    assert_eq!(pam_include_target(""), None);
}

#[test]
fn shared_stack_remedies_use_the_tool_that_owns_the_stack() {
    for (os_release, tool) in [
        ("ID=opensuse-tumbleweed\nID_LIKE=suse\n", "pam-config"),
        ("ID=fedora\n", "authselect"),
        ("ID=ubuntu\nID_LIKE=debian\n", "pam-auth-update"),
        ("ID=omarchy\nID_LIKE=arch\n", "/etc/pam.d/sudo"),
        ("ID=void\n", "/etc/pam.d/system-auth"),
    ] {
        let hint = shared_stack_hint_for(os_release);
        assert!(hint.contains(tool), "{hint:?} does not name {tool}");
    }
}

#[test]
fn gstreamer_plugin_remedies_use_distro_package_names() {
    for (os_release, packages) in [
        (
            "ID=omarchy\nID_LIKE=arch\n",
            [
                "gst-plugins-base",
                "gst-plugins-good",
                "gst-plugin-pipewire",
            ],
        ),
        (
            "ID=ubuntu\nID_LIKE=debian\n",
            [
                "gstreamer1.0-plugins-base",
                "gstreamer1.0-plugins-good",
                "gstreamer1.0-pipewire",
            ],
        ),
        (
            "ID=fedora\n",
            [
                "gstreamer1-plugins-base",
                "gstreamer1-plugins-good",
                "pipewire-gstreamer",
            ],
        ),
        (
            "ID=opensuse-tumbleweed\nID_LIKE=suse\n",
            [
                "gstreamer-plugins-base",
                "gstreamer-plugins-good",
                "gstreamer-plugin-pipewire",
            ],
        ),
    ] {
        let hint = gstreamer_package_hint_for(os_release);
        for package in packages {
            assert!(hint.contains(package), "{hint:?} does not name {package}");
        }
    }
}

#[test]
fn a_gdm_profile_without_the_system_db_is_detected() {
    let debian = "user-db:user\nsystem-db:gdm\nfile-db:/usr/share/gdm/greeter-dconf-defaults\n";
    assert!(profile_reads_system_db(debian, "gdm"));

    for broken in [
        "user-db:user\n",
        "",
        "system-db:distro\nfile-db:/usr/share/gdm/greeter-dconf-defaults\n",
        "system-db:gdmx\n",
        "#system-db:gdm\n",
    ] {
        assert!(
            !profile_reads_system_db(broken, "gdm"),
            "{broken:?} must not count as reading system-db:gdm"
        );
    }
}

#[test]
fn dconf_booleans_are_read_strictly() {
    assert_eq!(dconf_bool("true"), Some(true));
    assert_eq!(dconf_bool("false"), Some(false));
    for unset in ["", "@as []", "nothing to read", "True"] {
        assert_eq!(dconf_bool(unset), None, "{unset:?} is not a boolean");
    }
}

#[test]
fn a_greeter_extension_list_is_matched_exactly() {
    let uuid = "gaze@gundulabs.com";
    assert!(extensions_include("['gaze@gundulabs.com']", uuid));
    assert!(extensions_include(
        "['dash-to-dock@micxgx.gmail.com', 'gaze@gundulabs.com']",
        uuid
    ));
    assert!(!extensions_include("@as []", uuid));
    assert!(!extensions_include("['other@example.com']", uuid));
    assert!(
        !extensions_include("['gaze-clock-diag@gundulabs.com']", uuid),
        "a different extension sharing the domain must not match"
    );
}

#[test]
fn root_owned_and_unwritable_is_the_only_safe_ownership() {
    assert!(!ownership_is_unsafe(0, 0o644));
    assert!(!ownership_is_unsafe(0, 0o755));
    assert!(!ownership_is_unsafe(0, 0o600));
}

#[test]
fn group_or_world_writable_privileged_files_are_rejected() {
    assert!(ownership_is_unsafe(0, 0o664), "group-writable");
    assert!(ownership_is_unsafe(0, 0o666), "world-writable");
    assert!(ownership_is_unsafe(0, 0o646), "other-writable");
    assert!(ownership_is_unsafe(1000, 0o644), "not owned by root");
}

#[test]
fn the_privileged_file_list_covers_every_route_to_root() {
    for needle in [
        "systemd/system/gazed.service",
        "dbus-1/system.d/com.gundulabs.Gaze.conf",
        "polkit-1/actions/com.gundulabs.gaze.policy",
    ] {
        assert!(
            PRIVILEGED_FILES.iter().any(|path| path.contains(needle)),
            "{needle} is not checked"
        );
    }
}

#[test]
fn absent_privileged_files_are_not_reported() {
    let exists = |path: &str| path == "/usr/lib/systemd/system/gazed.service";
    let targets = PRIVILEGED_FILES
        .iter()
        .map(|path| exists(path).then_some(path.to_string()))
        .collect::<Vec<_>>();
    assert!(installed_privileged_files(&targets)
        .iter()
        .all(|path| exists(path)));
    assert_eq!(installed_privileged_files(&targets).len(), 1);
    assert!(installed_privileged_files(&vec![None; 5]).is_empty());
}

#[test]
fn two_spellings_of_one_directory_collapse_to_the_first() {
    let aliased = dedup_by_target(
        &strings(&["/usr/lib", "/usr/./lib", "/usr/lib/../lib"]),
        &strings(&["/usr/lib", "/usr/lib", "/usr/lib"]),
    );
    assert_eq!(aliased, strings(&["/usr/lib"]));
}

#[test]
fn paths_that_do_not_resolve_are_deduplicated_literally() {
    let absent = strings(&[
        "/gaze-doctor-absent-a",
        "/gaze-doctor-absent-b",
        "/gaze-doctor-absent-a",
    ]);
    let distinct = dedup_by_target(&absent, &absent);
    assert_eq!(
        distinct,
        strings(&["/gaze-doctor-absent-a", "/gaze-doctor-absent-b"])
    );
}

#[test]
fn a_loaded_selinux_module_is_matched_on_the_name_column() {
    let listing = "gaze-gdm-camera\t1.0\nzoneminder\t1.0\n";
    assert!(semodule_lists(listing, GDM_SELINUX_MODULE));
    assert!(!semodule_lists("zoneminder\t1.0\n", GDM_SELINUX_MODULE));
    assert!(
        !semodule_lists("gaze-gdm-camera-extra\t1.0\n", GDM_SELINUX_MODULE),
        "a longer module name sharing the prefix must not match"
    );
    assert!(
        !semodule_lists("something gaze-gdm-camera\n", GDM_SELINUX_MODULE),
        "only the first column names the module"
    );
}

#[test]
fn an_unreadable_module_store_is_never_reported_as_a_missing_policy() {
    let reported = |policy| {
        let mut report = Report::default();
        report_gdm_camera_policy(&mut report, &policy, true);
        let check = report
            .checks
            .into_iter()
            .find(|check| check.name == "GDM camera SELinux policy")
            .expect("the SELinux check always reports once it runs");
        (check.level, check.message, check.fix.unwrap_or_default())
    };

    let (level, _, _) = reported(GdmCameraPolicy::Loaded);
    assert_eq!(level, Level::Pass);

    let (level, _, _) = reported(GdmCameraPolicy::NotLoaded);
    assert_eq!(
        level,
        Level::Error,
        "a module store we read and found empty is a real failure"
    );

    let (level, message, fix) = reported(GdmCameraPolicy::NeedsRoot);
    assert_eq!(level, Level::Warning);
    assert!(
        message.contains("without root"),
        "an unprivileged run must say what it could not see: {message}"
    );
    assert!(
        !message.contains("is not loaded"),
        "an unchecked module must not be reported as absent: {message}"
    );
    assert!(
        fix.contains("sudo gaze doctor"),
        "the fix is to re-run as root, not to load the module: {fix}"
    );
    assert!(
        !fix.contains("semodule -i"),
        "loading a module that may already be there is not the remedy: {fix}"
    );

    let (level, _, _) = reported(GdmCameraPolicy::Unverifiable("broken".into()));
    assert_eq!(level, Level::Warning);
}

#[test]
fn keyring_enrollment_that_could_not_be_read_is_not_a_checkmark() {
    let reported = |state| {
        let mut report = Report::default();
        report_keyring_record(&mut report, "lambros", state);
        let check = report
            .checks
            .into_iter()
            .find(|check| check.name == "Keyring")
            .expect("the keyring record always reports");
        (check.level, check.message, check.fix.unwrap_or_default())
    };

    let (level, _, _) = reported(Some(true));
    assert_eq!(level, Level::Pass);

    let (level, _, _) = reported(Some(false));
    assert_eq!(level, Level::Warning);

    let (level, message, fix) = reported(None);
    assert_eq!(
        level,
        Level::Warning,
        "an unprivileged run never checked the record, so it cannot pass it"
    );
    assert!(
        message.contains("without root"),
        "say which half of the check ran: {message}"
    );
    assert!(fix.contains("sudo gaze doctor"), "{fix}");
}

#[test]
fn hyprlock_modern_pam_module_key_is_detected() {
    let contents = "auth {\n    pam {\n        module = hyprlock-gaze\n    }\n}\n";
    assert!(hyprlock_selects_gaze(contents));
}

#[test]
fn hyprlock_legacy_pam_module_key_is_detected() {
    let contents = "general {\n    pam_module = hyprlock-gaze-simultaneous\n}\n";
    assert!(hyprlock_selects_gaze(contents));
}

#[test]
fn hyprlock_without_gaze_is_not_detected() {
    let contents = "auth {\n    pam {\n        module = hyprlock\n    }\n}\n";
    assert!(!hyprlock_selects_gaze(contents));
}

#[test]
fn hyprlock_commented_out_module_is_not_detected() {
    let contents = "auth {\n    pam {\n        # module = hyprlock-gaze\n    }\n}\n";
    assert!(!hyprlock_selects_gaze(contents));
}

fn credentials(gids: &[u32], dac_override: bool) -> DaemonCredentials {
    DaemonCredentials {
        uid: 0,
        gids: gids.to_vec(),
        dac_override,
    }
}

#[test]
fn root_owned_tpm_node_is_openable_without_dac_override() {
    let creds = credentials(&[0], false);
    assert!(node_openable(0, 972, 0o660, &creds));
    assert!(!node_openable(0, 972, 0o060, &creds));
}

#[test]
fn tss_owned_tpm_node_needs_the_group_or_the_capability() {
    let tss_uid = 972;
    let tss_gid = 972;

    let bare_root = credentials(&[0], false);
    assert!(
        !node_openable(tss_uid, tss_gid, 0o660, &bare_root),
        "the reporter's Ubuntu node must read as unopenable"
    );

    assert!(node_openable(
        tss_uid,
        tss_gid,
        0o660,
        &credentials(&[0, tss_gid], false)
    ));
    assert!(node_openable(
        tss_uid,
        tss_gid,
        0o660,
        &credentials(&[0], true)
    ));
    assert!(node_openable(tss_uid, tss_gid, 0o666, &bare_root));
}

#[test]
fn group_access_does_not_rescue_an_owner_class_mismatch() {
    let creds = credentials(&[0, 972], false);
    assert!(!node_openable(0, 972, 0o060, &creds));
}

#[test]
fn daemon_credentials_come_from_the_effective_unit() {
    let parsed = parse_daemon_credentials("LoadState=loaded\nCapabilityBoundingSet=cap_dac_read_search cap_dac_override\nUser=\nSupplementaryGroups=video", &groups())
    .expect("a loaded root unit must be understood");
    assert_eq!(parsed.uid, 0);
    assert!(parsed.dac_override);
    assert!(parsed.gids.contains(&0));

    let capless = parse_daemon_credentials("LoadState=loaded\nCapabilityBoundingSet=cap_dac_read_search\nUser=\nSupplementaryGroups=video", &groups())
    .expect("a loaded root unit must be understood");
    assert!(!capless.dac_override);

    assert!(
        parse_daemon_credentials("LoadState=not-found\nUser=\nCapabilityBoundingSet=", &groups()).is_none(),
        "an uninstalled unit must not be judged"
    );
    assert!(
        parse_daemon_credentials("LoadState=loaded\nUser=gaze\nCapabilityBoundingSet=cap_dac_read_search", &groups()).is_none(),
        "a custom User= must not be judged"
    );
}

#[test]
fn slot_status_reads_the_auth_stack() {
    assert_eq!(
        slot_status(Some(
            "#%PAM-1.0\nauth        [success=done default=ignore]                pam_gaze.so"
        )),
        KdeLockStatus::Wired
    );
    assert_eq!(
        slot_status(Some(
            "auth required pam_fprintd.so\nauth sufficient pam_gaze.so"
        )),
        KdeLockStatus::Wired
    );
    assert_eq!(
        slot_status(Some("auth sufficient pam_gaze.so simultaneous")),
        KdeLockStatus::Grosshack
    );
    assert_eq!(
        slot_status(Some("auth sufficient pam_gaze_grosshack.so")),
        KdeLockStatus::Grosshack
    );
    assert_eq!(
        slot_status(Some(
            "auth required pam_fprintd.so\nauth required pam_deny.so"
        )),
        KdeLockStatus::NotWired
    );
    assert_eq!(
        slot_status(Some("# auth sufficient pam_gaze.so")),
        KdeLockStatus::NotWired
    );
    assert_eq!(
        slot_status(Some("session optional pam_gaze.so")),
        KdeLockStatus::NotWired
    );
    assert_eq!(slot_status(None), KdeLockStatus::NoService);

    // What gaze-kde-pam actually writes: `-` so a missing module is skipped.
    assert_eq!(
        slot_status(Some(
            "-auth       [success=done default=ignore]                pam_gaze.so"
        )),
        KdeLockStatus::Wired,
        "the reported state must match the line the helper installs"
    );
}

#[test]
fn either_biometric_slot_counts_as_wired() {
    let reader = Some("auth required pam_fprintd.so");
    let gaze = Some("auth [success=done default=ignore] pam_gaze.so");

    assert_eq!(
        kde_lock_status(gaze, reader),
        (KdeLockStatus::Wired, KDE_FACE_PAM_FILE)
    );
    assert_eq!(
        kde_lock_status(reader, gaze),
        (KdeLockStatus::Wired, KDE_SMARTCARD_PAM_FILE),
        "the smartcard slot is a first-class home for Gaze"
    );
    assert_eq!(
        kde_lock_status(reader, None),
        (KdeLockStatus::NotWired, KDE_FACE_PAM_FILE)
    );
    assert_eq!(
        kde_lock_status(None, None),
        (KdeLockStatus::NoService, KDE_FACE_PAM_FILE)
    );
    assert_eq!(
        kde_lock_status(Some("auth sufficient pam_gaze_grosshack.so"), reader),
        (KdeLockStatus::Grosshack, KDE_FACE_PAM_FILE),
        "a deadlocking module must be reported over a merely unwired slot"
    );
}

#[test]
fn kde_lock_screen_check_warns_unless_the_plain_module_is_wired() {
    let level = |fingerprint: Option<&str>, smartcard: Option<&str>| {
        let mut report = Report::default();
        check_kde_lock_screen(&mut report, fingerprint, smartcard);
        report
            .checks
            .iter()
            .find(|check| check.name == "KDE lock screen")
            .map(|check| check.level)
            .expect("the KDE lock screen check always reports")
    };

    assert_eq!(
        level(Some("auth sufficient pam_gaze.so"), None),
        Level::Pass
    );
    assert_eq!(
        level(
            Some("auth required pam_fprintd.so"),
            Some("auth sufficient pam_gaze.so")
        ),
        Level::Pass
    );
    assert_eq!(
        level(Some("auth sufficient pam_gaze.so simultaneous"), None),
        Level::Warning
    );
    assert_eq!(
        level(Some("auth sufficient pam_gaze_grosshack.so"), None),
        Level::Warning
    );
    assert_eq!(
        level(Some("auth required pam_fprintd.so"), None),
        Level::Warning
    );
    assert_eq!(level(None, None), Level::Warning);
}

#[test]
fn kde_confirmation_bypass_is_reported_when_the_toggle_is_on_and_a_slot_is_wired() {
    let check = |confirmation: bool,
                 fingerprint: Option<&str>,
                 smartcard: Option<&str>,
                 face: Option<&str>| {
        let mut config = default_config();
        config.auth.require_confirmation_lock_screen = confirmation;
        let mut report = Report::default();
        check_kde_confirmation_bypass(&mut report, Some(&config), fingerprint, smartcard, face);
        report
            .checks
            .iter()
            .find(|check| check.name == "KDE confirmation")
            .map(|check| (check.level, check.message.clone()))
    };

    // Off means nothing to say, even when a slot is wired.
    assert!(check(false, Some("auth sufficient pam_gaze.so"), None, None).is_none());
    // On with nothing wired means nothing is bypassed.
    assert!(check(true, None, None, None).is_none());
    assert!(check(true, Some("auth required pam_fprintd.so"), None, None).is_none());

    let (level, message) = check(true, Some("auth sufficient pam_gaze.so"), None, None)
        .expect("a wired slot with confirmation on must warn");
    assert_eq!(level, Level::Warning);
    assert!(message.contains("kde-fingerprint"), "{message}");
    assert!(
        message.contains("require_confirmation_lock_screen"),
        "{message}"
    );

    let (_, message) = check(
        true,
        None,
        Some("auth sufficient pam_gaze.so"),
        Some("auth sufficient pam_gaze.so"),
    )
    .expect("both smartcard and greeter slots must warn");
    assert!(message.contains("kde-smartcard"), "{message}");
    assert!(message.contains("plasmalogin-fingerprint"), "{message}");
}

#[test]
fn login_greeter_check_only_complains_about_an_unused_slot() {
    let level = |contents: Option<&str>| {
        let mut report = Report::default();
        check_kde_login_greeter(&mut report, contents);
        report
            .checks
            .iter()
            .find(|check| check.name == "KDE login greeter")
            .map(|check| check.level)
            .expect("the KDE login greeter check always reports")
    };

    // Nothing to wire is the normal state today, not a problem to fix.
    assert_eq!(level(None), Level::Pass);
    assert_eq!(level(Some("auth sufficient pam_gaze.so")), Level::Pass);
    assert_eq!(level(Some("auth required pam_fprintd.so")), Level::Warning);
}

#[test]
fn extension_installed_needs_the_metadata_file() {
    assert!(extension_metadata_path("/usr/share")
        .ends_with("gnome-shell/extensions/gaze@gundulabs.com/metadata.json"));
    assert!(
        !extension_installed_in(&vec![false]),
        "a leftover directory is not an installed extension"
    );
    assert!(extension_installed_in(&vec![true]));
}

#[test]
fn a_feature_switched_off_is_not_a_checkmark_and_still_says_how_to_turn_it_on() {
    let mut report = Report::default();
    report.off("GDM login face auth", "off", "Turn it on: flip the switch.");

    let check = &report.checks[0];
    assert_eq!(check.level, Level::Off);
    assert_ne!(
        check.level,
        Level::Pass,
        "an off feature must not render as a passing check"
    );
    assert!(
        check.fix.is_some(),
        "an off feature always carries the steps that turn it on"
    );
    assert!(
        report.is_healthy(),
        "switching a feature off is a choice, not a failure"
    );
}

#[test]
fn extension_schema_dir_finds_a_compiled_schema_in_the_extension() {
    let dirs = strings(&["/usr/share", "/nix/share"]);
    assert_eq!(
        extension_schema_dir_in(&dirs, &vec![false, false]),
        None,
        "an extension directory without a compiled schema must not be used"
    );
    assert_eq!(
        extension_schema_dir_in(&dirs, &vec![false, true]),
        Some("/nix/share/gnome-shell/extensions/gaze@gundulabs.com/schemas".to_string())
    );
}

#[test]
fn pam_line_module_paths_collects_absolute_module_paths() {
    assert_eq!(
        pam_line_module_paths(
            "auth       [success=done default=bad]   /nix/store/abc-gaze-0.2.7/lib/security/pam_gaze.so"
        ),
        vec![String::from(
            "/nix/store/abc-gaze-0.2.7/lib/security/pam_gaze.so"
        )]
    );
    assert_eq!(
        pam_line_module_paths(
            "auth sufficient /nix/store/abc-gaze/lib/security/pam_gaze.so simultaneous"
        ),
        vec![String::from(
            "/nix/store/abc-gaze/lib/security/pam_gaze.so"
        )]
    );
    assert_eq!(
        pam_line_module_paths(
            "auth sufficient /nix/store/abc-gaze/lib/security/pam_gaze_grosshack.so"
        ),
        vec![String::from(
            "/nix/store/abc-gaze/lib/security/pam_gaze_grosshack.so"
        )]
    );

    assert!(
        pam_line_module_paths("auth sufficient pam_gaze.so").is_empty(),
        "a bare module name resolves through the search directories instead"
    );
    assert!(
        pam_line_module_paths("# auth sufficient /nix/store/abc/lib/security/pam_gaze.so")
            .is_empty(),
        "commented lines are not part of the stack"
    );
    assert!(
        pam_line_module_paths("auth sufficient /usr/lib64/security/pam_fprintd.so").is_empty()
    );
}

#[test]
fn camera_remedy_lists_detected_sources() {
    let cameras = vec![
        entry("Primary camera", DEFAULT_RGB_CAMERA),
        entry("Integrated Camera", "pipewiresrc target-object=v4l2_input.pci-0000_00_14_0"),
    ];

    let remedy = detected_source_remedy(
        &cameras,
        "cameras.rgb",
        Some(DEFAULT_RGB_CAMERA),
    );
    assert!(remedy.contains("cameras.rgb"), "{remedy}");
    assert!(
        remedy.contains("\"pipewiresrc target-object=v4l2_input.pci-0000_00_14_0\""),
        "the detected source must be quoted verbatim for copy-paste: {remedy}"
    );
    assert!(
        !remedy.contains("\"primary\""),
        "the primary pseudo-source is not a selectable node: {remedy}"
    );
}

#[test]
fn camera_remedy_only_offers_primary_where_it_is_valid() {
    let none_detected = vec![entry("Primary camera", DEFAULT_RGB_CAMERA)];

    let rgb = detected_source_remedy(
        &none_detected,
        "cameras.rgb",
        Some(DEFAULT_RGB_CAMERA),
    );
    assert!(rgb.contains("cameras.rgb"), "{rgb}");
    assert!(rgb.contains("\"primary\""), "{rgb}");

    let ir = detected_source_remedy(&Vec::new(), "cameras.ir", None);
    assert!(ir.contains("cameras.ir"), "{ir}");
    assert!(
        !ir.contains("primary"),
        "cameras.ir has no primary fallback: {ir}"
    );
}

#[test]
fn valid_default_config_has_no_errors() {
    let findings = findings_of(&default_config());
    assert!(!findings.iter().any(|check| check.level == Level::Error));
}

#[test]
fn config_checks_invalid_thresholds_and_camera_sources() {
    let mut config = default_config();
    config.security.level = "custom".to_string();
    config.security.detector = "standard".to_string();
    config.security.recognizer = "standard".to_string();
    config.security.rgb_threshold = reading(1.5);
    config.security.ir_threshold = reading(-0.1);
    config.security.hybrid_policy = "sometimes".to_string();
    config.cameras.rgb = "/dev/videoX".to_string();
    config.enrollment.min_face_size_ratio = reading(0.05);
    config.liveness.threshold = reading(f64::NAN);
    config.liveness.max_seconds = reading(0.0);

    let findings = findings_of(&config);
    let messages = findings
        .iter()
        .map(|check| check.message.as_str())
        .collect::<Vec<_>>();
    assert!(
        messages
            .iter()
            .any(|message| message.contains("security.rgb_threshold"))
    );
    assert!(
        messages
            .iter()
            .any(|message| message.contains("security.ir_threshold"))
    );
    assert!(
        messages
            .iter()
            .any(|message| message.contains("hybrid_policy"))
    );
    assert!(
        messages
            .iter()
            .any(|message| message.contains("invalid RGB camera node"))
    );
    assert!(
        messages
            .iter()
            .any(|message| message.contains("enrollment.min_face_size_ratio"))
    );
    assert!(
        messages
            .iter()
            .any(|message| message.contains("liveness.threshold"))
    );
    assert!(
        messages
            .iter()
            .any(|message| message.contains("max_seconds"))
    );
}

#[test]
fn config_checks_the_parallel_capture_mode() {
    let mut config = default_config();
    config.cameras.parallel_capture = "sometimes".to_string();
    assert!(
        findings_of(&config)
            .iter()
            .any(|check| check.level == Level::Error
                && check.message.contains("cameras.parallel_capture"))
    );

    let mut forced = default_config();
    forced.cameras.ir = "/dev/video2".to_string();
    forced.cameras.parallel_capture = "always".to_string();
    assert!(findings_of(&forced).iter().any(
        |check| check.level == Level::Warning && check.message.contains("parallel_capture")
    ));

    let mut detected = default_config();
    detected.cameras.ir = "/dev/video2".to_string();
    detected.cameras.parallel_capture = "auto".to_string();
    assert!(
        !findings_of(&detected)
            .iter()
            .any(|check| check.message.contains("parallel_capture"))
    );
}

#[test]
fn every_invalid_security_field_is_reported_exactly_once() {
    let mut config = default_config();
    config.security.level = "custom".to_string();
    config.security.detector = "standard".to_string();
    config.security.recognizer = "standard".to_string();
    config.security.rgb_threshold = reading(1.5);
    config.security.ir_threshold = reading(-0.1);
    config.security.hybrid_policy = "sometimes".to_string();

    let findings = findings_of(&config);
    let count = |needle: &str| {
        findings
            .iter()
            .filter(|check| check.message.contains(needle))
            .count()
    };
    assert_eq!(count("security.rgb_threshold"), 1);
    assert_eq!(count("security.ir_threshold"), 1);
    assert_eq!(count("security.hybrid_policy"), 1);
}

#[test]
fn invalid_security_fields_get_their_own_fix() {
    let mut config = default_config();
    config.security.level = "custom".to_string();
    config.security.detector = "standard".to_string();
    config.security.recognizer = "standard".to_string();
    config.security.rgb_threshold = reading(1.5);
    config.security.hybrid_policy = "sometimes".to_string();

    let fix_for = |needle: &str| {
        findings_of(&config)
            .into_iter()
            .find(|check| check.message.contains(needle))
            .and_then(|check| check.fix)
            .unwrap_or_default()
    };
    assert!(fix_for("security.rgb_threshold").contains("custom RGB and IR thresholds"));
    assert!(fix_for("security.hybrid_policy").contains("fallback_on_dark"));
}

#[test]
fn pam_reference_parser_ignores_comments_and_accepts_absolute_paths() {
    assert!(!pam_line_has_reference("# auth sufficient pam_gaze.so"));
    assert!(!pam_line_has_reference("auth include system-auth"));
    assert!(pam_line_has_reference("auth sufficient pam_gaze.so"));
    assert!(pam_line_has_reference(
        "auth sufficient /usr/lib/security/pam_gaze.so simultaneous"
    ));
    assert!(pam_line_has_reference(
        "auth sufficient /usr/lib/security/pam_gaze_grosshack.so debug"
    ));
    assert!(pam_line_has_reference(
        "auth sufficient /usr/lib/security/pam_gaze.so debug"
    ));
    assert!(!pam_line_has_reference(
        "auth sufficient pam_gaze.so.disabled"
    ));
}

#[test]
fn pam_ordering_flags_modules_stacked_before_gaze() {
    let stacked_behind = "auth [success=3 default=ignore] pam_fprintd.so\n\
         auth [success=2 default=ignore] pam_unix.so\n\
         auth [success=1 default=ignore] pam_gaze.so\n";
    assert_eq!(
        find_pam_ordering_conflicts(stacked_behind),
        vec!["pam_unix.so", "pam_fprintd.so"]
    );

    let stacked_first = "auth sufficient pam_gaze.so\n\
         auth sufficient pam_unix.so try_first_pass nullok\n";
    assert!(find_pam_ordering_conflicts(stacked_first).is_empty());

    assert!(find_pam_ordering_conflicts("auth include system-auth\n").is_empty());
}

#[test]
fn a_module_that_may_be_missing_still_stands_before_gaze() {
    assert_eq!(
        find_pam_ordering_conflicts("-auth sufficient pam_fprintd.so\nauth sufficient pam_gaze.so\n"),
        vec!["pam_fprintd.so"]
    );
    assert!(find_pam_ordering_conflicts(
        "-auth sufficient pam_gaze.so\n-auth sufficient pam_fprintd.so\n"
    )
    .is_empty());
    assert!(find_pam_ordering_conflicts(
        "-account sufficient pam_fprintd.so\nauth sufficient pam_gaze.so\n"
    )
    .is_empty());
}

#[test]
fn a_retry_entry_is_not_a_stalled_first_pass() {
    let retry_stack = "auth sufficient pam_gaze.so simultaneous\n\
         auth sufficient pam_unix.so try_first_pass nullok\n\
         auth sufficient pam_gaze.so retry\n";
    assert!(find_pam_ordering_conflicts(retry_stack).is_empty());
    assert!(!find_misplaced_retry_entry(retry_stack));
}

#[test]
fn a_lone_retry_entry_below_the_password_is_not_flagged_as_stalled() {
    let lone_retry = "auth sufficient pam_unix.so try_first_pass nullok\n\
         auth sufficient pam_gaze.so retry\n";
    assert!(find_pam_ordering_conflicts(lone_retry).is_empty());
    assert!(!find_misplaced_retry_entry(lone_retry));
}

#[test]
fn a_retry_entry_above_the_password_is_unreachable() {
    let misplaced = "auth sufficient pam_gaze.so retry\n\
         auth sufficient pam_unix.so try_first_pass nullok\n";
    assert!(find_misplaced_retry_entry(misplaced));
}

#[test]
fn a_stack_without_a_retry_entry_reports_nothing() {
    assert!(!find_misplaced_retry_entry(
        "auth sufficient pam_gaze.so\nauth sufficient pam_unix.so\n"
    ));
}

#[test]
fn a_fingerprint_module_does_not_count_as_the_password_module() {
    let fprintd_only = "auth sufficient pam_fprintd.so\n\
         auth sufficient pam_gaze.so retry\n\
         auth sufficient pam_unix.so try_first_pass nullok\n";
    assert!(find_misplaced_retry_entry(fprintd_only));
}

#[test]
fn retry_is_only_a_mode_token_on_a_gaze_line() {
    assert!(pam_line_is_retry("auth sufficient pam_gaze.so retry"));
    assert!(!pam_line_is_retry("auth sufficient pam_gaze.so"));
    assert!(!pam_line_is_retry("auth sufficient pam_unix.so retry"));
}

#[test]
fn report_health_depends_on_errors_not_warnings() {
    let mut report = Report::default();
    report.pass("test", "ok");
    report.warning("test", "advisory", "fix");
    assert!(report.is_healthy());
    report.error("test", "broken", "fix");
    assert!(!report.is_healthy());
}

#[test]
fn deprecated_pam_line_detects_grosshack() {
    let has_grosshack = pam_line_has_grosshack;

    assert!(has_grosshack("auth sufficient pam_gaze_grosshack.so"));
    assert!(has_grosshack(
        "auth sufficient /lib/security/pam_gaze_grosshack.so"
    ));
    assert!(!has_grosshack("# auth sufficient pam_gaze_grosshack.so"));
    assert!(!has_grosshack("auth sufficient pam_gaze.so simultaneous"));
}

#[test]
fn kwallet_diagnostics_reject_bypassed_or_unsafe_handoffs() {
    let valid = "-auth [success=1 default=ignore] pam_gaze.so kde-login\n\
        -auth [success=2 default=ignore] pam_permit.so\n\
        -auth optional pam_kwallet5.so\n\
        -auth [success=done default=ignore] pam_permit.so\n\
        -session optional pam_kwallet5.so auto_start\n";
    assert!(kde_login_stack_passes_the_token(valid));
    assert!(kde_login_stack_passes_the_token(&valid.replacen(
        "default=ignore",
        "default=die",
        1
    )));
    for invalid in [
        valid.replace("success=1", "success=done"),
        valid.replace("success=2", "success=1"),
        valid.replace("kde-login", "simultaneous"),
        valid.replace("-auth optional pam_kwallet5.so\n", ""),
        valid.replace("-session optional pam_kwallet5.so auto_start\n", ""),
    ] {
        assert!(!kde_login_stack_passes_the_token(&invalid));
    }
}

#[test]
fn incomplete_or_misordered_keyring_stacks_are_not_reported_healthy() {
    let valid = "auth [success=1 default=ignore] /usr/lib/security/pam_gaze.so\n\
        auth requisite pam_deny.so\n\
        auth optional pam_gnome_keyring.so use_authtok\n\
        session optional pam_gnome_keyring.so auto_start\n";
    assert!(gdm_face_stack_passes_the_token(valid));
    for broken in [
        valid.replace(
            "auth [success=1 default=ignore] /usr/lib/security/pam_gaze.so\n",
            "",
        ),
        valid.replace("[success=1 default=ignore]", "sufficient"),
        valid.replace("pam_gaze.so", "pam_gaze.so simultaneous"),
        valid.replace("requisite pam_deny.so", "optional pam_deny.so"),
        valid.replace("auth requisite", "@include common-auth\nauth requisite"),
        valid.replace("use_authtok", "not_use_authtok"),
        valid.replace("use_authtok", "use_authtok only_if=login"),
        valid.replace("session optional pam_gnome_keyring.so auto_start\n", ""),
        valid.replace("session optional", "# session optional"),
        valid.replace("auto_start", "auto_start only_if=login"),
        format!(
            "auth optional pam_gnome_keyring.so use_authtok\n{}",
            valid.replace("auth optional pam_gnome_keyring.so use_authtok\n", "")
        ),
    ] {
        assert!(!gdm_face_stack_passes_the_token(&broken), "{broken}");
    }
}

#[test]
fn an_upgrade_preserved_gdm_face_stack_is_detected_as_stale() {
    let stale = "auth required pam_env.so\n\
         auth [success=done ignore=ignore default=bad] pam_gaze.so\n\
         auth optional pam_gnome_keyring.so only_if=login auto_start\n\
         auth required pam_deny.so\n";
    assert!(!gdm_face_stack_passes_the_token(stale));

    let no_keyring_module = "auth required pam_env.so\n\
         auth [success=1 default=ignore] pam_gaze.so\n\
         auth requisite pam_deny.so\n";
    assert!(!gdm_face_stack_passes_the_token(no_keyring_module));

    let commented_out = "auth [success=1 default=ignore] pam_gaze.so\n\
         auth requisite pam_deny.so\n\
         # auth optional pam_gnome_keyring.so use_authtok\n";
    assert!(
        !gdm_face_stack_passes_the_token(commented_out),
        "a commented-out keyring line must not count"
    );
}
