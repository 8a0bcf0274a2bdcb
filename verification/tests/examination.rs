//! Whole examinations of machines.

use gaze::config::{
    AuthConfig, CameraConfig, Config, EnrollmentConfig, InferenceConfig, LivenessConfig, Reading,
    SecurityConfig, StorageConfig, Validation,
};
use gaze::doctor::cameras::{CameraEntry, CameraFacts, NodeState};
use gaze::doctor::daemon::{
    config_attempt, name_attempt, ready_wait_ms, remaining_ms, Answers, Attempt,
    AvailabilityReply, BenchmarkReply, BenchmarkResult, ConfigReply, FaceCoverage, FacesReply,
    Reach, Surroundings,
};
use gaze::doctor::desktop::{desktop_from_processes, desktop_name, owning_uid, xdg_data_dirs};
use gaze::doctor::examination::{run, Facts};
use gaze::doctor::greeter::{
    dconf_value, gdm_camera_policy, gdm_config_candidates, gdm_face_auth_from_dconf,
    gdm_greeter_dconf_read, gdm_greeter_dconf_source, gdm_greeter_readiness, selinux_is_enforcing,
    GdmCameraPolicy, GdmGreeterReadiness, GreeterFacts,
};
use gaze::doctor::integration::{hyprlock_path, is_gnome, GnomeFacts, KdeFacts};
use gaze::doctor::settings::{Loading, Ownership};
use gaze::doctor::stack::{pam_module_candidates, pam_search_dirs, PamFile};
use gaze::doctor::system::{
    answer_text, command_answer, unit_groups, CommandRun, DaemonCredentials, NodeFacts, OwnedPath,
    TpmNode,
};
use gaze::doctor::wallet::{keyring_record_state, wallet_module_path};
use gaze::pam::{pam_service_reaches_gaze, vendor_service_path, Service};
use gaze::paths::sorted_paths;
use gaze::report::{Level, Report};

fn ended(success: bool, stdout: &str, stderr: &str) -> CommandRun {
    CommandRun::Ended {
        success,
        stdout: stdout.to_string(),
        stderr: stderr.to_string(),
    }
}

#[test]
fn an_unset_key_is_empty_whatever_dconf_complains_of() {
    let warned = ended(true, "", "(process:1): dconf-WARNING **: unable to open file\n");
    assert_eq!(dconf_value(&warned), Some(String::new()));
    assert_eq!(dconf_value(&ended(false, "", "unable to open file\n")), None);
}

fn number(value: f64) -> Reading {
    Reading {
        bits: value.to_bits(),
        shown: format!("{value}"),
    }
}

fn sound_config() -> Config {
    Config {
        security: SecurityConfig {
            level: "medium".to_string(),
            detector: "standard".to_string(),
            recognizer: "standard".to_string(),
            rgb_threshold: number(0.4),
            ir_threshold: number(0.4),
            hybrid_policy: "default".to_string(),
        },
        cameras: CameraConfig {
            rgb: "primary".to_string(),
            ir: String::new(),
            emitter_enabled: false,
            parallel_capture: "never".to_string(),
            dark_luma_threshold: 20,
        },
        enrollment: EnrollmentConfig {
            max_templates: 2,
            min_face_size_ratio: number(0.25),
        },
        liveness: LivenessConfig {
            enabled: true,
            threshold: number(0.8),
            max_seconds: number(2.0),
            max_frames: 30,
        },
        auth: AuthConfig {
            require_confirmation_lock_screen: false,
            require_confirmation_elevation: false,
            abort_if_ssh: true,
            abort_if_lid_closed: true,
            abort_before_first_resume: false,
            resume_grace_ms: 0,
            start_delay_ms: 0,
            start_delay_scope: "all".to_string(),
        },
        storage: StorageConfig {
            encrypt_templates: true,
            unlock_gnome_keyring: false,
            unlock_kwallet: false,
        },
        inference: InferenceConfig {
            execution_provider: "cpu".to_string(),
            device: "cpu".to_string(),
        },
    }
}

fn nothing_said() -> Validation {
    Validation {
        security: Vec::new(),
        enrollment: None,
        cameras: None,
        inference: None,
        keyring: None,
    }
}

fn owned(path: &str, uid: u32, mode: u32) -> OwnedPath {
    OwnedPath {
        path: path.to_string(),
        facts: Some(Ownership { uid, mode }),
    }
}

fn pam_file(path: &str, contents: &str) -> PamFile {
    PamFile {
        path: path.to_string(),
        contents: contents.to_string(),
        facts: Some(Ownership {
            uid: 0,
            mode: 0o100644,
        }),
    }
}

fn service(name: &str, contents: &str) -> Service {
    Service {
        name: name.to_string(),
        contents: contents.to_string(),
    }
}

fn camera_entry(label: &str, target: &str) -> CameraEntry {
    CameraEntry {
        label: label.to_string(),
        target: target.to_string(),
    }
}

const STACK: &str = "auth sufficient pam_gaze.so\nauth required pam_unix.so\n";

/// A machine on which everything works.
fn sound_machine() -> Facts {
    Facts {
        os: "linux".to_string(),
        arch: "x86_64".to_string(),
        x86: true,
        avx2: true,
        systemd_running: true,
        active: Ok((true, "active".to_string())),
        enabled: Ok((true, "enabled".to_string())),
        config_exists: true,
        ownership: Ok(Ownership {
            uid: 0,
            mode: 0o100644,
        }),
        loading: Loading::Parsed {
            unknown: Vec::new(),
        },
        config: Some(sound_config()),
        said: nothing_said(),
        modules: vec![owned("/usr/lib/security/pam_gaze.so", 0, 0o100755)],
        pam_files: vec![pam_file("/etc/pam.d/common-auth", STACK)],
        services: vec![
            service("common-auth", STACK),
            service("sudo", "@include common-auth\n"),
            service("polkit-1", "auth include common-auth\n"),
        ],
        opted_out: false,
        os_release: "ID=debian".to_string(),
        privileged: vec![owned("/usr/lib/systemd/system/gazed.service", 0, 0o100644)],
        desktop: String::new(),
        gnome: GnomeFacts {
            enabled_extensions: Ok((true, "gaze@gundulabs.com".to_string())),
            installed: true,
            setting: Ok((true, "true".to_string())),
            override_exists: true,
            dconf_face_auth: Some(true),
            readiness: GdmGreeterReadiness::Ready,
            selinux_enforcing: false,
            camera_policy: GdmCameraPolicy::NeedsRoot,
            policy_file: true,
        },
        hyprlock: None,
        plasma: KdeFacts {
            fingerprint: None,
            smartcard: None,
            plasmalogin_face: None,
        },
        gdm_face: None,
        gnome_record: None,
        wallet_module: true,
        wallet_record: None,
        service_state: "active".to_string(),
        reach: Reach::OnBus(sound_answers()),
        around: Surroundings {
            openvino: false,
            tpm_nodes: vec![TpmNode {
                path: "/dev/tpmrm0".to_string(),
                facts: Some(NodeFacts {
                    uid: 0,
                    gid: 59,
                    mode: 0o20660,
                    user: "root".to_string(),
                    group: "tss".to_string(),
                }),
            }],
            credentials: Some(DaemonCredentials {
                uid: 0,
                gids: vec![0],
                dac_override: false,
            }),
            cameras: CameraFacts {
                missing_elements: Ok(Vec::new()),
                os_release: "ID=debian".to_string(),
                rgb_cameras: Ok(vec![
                    camera_entry("Primary Camera", "primary"),
                    camera_entry("Webcam", "pipewiresrc target-object=cam1"),
                ]),
                ir_cameras: Ok(Vec::new()),
                rgb_node: NodeState::Other,
                ir_node: NodeState::Other,
            },
        },
    }
}

fn sound_answers() -> Answers {
    Answers {
        config: ConfigReply::Loaded(sound_config(), nothing_said()),
        availability: AvailabilityReply::Available(true),
        faces: FacesReply::Listed(vec![FaceCoverage {
            has_rgb: true,
            has_ir: false,
        }]),
        benchmark: None,
    }
}

fn examined(facts: &Facts) -> Report {
    run("ada", facts)
}

/// The level, message and fix of the findings of a name.
fn of(report: &Report, name: &str) -> Vec<(Level, String, Option<String>)> {
    report
        .checks
        .iter()
        .filter(|check| check.name == name)
        .map(|check| (check.level, check.message.clone(), check.fix.clone()))
        .collect()
}

/// The only finding of a name.
fn one(facts: &Facts, name: &str) -> (Level, String, String) {
    let mut found = of(&examined(facts), name);
    assert_eq!(found.len(), 1, "{name}: {found:?}");
    let (level, message, fix) = found.remove(0);
    (level, message, fix.unwrap_or_default())
}

#[test]
fn a_sound_machine_has_nothing_to_mend() {
    let report = examined(&sound_machine());
    let names: Vec<&str> = report.checks.iter().map(|check| check.name).collect();
    assert_eq!(
        names,
        [
            "CPU",
            "Service",
            "Autostart",
            "Config permissions",
            "Configuration",
            "Config values",
            "PAM module",
            "PAM permissions",
            "PAM stack",
            "PAM stack permissions",
            "Elevation PAM",
            "Polkit PAM",
            "Service file permissions",
            "TPM",
            "Keyring",
            "KWallet",
            "DBus",
            "Daemon",
            "Camera session",
            "GStreamer plugins",
            "RGB camera",
            "Enrollment",
            "Enrollment coverage",
        ]
    );
    assert!(report.is_healthy());
    assert_eq!(report.count(Level::Off), 2);
    assert_eq!(report.count(Level::Pass), 21);
    assert_eq!(report.summary(), "21 passed, 2 off, 0 warnings, 0 errors");
}

#[test]
fn whatever_does_not_pass_says_what_to_do() {
    let mut facts = sound_machine();
    facts.avx2 = false;
    facts.systemd_running = false;
    facts.config_exists = false;
    facts.modules.clear();
    facts.pam_files.clear();
    facts.desktop = "gnome:kde:hyprland".to_string();
    facts.reach = Reach::NoBus("gone".to_string());
    let report = examined(&facts);
    assert!(!report.is_healthy());
    for check in &report.checks {
        assert_eq!(check.level == Level::Pass, check.fix.is_none(), "{}", check.name);
        assert_eq!(check.fix_lines().is_empty(), check.fix.is_none());
    }
}

#[test]
fn the_platform_must_be_linux_with_avx2() {
    let mut facts = sound_machine();
    facts.avx2 = false;
    assert_eq!(
        one(&facts, "CPU"),
        (
            Level::Error,
            gaze::cpu::UNSUPPORTED_CPU_MESSAGE.to_string(),
            gaze::cpu::UNSUPPORTED_CPU_FIX.to_string()
        )
    );
    facts.x86 = false;
    facts.arch = "aarch64".to_string();
    assert_eq!(
        one(&facts, "CPU").1,
        "aarch64 does not require the x86 AVX2 check"
    );
    facts.os = "freebsd".to_string();
    assert_eq!(
        one(&facts, "Platform"),
        (
            Level::Error,
            "freebsd is not supported".to_string(),
            "Run Gaze on Linux.".to_string()
        )
    );
}

#[test]
fn the_service_must_run_and_start_at_boot() {
    let mut facts = sound_machine();
    facts.active = Ok((false, "failed".to_string()));
    facts.enabled = Ok((false, "disabled".to_string()));
    assert_eq!(one(&facts, "Service").0, Level::Error);
    assert_eq!(one(&facts, "Service").1, "gazed is failed");
    assert_eq!(one(&facts, "Autostart").0, Level::Warning);
    assert_eq!(one(&facts, "Autostart").1, "gazed is disabled");
    facts.active = Err("no such file".to_string());
    facts.enabled = Err("no such file".to_string());
    assert_eq!(one(&facts, "Service").1, "could not query gazed: no such file");
    assert_eq!(
        one(&facts, "Autostart").1,
        "could not query gazed enablement: no such file"
    );
    facts.systemd_running = false;
    let report = examined(&facts);
    assert_eq!(of(&report, "systemd").len(), 1);
    assert!(of(&report, "Service").is_empty());
    assert!(of(&report, "Autostart").is_empty());
}

#[test]
fn the_configuration_file_must_be_roots_and_parse() {
    let mut facts = sound_machine();
    facts.ownership = Ok(Ownership {
        uid: 1000,
        mode: 0o100644,
    });
    assert_eq!(
        one(&facts, "Config ownership"),
        (
            Level::Error,
            "/etc/gaze/config.toml is owned by UID 1000".to_string(),
            "Run `sudo chown root:root /etc/gaze/config.toml`.".to_string()
        )
    );
    facts.ownership = Ok(Ownership {
        uid: 0,
        mode: 0o100664,
    });
    assert_eq!(
        one(&facts, "Config permissions").1,
        "/etc/gaze/config.toml has writable mode 664"
    );
    facts.ownership = Err("denied".to_string());
    assert_eq!(
        one(&facts, "Config permissions").1,
        "could not inspect /etc/gaze/config.toml: denied"
    );
    facts.loading = Loading::Parsed {
        unknown: vec!["auth.oops".to_string(), "extra".to_string()],
    };
    assert_eq!(
        one(&facts, "Configuration").1,
        "/etc/gaze/config.toml parses, but Gaze does not read: auth.oops, extra"
    );
    facts.loading = Loading::Failed("bad".to_string());
    assert_eq!(
        one(&facts, "Configuration").1,
        "could not load /etc/gaze/config.toml: bad"
    );
    facts.config_exists = false;
    assert_eq!(
        one(&facts, "Configuration").1,
        "/etc/gaze/config.toml does not exist"
    );
}

#[test]
fn without_a_readable_file_the_daemon_tells_the_values() {
    let mut facts = sound_machine();
    facts.loading = Loading::NotReadable;
    let report = examined(&facts);
    assert_eq!(of(&report, "Configuration")[0].0, Level::Pass);
    let names: Vec<&str> = report.checks.iter().map(|check| check.name).collect();
    let daemon = names.iter().position(|name| *name == "Daemon").unwrap();
    assert_eq!(names[daemon + 1..daemon + 3], ["Config values", "TPM"]);
    assert!(of(&report, "Keyring").is_empty());
    assert!(of(&report, "KWallet").is_empty());
    assert_eq!(of(&report, "RGB camera").len(), 1);
}

#[test]
fn pam_modules_must_be_installed_and_safe() {
    let mut facts = sound_machine();
    facts.modules = vec![
        owned("/usr/lib/security/pam_gaze_grosshack.so", 0, 0o100777),
        owned("/usr/lib64/security/pam_gaze.so", 1000, 0o100755),
    ];
    assert_eq!(
        one(&facts, "PAM permissions").1,
        "unsafe ownership or write permissions: /usr/lib/security/pam_gaze_grosshack.so, \
         /usr/lib64/security/pam_gaze.so"
    );
    assert_eq!(one(&facts, "PAM module").0, Level::Pass);
    facts.modules = vec![owned("/usr/lib/security/pam_gaze_grosshack.so", 0, 0o100755)];
    assert_eq!(one(&facts, "PAM module").0, Level::Error);
    assert_eq!(one(&facts, "PAM permissions").0, Level::Pass);
    facts.modules.clear();
    assert!(of(&examined(&facts), "PAM permissions").is_empty());
}

#[test]
fn pam_stacks_are_read_for_their_order() {
    let mut facts = sound_machine();
    facts.pam_files = vec![
        pam_file(
            "/etc/pam.d/common-auth",
            "auth required pam_unix.so\nauth sufficient pam_gaze.so\n",
        ),
        pam_file("/etc/pam.d/login", "auth sufficient pam_gaze_grosshack.so\n"),
        pam_file("/etc/pam.d/other", "auth required pam_deny.so\n"),
        pam_file(
            "/etc/pam.d/retry",
            "auth sufficient pam_gaze.so retry\nauth required pam_unix.so\n",
        ),
    ];
    facts.pam_files[1].facts = Some(Ownership {
        uid: 0,
        mode: 0o100666,
    });
    assert_eq!(
        one(&facts, "PAM stack").1,
        "Gaze is referenced by: common-auth, login, retry"
    );
    assert_eq!(
        one(&facts, "PAM stack permissions").1,
        "anyone in the owning group can make Gaze run their code: /etc/pam.d/login"
    );
    assert_eq!(
        one(&facts, "Deprecated PAM module").1,
        "pam_gaze_grosshack.so is referenced in: /etc/pam.d/login"
    );
    assert_eq!(
        one(&facts, "PAM ordering").1,
        "pam_gaze.so/pam_gaze_grosshack.so runs after pam_unix.so in /etc/pam.d/common-auth, so \
         face auth won't be tried until those prompts resolve"
    );
    assert_eq!(
        one(&facts, "PAM retry ordering").1,
        "pam_gaze.so retry runs before pam_unix.so in /etc/pam.d/retry, so it can never be \
         reached by a rejected password"
    );
    facts.pam_files = vec![pam_file("/etc/pam.d/other", "auth required pam_deny.so\n")];
    let report = examined(&facts);
    assert_eq!(of(&report, "PAM stack")[0].0, Level::Warning);
    assert!(of(&report, "Elevation PAM").is_empty());
}

#[test]
fn elevation_reaches_gaze_through_two_includes() {
    let deep = vec![
        service("sudo", "auth include one\n"),
        service("one", "auth substack two\n"),
        service("two", "auth include three\n"),
        service("three", STACK),
    ];
    assert!(!pam_service_reaches_gaze(&deep, "sudo", 2));
    assert!(pam_service_reaches_gaze(&deep, "sudo", 3));
    assert!(pam_service_reaches_gaze(&deep, "one", 2));
    assert!(!pam_service_reaches_gaze(&deep, "absent", 2));

    let mut facts = sound_machine();
    facts.services = deep;
    assert_eq!(one(&facts, "Elevation PAM").0, Level::Warning);
    assert!(of(&examined(&facts), "Polkit PAM").is_empty());
    facts.opted_out = true;
    let (level, _, fix) = one(&facts, "Elevation PAM");
    assert_eq!(level, Level::Off);
    assert!(fix.starts_with("Turn it back on: `sudo rm /etc/gaze/pam-sudo.optout`. "));
    facts.services = vec![service("polkit-1", "auth required pam_unix.so\n")];
    assert_eq!(one(&facts, "Polkit PAM").0, Level::Warning);
    assert!(of(&examined(&facts), "Elevation PAM").is_empty());
}

#[test]
fn modules_are_looked_for_where_pam_loads_them() {
    let dirs = pam_search_dirs(&vec![
        "/usr/lib/x86_64-linux-gnu/security".to_string(),
        "/lib/security".to_string(),
    ]);
    assert_eq!(
        dirs,
        [
            "/lib/security",
            "/lib64/security",
            "/usr/lib/security",
            "/usr/lib/x86_64-linux-gnu/security",
            "/usr/lib64/security",
        ]
    );
    let named = vec![pam_file(
        "/etc/pam.d/sudo",
        "auth sufficient /nix/store/gaze/pam_gaze.so # here\n",
    )];
    assert_eq!(
        pam_module_candidates(&vec!["/lib/security".to_string()], &named),
        [
            "/lib/security/pam_gaze.so",
            "/lib/security/pam_gaze_grosshack.so",
            "/nix/store/gaze/pam_gaze.so",
        ]
    );
    assert_eq!(wallet_module_path("/lib/security"), "/lib/security/pam_kwallet5.so");
    assert_eq!(vendor_service_path("/etc/pam.d/polkit-1"), "/usr/lib/pam.d/polkit-1");
}

#[test]
fn paths_are_sorted_by_their_components_and_listed_once() {
    let given = ["/b", "/a/x", "/a", "/a/./x", "/a-b"].map(str::to_string).to_vec();
    assert_eq!(sorted_paths(&given), ["/a", "/a/x", "/a-b", "/b"]);
}

#[test]
fn privileged_files_must_be_roots() {
    let mut facts = sound_machine();
    facts.privileged = vec![
        owned("/etc/dbus-1/system.d/com.gundulabs.Gaze.conf", 0, 0o100666),
        owned("/usr/lib/systemd/system/gazed.service", 0, 0o100644),
    ];
    let (level, message, _) = one(&facts, "Service file permissions");
    assert_eq!(level, Level::Error);
    assert!(message.contains("/etc/dbus-1/system.d/com.gundulabs.Gaze.conf"));
    assert!(!message.contains("gazed.service"));
    facts.privileged.clear();
    assert!(of(&examined(&facts), "Service file permissions").is_empty());
}

#[test]
fn a_tpm_must_be_there_and_open() {
    let mut facts = sound_machine();
    assert_eq!(
        one(&facts, "TPM").1,
        "a TPM device is present and gazed can open /dev/tpmrm0"
    );
    if let Some(node) = facts.around.tpm_nodes[0].facts.as_mut() {
        node.uid = 122;
        node.user = "tss".to_string();
    }
    assert_eq!(
        one(&facts, "TPM").1,
        "template encryption is enabled but the gazed unit cannot open the TPM device \
         (/dev/tpmrm0 is tss:tss 0660)"
    );
    facts.around.credentials = None;
    assert_eq!(
        one(&facts, "TPM").1,
        "a TPM device is present for encrypted templates"
    );
    facts.around.tpm_nodes.clear();
    assert_eq!(
        one(&facts, "TPM").1,
        "template encryption is enabled but no TPM device is present"
    );
    if let Some(config) = facts.config.as_mut() {
        config.storage.encrypt_templates = false;
    }
    assert_eq!(one(&facts, "TPM").0, Level::Off);
    assert_eq!(
        unit_groups("User=\nSupplementaryGroups=tss video\n"),
        ["tss", "video"]
    );
}

const GDM_FACE: &str = "auth [success=1 default=ignore] pam_gaze.so\n\
                        auth requisite pam_deny.so\n\
                        auth optional pam_gnome_keyring.so use_authtok\n\
                        session optional pam_gnome_keyring.so auto_start\n";

#[test]
fn the_keyring_needs_its_settings_its_stack_and_a_record() {
    let mut facts = sound_machine();
    if let Some(config) = facts.config.as_mut() {
        config.storage.unlock_gnome_keyring = true;
    }
    facts.said.keyring = Some("no liveness".to_string());
    assert_eq!(
        one(&facts, "Keyring").1,
        "GNOME Keyring unlock is enabled but unusable: no liveness"
    );
    facts.said.keyring = None;
    assert_eq!(
        one(&facts, "Keyring").1,
        "GNOME Keyring unlock is enabled but /etc/pam.d/gdm-face is missing"
    );
    facts.gdm_face = Some("auth sufficient pam_gaze.so\n".to_string());
    assert_eq!(
        one(&facts, "Keyring").1,
        "/etc/pam.d/gdm-face does not have the packaged keyring hand-off and session hook"
    );
    facts.gdm_face = Some(GDM_FACE.to_string());
    assert_eq!(one(&facts, "Keyring").0, Level::Warning);
    facts.gnome_record = keyring_record_state(true, Some(1000), true);
    assert_eq!(one(&facts, "Keyring").0, Level::Pass);
    assert_eq!(keyring_record_state(false, Some(1000), true), None);
    assert_eq!(keyring_record_state(true, None, true), None);
}

#[test]
fn the_wallet_needs_its_module_a_login_and_a_record() {
    let mut facts = sound_machine();
    if let Some(config) = facts.config.as_mut() {
        config.storage.unlock_kwallet = true;
    }
    facts.wallet_module = false;
    let found = of(&examined(&facts), "KWallet");
    assert_eq!(found.len(), 2);
    assert_eq!(found[0].1, "pam_kwallet5.so was not found");
    assert_eq!(found[1].1, "No supported KDE login PAM service was found");
    facts.wallet_module = true;
    facts.services = vec![service("sddm", "auth required pam_unix.so\n")];
    facts.wallet_record = Some(false);
    let found = of(&examined(&facts), "KWallet");
    assert_eq!(found[0].1, "sddm lacks the managed KWallet handoff/session hook");
    assert_eq!(
        found[1],
        (
            Level::Warning,
            "ada has no enrolled KWallet credential".to_string(),
            Some("Run `sudo gaze keyring --kwallet --user ada`.".to_string())
        )
    );
    facts.wallet_record = Some(true);
    assert_eq!(of(&examined(&facts), "KWallet")[1].0, Level::Pass);
    facts.said.keyring = Some("no liveness".to_string());
    assert_eq!(
        one(&facts, "KWallet").1,
        "KWallet unlock is enabled but unusable: no liveness"
    );
}

#[test]
fn a_gnome_session_is_examined_with_its_login_screen() {
    let mut facts = sound_machine();
    facts.desktop = "ubuntu:gnome".to_string();
    assert_eq!(one(&facts, "GNOME extension").0, Level::Pass);
    assert_eq!(one(&facts, "GNOME lock-screen face auth").0, Level::Pass);
    assert_eq!(one(&facts, "GDM login face auth").0, Level::Pass);
    assert!(of(&examined(&facts), "GDM camera SELinux policy").is_empty());

    facts.gnome.selinux_enforcing = true;
    facts.gnome.camera_policy = GdmCameraPolicy::NotLoaded;
    facts.gnome.enabled_extensions = Ok((true, "other@example.com".to_string()));
    facts.gnome.setting = Ok((true, "false".to_string()));
    assert_eq!(one(&facts, "GDM camera SELinux policy").0, Level::Error);
    assert_eq!(
        one(&facts, "GNOME extension").1,
        "installed, but not enabled for the current user"
    );
    assert_eq!(one(&facts, "GNOME lock-screen face auth").0, Level::Off);
    facts.gnome.installed = false;
    assert_eq!(
        one(&facts, "GNOME extension").1,
        "not installed for the current user"
    );
    facts.gnome.enabled_extensions = Ok((false, "no shell".to_string()));
    facts.gnome.setting = Err("no gsettings".to_string());
    assert_eq!(
        one(&facts, "GNOME extension").1,
        "could not query extensions: no shell"
    );
    assert_eq!(
        one(&facts, "GNOME lock-screen face auth").1,
        "could not read the extension setting: no gsettings"
    );
}

#[test]
fn the_login_screen_is_judged_by_what_the_greeter_resolves() {
    let mut facts = sound_machine();
    facts.desktop = "gnome".to_string();
    let mut login = |dconf: Option<bool>, over: bool, readiness: GdmGreeterReadiness| {
        facts.gnome.dconf_face_auth = dconf;
        facts.gnome.override_exists = over;
        facts.gnome.readiness = readiness;
        one(&facts, "GDM login face auth")
    };
    let (level, message, _) = login(Some(false), true, GdmGreeterReadiness::Ready);
    assert_eq!(level, Level::Warning);
    assert!(message.ends_with("the compiled GDM dconf database still reports it disabled"));
    assert_eq!(login(Some(true), false, GdmGreeterReadiness::Ready).0, Level::Pass);
    assert_eq!(login(None, true, GdmGreeterReadiness::Ready).0, Level::Pass);
    assert_eq!(
        login(None, true, GdmGreeterReadiness::ProfileMissingSystemDb).0,
        Level::Error
    );
    assert_eq!(
        login(None, true, GdmGreeterReadiness::CompiledDbMissing).2,
        "Run `sudo dconf update`, then reboot."
    );
    assert_eq!(
        login(None, true, GdmGreeterReadiness::ExtensionNotEnabled).0,
        Level::Error
    );
    let held = GdmGreeterReadiness::ExtensionsDisabled(Some("/var/lib/gdm/x".to_string()));
    assert!(login(None, true, held).2.starts_with("/var/lib/gdm/x holds that key"));
    assert!(login(None, true, GdmGreeterReadiness::ExtensionsDisabled(None))
        .2
        .starts_with("Put `disable-user-extensions=false`"));
    let unknown = GdmGreeterReadiness::Unverifiable("no dconf".to_string());
    assert!(login(None, true, unknown).1.ends_with("could not be verified: no dconf"));
    assert_eq!(login(None, false, GdmGreeterReadiness::Ready).0, Level::Off);
}

fn greeter() -> GreeterFacts {
    GreeterFacts {
        profile: Ok("user-db:user\nsystem-db:gdm\n".to_string()),
        compiled_db: true,
        enabled_extensions: Some("['gaze@gundulabs.com']".to_string()),
        disable_extensions: Some("false".to_string()),
        disable_source: None,
    }
}

#[test]
fn a_greeter_is_ready_only_with_every_part() {
    assert!(matches!(
        gdm_greeter_readiness(&greeter()),
        GdmGreeterReadiness::Ready
    ));
    let mut facts = greeter();
    facts.disable_extensions = Some("true".to_string());
    facts.disable_source = Some("/x/dconf/user".to_string());
    assert!(matches!(
        gdm_greeter_readiness(&facts),
        GdmGreeterReadiness::ExtensionsDisabled(Some(path)) if path == "/x/dconf/user"
    ));
    facts.enabled_extensions = Some("[]".to_string());
    assert!(matches!(
        gdm_greeter_readiness(&facts),
        GdmGreeterReadiness::ExtensionNotEnabled
    ));
    facts.enabled_extensions = None;
    assert!(matches!(
        gdm_greeter_readiness(&facts),
        GdmGreeterReadiness::Unverifiable(why) if why == "`dconf read` against the GDM database failed"
    ));
    facts.compiled_db = false;
    assert!(matches!(
        gdm_greeter_readiness(&facts),
        GdmGreeterReadiness::CompiledDbMissing
    ));
    facts.profile = Ok("user-db:user\n".to_string());
    assert!(matches!(
        gdm_greeter_readiness(&facts),
        GdmGreeterReadiness::ProfileMissingSystemDb
    ));
    facts.profile = Err("denied".to_string());
    assert!(matches!(
        gdm_greeter_readiness(&facts),
        GdmGreeterReadiness::Unverifiable(why)
            if why == "could not read /etc/dconf/profile/gdm: denied"
    ));
}

#[test]
fn the_greeters_own_database_outranks_the_system() {
    let set = |value: &str| Some(value.to_string());
    let system = set("system");
    assert_eq!(
        gdm_greeter_dconf_read(&vec![None, set(""), set("own")], &system),
        set("own")
    );
    assert_eq!(gdm_greeter_dconf_read(&vec![None, set("")], &system), system);
    let dirs = vec!["/a".to_string(), "/b".to_string()];
    assert_eq!(
        gdm_greeter_dconf_source(&dirs, &vec![set(""), set("true")]),
        set("/b/dconf/user")
    );
    assert_eq!(gdm_greeter_dconf_source(&dirs, &vec![None, None]), None);
    assert_eq!(
        gdm_config_candidates("/var/lib/gdm", &vec!["/var/lib/gdm/seat0".to_string()]),
        ["/var/lib/gdm/.config", "/var/lib/gdm/seat0/config"]
    );
    assert_eq!(dconf_value(&ended(true, " 'x' \n", "")), set("'x'"));
    assert_eq!(dconf_value(&ended(false, "x", "")), None);
    assert_eq!(dconf_value(&CommandRun::NotStarted("no dconf".to_string())), None);
    assert_eq!(gdm_face_auth_from_dconf(true, &set("true")), Some(true));
    assert_eq!(gdm_face_auth_from_dconf(false, &set("true")), None);
    assert!(selinux_is_enforcing(Some("1\n")));
    assert!(!selinux_is_enforcing(Some("0")));
    assert!(!selinux_is_enforcing(None));
    let modules = Ok((true, "base\ngaze-gdm-camera\n".to_string()));
    assert!(matches!(gdm_camera_policy(true, &modules), GdmCameraPolicy::Loaded));
    assert!(matches!(gdm_camera_policy(false, &modules), GdmCameraPolicy::NeedsRoot));
    assert!(matches!(
        gdm_camera_policy(true, &Ok((true, "base".to_string()))),
        GdmCameraPolicy::NotLoaded
    ));
    assert!(matches!(
        gdm_camera_policy(true, &Err("gone".to_string())),
        GdmCameraPolicy::Unverifiable(why) if why == "gone"
    ));
}

#[test]
fn other_desktops_have_checks_of_their_own() {
    let mut facts = sound_machine();
    facts.desktop = "hyprland".to_string();
    assert_eq!(one(&facts, "hyprlock").0, Level::Warning);
    facts.hyprlock = Some("auth {\n pam {\n module = hyprlock-gaze\n }\n}\n".to_string());
    assert_eq!(
        one(&facts, "hyprlock").1,
        "configured to use a Gaze PAM service"
    );
    assert_eq!(
        hyprlock_path(None, Some("/home/ada")),
        Some("/home/ada/.config/hypr/hyprlock.conf".to_string())
    );
    assert_eq!(
        hyprlock_path(Some("/cfg"), Some("/home/ada")),
        Some("/cfg/hypr/hyprlock.conf".to_string())
    );
    assert_eq!(hyprlock_path(None, None), None);

    assert_eq!(desktop_name("KDE", "", "plasma", "gnome"), "kde::plasma");
    assert_eq!(desktop_name("", "", "", "gnome"), "gnome");
    assert!(is_gnome("ubuntu:gnome"));
    assert!(!is_gnome("kde::plasma"));
    let comms = ["kwin_wayland\n", "bash\n", "plasmashell\n", "Hyprland\n"];
    assert_eq!(
        desktop_from_processes(&comms.map(str::to_string).to_vec()),
        "kde:hyprland"
    );
    assert_eq!(owning_uid(Some("1000"), 0), 1000);
    assert_eq!(owning_uid(Some("ada"), 7), 7);
    assert_eq!(owning_uid(None, 7), 7);
    assert_eq!(
        xdg_data_dirs(None, Some("/home/ada"), None),
        ["/home/ada/.local/share", "/usr/local/share", "/usr/share"]
    );
    assert_eq!(
        xdg_data_dirs(Some("/data"), Some("/home/ada"), Some("/x:/y")),
        ["/data", "/x", "/y"]
    );
}

#[test]
fn a_daemon_off_the_bus_is_reported_once() {
    let mut facts = sound_machine();
    facts.reach = Reach::NoBus("refused".to_string());
    assert_eq!(
        one(&facts, "DBus").1,
        "could not reach the system bus: refused"
    );
    facts.reach = Reach::BusTimedOut;
    assert_eq!(one(&facts, "DBus").1, "timed out connecting to the system bus");
    facts.reach = Reach::NotOnBus;
    assert_eq!(
        one(&facts, "DBus").1,
        "gazed is running but has not claimed com.gundulabs.Gaze yet (models may be downloading)"
    );
    facts.service_state = "inactive".to_string();
    assert_eq!(
        one(&facts, "DBus").1,
        "gazed is not on the system bus (the service is inactive)"
    );
    facts.service_state = String::new();
    assert_eq!(
        one(&facts, "DBus").1,
        "gazed is not on the system bus (the service is not reporting a state)"
    );
    facts.avx2 = false;
    let report = examined(&facts);
    assert_eq!(
        of(&report, "DBus")[0].1,
        "gazed cannot run on this CPU (no AVX2), so it never reaches the system bus"
    );
    for name in ["Daemon", "Camera session", "Enrollment"] {
        assert!(of(&report, name).is_empty());
    }
    assert_eq!(of(&report, "RGB camera").len(), 1);
}

#[test]
fn the_daemons_answers_are_reported() {
    let mut facts = sound_machine();
    let mut with = |change: fn(&mut Answers)| {
        let mut answers = sound_answers();
        change(&mut answers);
        facts.reach = Reach::OnBus(answers);
        examined(&facts)
    };
    let message = |report: &Report, name: &str| of(report, name)[0].1.clone();
    let report = with(|answers| answers.config = ConfigReply::Left);
    assert_eq!(
        message(&report, "Daemon"),
        "gazed left the system bus while doctor was querying it"
    );
    let report = with(|answers| answers.config = ConfigReply::Failed("no".to_string()));
    assert_eq!(
        message(&report, "Daemon"),
        "gazed did not return its configuration: no"
    );
    let report = with(|answers| answers.config = ConfigReply::TimedOut);
    assert_eq!(
        message(&report, "Daemon"),
        "gazed timed out while reading its configuration"
    );
    let report = with(|answers| answers.availability = AvailabilityReply::Available(false));
    assert_eq!(of(&report, "Camera session")[0].0, Level::Error);
    let report =
        with(|answers| answers.availability = AvailabilityReply::Failed("no".to_string()));
    assert_eq!(
        message(&report, "Camera session"),
        "availability check failed: no"
    );
    let report = with(|answers| answers.availability = AvailabilityReply::TimedOut);
    assert_eq!(
        message(&report, "Camera session"),
        "availability check timed out"
    );
    for change in [
        (|answers: &mut Answers| answers.faces = FacesReply::NoFile) as fn(&mut Answers),
        |answers| answers.faces = FacesReply::Listed(Vec::new()),
    ] {
        let report = with(change);
        assert_eq!(message(&report, "Enrollment"), "no faces are enrolled for ada");
        assert!(of(&report, "Enrollment coverage").is_empty());
    }
    let report = with(|answers| answers.faces = FacesReply::Failed("no".to_string()));
    assert_eq!(
        message(&report, "Enrollment"),
        "could not list faces for ada: no"
    );
    let report = with(|answers| answers.faces = FacesReply::TimedOut);
    assert_eq!(
        message(&report, "Enrollment"),
        "timed out while checking faces for ada"
    );
    let report = with(|answers| {
        answers.faces = FacesReply::Listed(vec![FaceCoverage {
            has_rgb: false,
            has_ir: true,
        }])
    });
    assert_eq!(
        message(&report, "Enrollment"),
        "1 face profile(s) enrolled for ada"
    );
    assert_eq!(
        message(&report, "Enrollment coverage"),
        "one or more profiles have no RGB captures"
    );
}

fn measured(ran_as_configured: bool, reason: &str) -> BenchmarkResult {
    BenchmarkResult {
        component: "detector".to_string(),
        execution_provider: "cpu".to_string(),
        device: "cpu".to_string(),
        mean_ms: "4.2".to_string(),
        fps: "238.1".to_string(),
        p95_ms: "5.0".to_string(),
        min_ms: "3.9".to_string(),
        requested_execution_provider: "openvino".to_string(),
        requested_device: "npu".to_string(),
        fallback_reason: reason.to_string(),
        ran_as_configured,
    }
}

#[test]
fn measurements_say_where_the_models_ran() {
    let mut facts = sound_machine();
    let mut with = |reply: BenchmarkReply| {
        let mut answers = sound_answers();
        answers.benchmark = Some(reply);
        facts.reach = Reach::OnBus(answers);
        of(&examined(&facts), "Benchmark")
    };
    let timings = "detector [cpu / cpu]: 4.2ms avg (238.1 fps), 5.0ms p95, 3.9ms min";
    let found = with(BenchmarkReply::Measured(vec![
        measured(true, ""),
        measured(false, ""),
        measured(false, "no driver"),
    ]));
    assert_eq!(found[0], (Level::Pass, timings.to_string(), None));
    assert_eq!(
        found[1].1,
        format!("{timings}; configured openvino/npu is not in use: no reason reported")
    );
    assert_eq!(
        found[2].1,
        format!("{timings}; configured openvino/npu is not in use: no driver")
    );
    assert_eq!(found[2].0, Level::Warning);
    assert_eq!(
        with(BenchmarkReply::Unreadable)[0].1,
        "the running daemon reports a benchmark layout this build cannot read"
    );
    assert_eq!(
        with(BenchmarkReply::Failed("no".to_string()))[0].1,
        "gazed could not run the benchmark: no"
    );
    assert_eq!(with(BenchmarkReply::TimedOut)[0].1, "benchmark timed out");
}

#[test]
fn a_starting_daemon_is_waited_for() {
    assert_eq!(ready_wait_ms("active"), 25_000);
    assert_eq!(ready_wait_ms("activating"), 0);
    assert_eq!(remaining_ms(25_000, 4_000), 21_000);
    assert_eq!(remaining_ms(3, 4), 0);
    assert_eq!(name_attempt(true, 9, 0), Attempt::Done);
    assert_eq!(name_attempt(false, 0, 0), Attempt::GiveUp);
    assert_eq!(name_attempt(false, 0, 1), Attempt::Retry);
    assert_eq!(config_attempt(true, false, 9, 0), Attempt::Done);
    assert_eq!(config_attempt(false, true, 0, 1), Attempt::Retry);
    assert_eq!(config_attempt(false, true, 1, 1), Attempt::GiveUp);
    assert_eq!(config_attempt(false, false, 0, 1), Attempt::GiveUp);
}

#[test]
fn cameras_are_checked_by_their_source() {
    let mut facts = sound_machine();
    let mut with = |rgb: &str, ir: &str, change: fn(&mut CameraFacts)| {
        if let Some(config) = facts.config.as_mut() {
            config.cameras.rgb = rgb.to_string();
            config.cameras.ir = ir.to_string();
        }
        facts.around = sound_machine().around;
        change(&mut facts.around.cameras);
        examined(&facts)
    };
    let said = |report: &Report, name: &str| {
        of(report, name)
            .into_iter()
            .map(|(level, message, _)| (level, message))
            .collect::<Vec<_>>()
    };
    let report = with("primary", "", |_| {});
    assert_eq!(
        said(&report, "RGB camera"),
        [(Level::Pass, "1 color camera(s) visible through PipeWire".to_string())]
    );
    assert!(said(&report, "IR camera").is_empty());
    let report = with("primary", "", |cameras| cameras.rgb_cameras = Ok(Vec::new()));
    assert_eq!(said(&report, "RGB camera")[0].0, Level::Warning);
    let report = with("primary", "", |cameras| cameras.rgb_cameras = Err("no".to_string()));
    assert_eq!(
        said(&report, "RGB camera"),
        [(Level::Error, "GStreamer camera enumeration failed: no".to_string())]
    );
    let report = with("pipewiresrc target-object=cam1", "", |_| {});
    assert_eq!(said(&report, "RGB camera")[0].0, Level::Pass);
    let report = with("pipewiresrc target-object=cam2", "/dev/video2", |cameras| {
        cameras.ir_node = NodeState::CharDevice
    });
    assert_eq!(
        of(&report, "RGB camera")[0],
        (
            Level::Error,
            "configured source is not visible: pipewiresrc target-object=cam2".to_string(),
            Some(
                "Run `gaze config` to pick one interactively, or set cameras.rgb to one of the \
                 detected sources: \"pipewiresrc target-object=cam1\""
                    .to_string()
            )
        )
    );
    assert_eq!(
        said(&report, "IR camera"),
        [(Level::Pass, "/dev/video2 is a character device".to_string())]
    );
    let report = with("usb:0bda:5520", "usb:0bda:5520", |_| {});
    assert_eq!(
        said(&report, "RGB camera")[0].1,
        "resolves the color node for USB 0bda:5520 at runtime"
    );
    assert_eq!(
        said(&report, "IR camera")[0].1,
        "resolves the IR node for USB 0bda:5520 at runtime"
    );
    let report = with("/dev/video0", "/dev/video2", |cameras| {
        cameras.rgb_node = NodeState::Failed("gone".to_string())
    });
    assert_eq!(
        said(&report, "RGB camera")[0].1,
        "/dev/video0 is not accessible: gone"
    );
    assert_eq!(
        said(&report, "IR camera")[0].1,
        "/dev/video2 is not a device node"
    );
    let report = with("videotestsrc", "pipewiresrc target-object=ir", |_| {});
    assert_eq!(said(&report, "RGB camera")[0].0, Level::Warning);
    assert_eq!(said(&report, "IR camera")[0].0, Level::Error);
    let report = with("primary", "videotestsrc", |cameras| {
        cameras.missing_elements = Ok(vec!["v4l2src".to_string(), "jpegdec".to_string()])
    });
    assert_eq!(
        said(&report, "GStreamer plugins"),
        [(
            Level::Error,
            "required camera elements are missing: v4l2src, jpegdec".to_string()
        )]
    );
    assert!(said(&report, "RGB camera").is_empty());
    assert!(said(&report, "IR camera").is_empty());
}

#[test]
fn a_command_is_quoted_without_the_space_around() {
    assert_eq!(answer_text(" active\n", "noise"), "active");
    assert_eq!(answer_text("", " no unit \n"), "no unit");
    assert_eq!(
        command_answer(ended(false, "", " no unit \n")),
        Ok((false, "no unit".to_string()))
    );
    assert_eq!(
        command_answer(ended(true, " active\n", "noise")),
        Ok((true, "active".to_string()))
    );
    assert_eq!(
        command_answer(CommandRun::NotStarted("not found".to_string())),
        Err("not found".to_string())
    );
}
