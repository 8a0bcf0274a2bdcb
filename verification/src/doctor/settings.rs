//! Checks of the configuration file and of the values in it.

use crate::camera::parse_usb_spec;
use crate::config::{
    Config, SecurityField, Validation, CONFIG_PATH, MAX_LIVENESS_MAX_SECONDS_BITS,
    MAX_LIVENESS_THRESHOLD_BITS, MIN_LIVENESS_MAX_SECONDS_BITS, MIN_LIVENESS_THRESHOLD_BITS,
};
use crate::report::{Check, Finding, Level, Report};
use crate::text::CharClass;
use crate::{camera, config, report, text};
use vstd::prelude::*;

verus! {

/// What the system says of a file.
#[derive(Clone, Copy)]
pub struct Ownership {
    pub uid: u32,
    pub mode: u32,
}

pub open spec fn permission_findings(facts: Result<Ownership, String>) -> Seq<Finding> {
    match facts {
        Ok(facts) => {
            let mode = facts.mode & 0o777;
            if facts.uid != 0 {
                seq![
                    report::failing(
                        "Config ownership"@,
                        CONFIG_PATH@ + " is owned by UID "@ + text::decimal(facts.uid as nat),
                        "Run `sudo chown root:root /etc/gaze/config.toml`."@,
                    ),
                ]
            } else if mode & 0o022 != 0 {
                seq![
                    report::failing(
                        "Config permissions"@,
                        CONFIG_PATH@ + " has writable mode "@ + text::digits(mode as nat, 8),
                        "Run `sudo chmod 0644 /etc/gaze/config.toml`."@,
                    ),
                ]
            } else {
                seq![
                    report::passing(
                        "Config permissions"@,
                        "root-owned and not writable by group or others ("@ + text::digits(
                            mode as nat,
                            8,
                        ) + ")"@,
                    ),
                ]
            }
        },
        Err(error) => seq![
            report::failing(
                "Config permissions"@,
                "could not inspect "@ + CONFIG_PATH@ + ": "@ + error@,
                "Run `sudo stat /etc/gaze/config.toml`."@,
            ),
        ],
    }
}

pub fn check_config_permissions(report: &mut Report, facts: &Result<Ownership, String>)
    ensures
        final(report)@ == old(report)@ + permission_findings(*facts),
{
    match facts {
        Ok(facts) => {
            let mode: u32 = facts.mode & 0o777;
            if facts.uid != 0 {
                let uid = text::decimal_text(facts.uid as u64);
                let message = text::cat3(CONFIG_PATH, " is owned by UID ", uid.as_str());
                report.error(
                    "Config ownership",
                    message.as_str(),
                    "Run `sudo chown root:root /etc/gaze/config.toml`.",
                );
            } else if mode & 0o022 != 0 {
                let shown = text::octal_text(mode as u64);
                let message = text::cat3(CONFIG_PATH, " has writable mode ", shown.as_str());
                report.error(
                    "Config permissions",
                    message.as_str(),
                    "Run `sudo chmod 0644 /etc/gaze/config.toml`.",
                );
            } else {
                let shown = text::octal_text(mode as u64);
                let message = text::cat3(
                    "root-owned and not writable by group or others (",
                    shown.as_str(),
                    ")",
                );
                report.pass("Config permissions", message.as_str());
            }
        },
        Err(error) => {
            let message = text::cat4("could not inspect ", CONFIG_PATH, ": ", error.as_str());
            report.error(
                "Config permissions",
                message.as_str(),
                "Run `sudo stat /etc/gaze/config.toml`.",
            );
        },
    }
    proof {
        assert(report@ =~= old(report)@ + permission_findings(*facts));
    }
}

pub open spec fn value_error(message: Seq<char>, fix: Seq<char>) -> Finding {
    report::failing("Config values"@, message, fix)
}

pub open spec fn security_fix(field: SecurityField) -> Seq<char> {
    match field {
        SecurityField::Level | SecurityField::ModelQuality =>
            "Choose a supported security level with `gaze config`."@,
        SecurityField::Threshold =>
            "Set valid custom RGB and IR thresholds in /etc/gaze/config.toml."@,
        SecurityField::HybridPolicy => "Use default, or, fallback_on_dark, or and."@,
    }
}

pub open spec fn security_findings(errors: Seq<config::SecurityError>) -> Seq<Finding> {
    Seq::new(
        errors.len(),
        |i: int| value_error(errors[i].message@, security_fix(errors[i].field)),
    )
}

/// The finding that a failed validation leaves.
pub open spec fn complaint(said: Option<String>, fix: Seq<char>) -> Seq<Finding> {
    match said {
        Some(message) => seq![value_error(message@, fix)],
        None => seq![],
    }
}

pub open spec fn inference_fix(openvino: bool) -> Seq<char> {
    if openvino {
        "Use cpu/cpu, openvino/cpu, openvino/gpu, or openvino/npu in the [inference] table."@
    } else {
        "Use cpu/cpu, or install a Gaze build compiled with the openvino Cargo feature."@
    }
}

/// What is wrong with the RGB camera source, if anything.
pub open spec fn rgb_source_findings(rgb: Seq<char>) -> Seq<Finding> {
    match text::without_prefix(rgb, "/dev/video"@) {
        Some(index) => report::only_if(
            index.len() == 0 || !text::all_digits(index),
            value_error(
                "invalid RGB camera node "@ + text::quoted(rgb),
                "Use /dev/video<number>, usb:VVVV:PPPP, \"primary\", or a GStreamer source."@,
            ),
        ),
        None => report::only_if(
            text::starts(rgb, "usb:"@) && camera::usb_spec(rgb) is None,
            value_error(
                "invalid RGB USB spec "@ + text::quoted(rgb),
                "Use usb:VVVV:PPPP with hex VID:PID, for example usb:046d:085e."@,
            ),
        ),
    }
}

pub open spec fn liveness_findings(liveness: config::LivenessConfig) -> Seq<Finding> {
    if liveness.enabled {
        report::only_if(
            !config::within(
                liveness.threshold,
                MIN_LIVENESS_THRESHOLD_BITS,
                MAX_LIVENESS_THRESHOLD_BITS,
            ),
            value_error(
                "liveness.threshold must be between 0.1 and 1, got "@ + liveness.threshold.shown@,
                "Set liveness.threshold to a value between 0.10 and 1.0."@,
            ),
        ) + report::only_if(
            !config::within(
                liveness.max_seconds,
                MIN_LIVENESS_MAX_SECONDS_BITS,
                MAX_LIVENESS_MAX_SECONDS_BITS,
            ),
            value_error(
                "liveness.max_seconds must be between 0.2 and 30, got "@
                    + liveness.max_seconds.shown@,
                "Set liveness.max_seconds to a value between 0.2 and 30.0 (the default is 2.0)."@,
            ),
        )
    } else {
        seq![]
    }
}

/// The values that are wrong.
pub open spec fn value_errors(config: Config, said: Validation, openvino: bool) -> Seq<Finding> {
    let rgb = text::trimmed(config.cameras.rgb@, CharClass::White);
    let ir = text::trimmed(config.cameras.ir@, CharClass::White);
    security_findings(said.security@) + complaint(
        said.enrollment,
        "Set enrollment.min_face_size_ratio to a value from 0.10 through 0.75."@,
    ) + complaint(said.cameras, "Use never, auto, or always for cameras.parallel_capture."@)
        + complaint(said.inference, inference_fix(openvino)) + report::only_if(
        rgb.len() == 0 && ir.len() == 0,
        value_error(
            "both cameras.rgb and cameras.ir are empty"@,
            "Set cameras.rgb to \"primary\" or configure an IR camera."@,
        ),
    ) + rgb_source_findings(rgb) + liveness_findings(config.liveness)
}

/// The values that work but deserve a warning.
pub open spec fn value_warnings(config: Config) -> Seq<Finding> {
    let ir = text::trimmed(config.cameras.ir@, CharClass::White);
    report::only_if(
        config.cameras.emitter_enabled && ir.len() == 0,
        report::warned(
            "IR emitter"@,
            "cameras.emitter_enabled is true but cameras.ir is empty"@,
            "Configure cameras.ir or disable emitter_enabled."@,
        ),
    ) + report::only_if(
        config.cameras.parallel_capture@ == "always"@ && ir.len() > 0,
        report::warned(
            "Parallel capture"@,
            "cameras.parallel_capture is \"always\", which streams RGB and IR at once without checking that the camera supports it"@,
            "If hybrid auth starts failing with \"IR camera stream stopped unexpectedly\", use \"auto\" or \"never\"."@,
        ),
    ) + report::only_if(
        !config.liveness.enabled,
        report::warned(
            "Liveness"@,
            "anti-spoofing is disabled"@,
            "Enable [liveness] unless you intentionally accept photo/screen spoofing risk."@,
        ),
    ) + report::only_if(
        config.enrollment.max_templates == 0,
        report::warned(
            "Enrollment limit"@,
            "max_templates is zero, which disables template eviction"@,
            "Set enrollment.max_templates to a positive value (the default is 2)."@,
        ),
    )
}

/// What is said of the configuration's values: every error, or that there is none, and then the
/// warnings.
pub open spec fn value_findings(config: Config, said: Validation, openvino: bool) -> Seq<Finding> {
    let errors = value_errors(config, said, openvino);
    (if errors.len() == 0 {
        seq![
            report::passing(
                "Config values"@,
                "camera, security, enrollment, inference, and liveness values are valid"@,
            ),
        ]
    } else {
        errors
    }) + value_warnings(config)
}

fn security_fix_text(field: SecurityField) -> (r: &'static str)
    ensures
        r@ == security_fix(field),
{
    match field {
        SecurityField::Level | SecurityField::ModelQuality =>
            "Choose a supported security level with `gaze config`.",
        SecurityField::Threshold =>
            "Set valid custom RGB and IR thresholds in /etc/gaze/config.toml.",
        SecurityField::HybridPolicy => "Use default, or, fallback_on_dark, or and.",
    }
}

fn add_complaint(found: &mut Report, said: &Option<String>, fix: &str)
    ensures
        final(found)@ == old(found)@ + complaint(*said, fix@),
{
    if let Some(message) = said {
        found.error("Config values", message.as_str(), fix);
    }
    proof {
        assert(found@ =~= old(found)@ + complaint(*said, fix@));
    }
}

fn add_security(found: &mut Report, errors: &Vec<config::SecurityError>)
    ensures
        final(found)@ == old(found)@ + security_findings(errors@),
{
    proof {
        assert(found@ =~= old(found)@ + security_findings(errors@).take(0));
    }
    for i in 0..errors.len()
        invariant
            found@ == old(found)@ + security_findings(errors@).take(i as int),
    {
        let ghost before = found@;
        found.error(
            "Config values",
            errors[i].message.as_str(),
            security_fix_text(errors[i].field),
        );
        proof {
            text::lemma_take_push(security_findings(errors@), i as int);
            assert(found@ =~= old(found)@ + security_findings(errors@).take(i as int + 1));
        }
    }
    proof {
        assert(security_findings(errors@).take(errors@.len() as int) =~= security_findings(
            errors@,
        ));
    }
}

fn add_rgb_source(found: &mut Report, rgb: &[char])
    ensures
        final(found)@ == old(found)@ + rgb_source_findings(rgb@),
{
    let shown = text::string(rgb);
    let quoted = text::quote(shown.as_str());
    match text::strip_prefix(rgb, "/dev/video") {
        Some(index) => {
            let message = text::cat2("invalid RGB camera node ", quoted.as_str());
            found.error_if(
                index.len() == 0 || !text::only_digits(index),
                "Config values",
                message.as_str(),
                "Use /dev/video<number>, usb:VVVV:PPPP, \"primary\", or a GStreamer source.",
            );
        },
        None => {
            let message = text::cat2("invalid RGB USB spec ", quoted.as_str());
            found.error_if(
                text::starts_with_str(rgb, "usb:") && parse_usb_spec(shown.as_str()).is_none(),
                "Config values",
                message.as_str(),
                "Use usb:VVVV:PPPP with hex VID:PID, for example usb:046d:085e.",
            );
        },
    }
}

fn add_liveness(found: &mut Report, liveness: &config::LivenessConfig)
    ensures
        final(found)@ == old(found)@ + liveness_findings(*liveness),
{
    if liveness.enabled {
        let threshold = text::cat2(
            "liveness.threshold must be between 0.1 and 1, got ",
            liveness.threshold.shown.as_str(),
        );
        found.error_if(
            !liveness.threshold.within(MIN_LIVENESS_THRESHOLD_BITS, MAX_LIVENESS_THRESHOLD_BITS),
            "Config values",
            threshold.as_str(),
            "Set liveness.threshold to a value between 0.10 and 1.0.",
        );
        let seconds = text::cat2(
            "liveness.max_seconds must be between 0.2 and 30, got ",
            liveness.max_seconds.shown.as_str(),
        );
        found.error_if(
            !liveness.max_seconds.within(
                MIN_LIVENESS_MAX_SECONDS_BITS,
                MAX_LIVENESS_MAX_SECONDS_BITS,
            ),
            "Config values",
            seconds.as_str(),
            "Set liveness.max_seconds to a value between 0.2 and 30.0 (the default is 2.0).",
        );
    }
    proof {
        assert(found@ =~= old(found)@ + liveness_findings(*liveness));
    }
}

/// What is said of the configuration's values.
pub fn config_findings(config: &Config, said: &Validation, openvino: bool) -> (r: Vec<Check>)
    ensures
        report::findings_of(r@) == value_findings(*config, *said, openvino),
{
    let rgb_chars = text::chars(config.cameras.rgb.as_str());
    let rgb = text::trim(rgb_chars.as_slice(), CharClass::White);
    let ir_chars = text::chars(config.cameras.ir.as_str());
    let ir = text::trim(ir_chars.as_slice(), CharClass::White);
    let mut found = Report::default();
    add_security(&mut found, &said.security);
    add_complaint(
        &mut found,
        &said.enrollment,
        "Set enrollment.min_face_size_ratio to a value from 0.10 through 0.75.",
    );
    add_complaint(
        &mut found,
        &said.cameras,
        "Use never, auto, or always for cameras.parallel_capture.",
    );
    let fix = if openvino {
        "Use cpu/cpu, openvino/cpu, openvino/gpu, or openvino/npu in the [inference] table."
    } else {
        "Use cpu/cpu, or install a Gaze build compiled with the openvino Cargo feature."
    };
    add_complaint(&mut found, &said.inference, fix);
    found.error_if(
        rgb.len() == 0 && ir.len() == 0,
        "Config values",
        "both cameras.rgb and cameras.ir are empty",
        "Set cameras.rgb to \"primary\" or configure an IR camera.",
    );
    add_rgb_source(&mut found, rgb);
    add_liveness(&mut found, &config.liveness);
    proof {
        assert(found@ =~= value_errors(*config, *said, openvino));
    }
    if found.checks.len() == 0 {
        found.pass(
            "Config values",
            "camera, security, enrollment, inference, and liveness values are valid",
        );
    }
    let ghost first = found@;
    found.warning_if(
        config.cameras.emitter_enabled && ir.len() == 0,
        "IR emitter",
        "cameras.emitter_enabled is true but cameras.ir is empty",
        "Configure cameras.ir or disable emitter_enabled.",
    );
    found.warning_if(
        text::str_eq(config.cameras.parallel_capture.as_str(), "always") && ir.len() > 0,
        "Parallel capture",
        "cameras.parallel_capture is \"always\", which streams RGB and IR at once without checking that the camera supports it",
        "If hybrid auth starts failing with \"IR camera stream stopped unexpectedly\", use \"auto\" or \"never\".",
    );
    found.warning_if(
        !config.liveness.enabled,
        "Liveness",
        "anti-spoofing is disabled",
        "Enable [liveness] unless you intentionally accept photo/screen spoofing risk.",
    );
    found.warning_if(
        config.enrollment.max_templates == 0,
        "Enrollment limit",
        "max_templates is zero, which disables template eviction",
        "Set enrollment.max_templates to a positive value (the default is 2).",
    );
    proof {
        assert(found@ =~= first + value_warnings(*config));
        assert(found@ =~= value_findings(*config, *said, openvino));
    }
    found.checks
}

/// How an attempt to load the configuration file ended.
pub enum Loading {
    /// It parses, and these keys in it are not read.
    Parsed { unknown: Vec<String> },
    NotReadable,
    Failed(String),
}

pub open spec fn loading_findings(
    loading: Loading,
    config: Option<Config>,
    said: Validation,
    openvino: bool,
) -> Seq<Finding> {
    match loading {
        Loading::Parsed { unknown } => (if unknown@.len() == 0 {
            seq![
                report::passing("Configuration"@, CONFIG_PATH@ + " parses successfully"@),
            ]
        } else {
            seq![
                report::warned(
                    "Configuration"@,
                    CONFIG_PATH@ + " parses, but Gaze does not read: "@ + text::joined(
                        text::texts(unknown@),
                        ", "@,
                    ),
                    "Remove or correct those keys; they have no effect, so a misspelled setting is silently off."@,
                ),
            ]
        }) + (match config {
            Some(config) => value_findings(config, said, openvino),
            None => seq![],
        }),
        Loading::NotReadable => seq![
            report::passing(
                "Configuration"@,
                CONFIG_PATH@
                    + " is not readable here; values are checked through gazed, but the file itself is not inspected for unknown keys"@,
            ),
        ],
        Loading::Failed(error) => seq![
            report::failing(
                "Configuration"@,
                "could not load "@ + CONFIG_PATH@ + ": "@ + error@,
                "Check the file and fix its TOML syntax, then run `sudo systemctl restart gazed`."@,
            ),
        ],
    }
}

/// Adds findings that were made elsewhere.
pub fn add_checks(report: &mut Report, checks: Vec<Check>)
    ensures
        final(report)@ == old(report)@ + report::findings_of(checks@),
{
    let ghost added = checks@;
    let mut rest = checks;
    report.checks.append(&mut rest);
    proof {
        assert(report@ =~= old(report)@ + report::findings_of(added));
    }
}

fn add_loading(
    report: &mut Report,
    loading: &Loading,
    config: Option<&Config>,
    said: &Validation,
    openvino: bool,
)
    ensures
        final(report)@ == old(report)@ + loading_findings(
            *loading,
            match config {
                Some(config) => Some(*config),
                None => None,
            },
            *said,
            openvino,
        ),
{
    match loading {
        Loading::Parsed { unknown } => {
            if unknown.len() == 0 {
                let message = text::cat2(CONFIG_PATH, " parses successfully");
                report.pass("Configuration", message.as_str());
            } else {
                let keys = text::join(unknown, ", ");
                let message = text::cat3(
                    CONFIG_PATH,
                    " parses, but Gaze does not read: ",
                    keys.as_str(),
                );
                report.warning(
                    "Configuration",
                    message.as_str(),
                    "Remove or correct those keys; they have no effect, so a misspelled setting is silently off.",
                );
            }
            let ghost first = report@.last();
            match config {
                Some(config) => {
                    let checks = config_findings(config, said, openvino);
                    proof {
                        report::lemma_then(
                            old(report)@,
                            seq![first],
                            report::findings_of(checks@),
                        );
                    }
                    add_checks(report, checks);
                },
                None => {
                    proof {
                        report::lemma_nothing(seq![first]);
                    }
                },
            }
        },
        Loading::NotReadable => {
            let message = text::cat2(
                CONFIG_PATH,
                " is not readable here; values are checked through gazed, but the file itself is not inspected for unknown keys",
            );
            report.pass("Configuration", message.as_str());
        },
        Loading::Failed(error) => {
            let message = text::cat4("could not load ", CONFIG_PATH, ": ", error.as_str());
            report.error(
                "Configuration",
                message.as_str(),
                "Check the file and fix its TOML syntax, then run `sudo systemctl restart gazed`.",
            );
        },
    }
}

/// What is said of the configuration file: whether it exists, who owns it, whether it parses, and
/// what its values are.
pub open spec fn config_file_findings(
    exists: bool,
    ownership: Result<Ownership, String>,
    loading: Loading,
    config: Option<Config>,
    said: Validation,
    openvino: bool,
) -> Seq<Finding> {
    if !exists {
        seq![
            report::failing(
                "Configuration"@,
                CONFIG_PATH@ + " does not exist"@,
                "Reinstall Gaze or restore the packaged config file."@,
            ),
        ]
    } else {
        permission_findings(ownership) + loading_findings(loading, config, said, openvino)
    }
}

/// Checks the configuration file. `config` is what it holds where it parses.
pub fn check_config(
    report: &mut Report,
    exists: bool,
    ownership: &Result<Ownership, String>,
    loading: &Loading,
    config: Option<&Config>,
    said: &Validation,
    openvino: bool,
)
    ensures
        final(report)@ == old(report)@ + config_file_findings(
            exists,
            *ownership,
            *loading,
            match config {
                Some(config) => Some(*config),
                None => None,
            },
            *said,
            openvino,
        ),
{
    if !exists {
        let message = text::cat2(CONFIG_PATH, " does not exist");
        report.error(
            "Configuration",
            message.as_str(),
            "Reinstall Gaze or restore the packaged config file.",
        );
        return;
    }
    check_config_permissions(report, ownership);
    add_loading(report, loading, config, said, openvino);
    proof {
        report::lemma_then(
            old(report)@,
            permission_findings(*ownership),
            loading_findings(
                *loading,
                match config {
                    Some(config) => Some(*config),
                    None => None,
                },
                *said,
                openvino,
            ),
        );
    }
}

/// Every finding has one level, and says what to do.
pub open spec fn all_of_level(findings: Seq<Finding>, level: Level) -> bool {
    forall|i: int|
        0 <= i < findings.len() ==> ((#[trigger] findings[i]).level == level && findings[i].fix
            is Some)
}

/// The values of a configuration are called valid exactly when no value is wrong: what is wrong is
/// reported as errors and what is doubtful as warnings, and nothing else passes.
#[verifier::spinoff_prover]
#[verifier::rlimit(60)]
pub proof fn values_pass_only_without_errors(config: Config, said: Validation, openvino: bool)
    ensures
        all_of_level(value_errors(config, said, openvino), Level::Error),
        all_of_level(value_warnings(config), Level::Warning),
        value_findings(config, said, openvino)[0].level == Level::Pass <==> value_errors(
            config,
            said,
            openvino,
        ).len() == 0,
        report::actionable(value_findings(config, said, openvino)),
{
    let rgb = text::trimmed(config.cameras.rgb@, CharClass::White);
    assert(all_of_level(security_findings(said.security@), Level::Error));
    assert(all_of_level(rgb_source_findings(rgb), Level::Error));
    assert(all_of_level(liveness_findings(config.liveness), Level::Error));
    let errors = value_errors(config, said, openvino);
    assert(all_of_level(errors, Level::Error));
    assert(all_of_level(value_warnings(config), Level::Warning));
    if errors.len() > 0 {
        assert(value_findings(config, said, openvino)[0] == errors[0]);
    }
}

/// A file's permissions pass exactly when root owns it and neither the group nor others may write to
/// it. Everything else is an error.
pub proof fn a_config_passes_only_where_root_alone_writes(
    facts: Ownership,
    error: String,
)
    ensures
        permission_findings(Ok(facts)).len() == 1,
        permission_findings(Ok(facts))[0].level == Level::Pass <==> facts.uid == 0 && facts.mode
            & 0o020 == 0 && facts.mode & 0o002 == 0,
        permission_findings(Ok(facts))[0].level != Level::Pass ==> permission_findings(
            Ok(facts),
        )[0].level == Level::Error,
        permission_findings(Err(error)).len() == 1,
        permission_findings(Err(error))[0].level == Level::Error,
{
    let mode = facts.mode;
    assert((mode & 0o777) & 0o022 == 0 <==> mode & 0o020 == 0 && mode & 0o002 == 0) by (bit_vector);
}

/// A colour source is called invalid exactly where it could not be opened: where it is set and what it
/// stands for is refused.
pub proof fn an_invalid_source_is_one_that_is_refused(rgb: Seq<char>)
    requires
        text::trimmed(rgb, CharClass::White) == rgb,
    ensures
        rgb_source_findings(rgb).len() <= 1,
        rgb_source_findings(rgb).len() == 0 <==> rgb.len() == 0 || !(camera::classified(rgb, true)
            is Refused),
{
    reveal_strlit("primary");
    reveal_strlit("usb:");
    reveal_strlit("/dev/video");
    if text::starts(rgb, "/dev/video"@) {
        assert(rgb.take(10)[0] == rgb[0]);
        assert(!text::starts(rgb, "usb:"@)) by {
            if text::starts(rgb, "usb:"@) {
                assert(rgb.take(4)[0] == rgb[0]);
            }
        }
        assert(rgb != "primary"@) by {
            assert("primary"@[0] == 'p');
        }
    }
    if rgb == "primary"@ {
        assert(!text::starts(rgb, "usb:"@)) by {
            assert(rgb.take(4)[0] == 'p');
        }
        assert(!text::starts(rgb, "/dev/video"@));
    }
}

/// The liveness values are checked only where liveness is on: the threshold must lie from 0.1 to 1, and
/// the seconds from 0.2 to 30, each by the bits of the number.
pub proof fn liveness_values_are_bounded(liveness: config::LivenessConfig)
    ensures
        !liveness.enabled ==> liveness_findings(liveness).len() == 0,
        liveness.enabled ==> liveness_findings(liveness).len() == (if 0x3fb9_9999_9999_999a
            <= liveness.threshold.bits <= 0x3ff0_0000_0000_0000 {
            0int
        } else {
            1int
        }) + (if 0x3fc9_9999_9999_999a <= liveness.max_seconds.bits <= 0x403e_0000_0000_0000 {
            0int
        } else {
            1int
        }),
{
}

/// Every complaint of the validation is passed on as an error, each security setting's on its own.
pub proof fn complaints_are_passed_on(
    said: Option<String>,
    fix: Seq<char>,
    errors: Seq<config::SecurityError>,
    i: int,
)
    ensures
        said is None ==> complaint(said, fix).len() == 0,
        said matches Some(message) ==> complaint(said, fix).len() == 1 && complaint(said, fix)[0]
            == report::failing("Config values"@, message@, fix),
        security_findings(errors).len() == errors.len(),
        0 <= i < errors.len() ==> security_findings(errors)[i].level == Level::Error
            && security_findings(errors)[i].message == errors[i].message@,
{
}

/// The values are called valid exactly when the validation said nothing, a camera is set, the colour
/// source can be opened, and the liveness values lie within their bounds.
pub proof fn values_are_valid_only_where_all_are(config: Config, said: Validation, openvino: bool)
    ensures
        ({
            let rgb = text::trimmed(config.cameras.rgb@, CharClass::White);
            let ir = text::trimmed(config.cameras.ir@, CharClass::White);
            value_errors(config, said, openvino).len() == 0 <==> {
                &&& said.security@.len() == 0
                &&& said.enrollment is None
                &&& said.cameras is None
                &&& said.inference is None
                &&& rgb.len() > 0 || ir.len() > 0
                &&& rgb_source_findings(rgb).len() == 0
                &&& liveness_findings(config.liveness).len() == 0
            }
        }),
{
}

/// A warning is given for an emitter without an infrared camera, for capturing both spectra at once
/// without a check, for liveness that is off, and for a limit of no templates, each exactly then.
pub proof fn doubtful_values_are_warned_of(config: Config)
    ensures
        ({
            let ir = text::trimmed(config.cameras.ir@, CharClass::White);
            let found = value_warnings(config);
            &&& (exists|i: int|
                0 <= i < found.len() && (#[trigger] found[i]).name == "Liveness"@)
                <==> !config.liveness.enabled
            &&& (exists|i: int|
                0 <= i < found.len() && (#[trigger] found[i]).name == "IR emitter"@)
                <==> config.cameras.emitter_enabled && ir.len() == 0
            &&& (exists|i: int|
                0 <= i < found.len() && (#[trigger] found[i]).name == "Parallel capture"@)
                <==> config.cameras.parallel_capture@ == "always"@ && ir.len() > 0
            &&& (exists|i: int|
                0 <= i < found.len() && (#[trigger] found[i]).name == "Enrollment limit"@)
                <==> config.enrollment.max_templates == 0
        }),
{
    reveal_strlit("Liveness");
    reveal_strlit("IR emitter");
    reveal_strlit("Parallel capture");
    reveal_strlit("Enrollment limit");
    let found = value_warnings(config);
    let ir = text::trimmed(config.cameras.ir@, CharClass::White);
    let emitter = config.cameras.emitter_enabled && ir.len() == 0;
    let parallel = config.cameras.parallel_capture@ == "always"@ && ir.len() > 0;
    let live = !config.liveness.enabled;
    let limit = config.enrollment.max_templates == 0;
    assert("Liveness"@[0] == 'L');
    assert("IR emitter"@[0] == 'I');
    assert("Parallel capture"@[0] == 'P');
    assert("Enrollment limit"@[0] == 'E');
    let a: int = if emitter {
        1
    } else {
        0
    };
    let b: int = if parallel {
        1
    } else {
        0
    };
    let c: int = if live {
        1
    } else {
        0
    };
    if emitter {
        assert(found[0].name == "IR emitter"@);
    }
    if parallel {
        assert(found[a].name == "Parallel capture"@);
    }
    if live {
        assert(found[a + b].name == "Liveness"@);
    }
    if limit {
        assert(found[a + b + c].name == "Enrollment limit"@);
    }
}

/// A file that does not exist is an error by itself. One that exists is judged by its owner and by how
/// it loads: what cannot be loaded is an error, keys that are not read are a warning, and the values
/// are judged where it parses.
pub proof fn a_config_file_is_judged_as_far_as_it_loads(
    ownership: Result<Ownership, String>,
    loading: Loading,
    config: Option<Config>,
    said: Validation,
    openvino: bool,
)
    ensures
        config_file_findings(false, ownership, loading, config, said, openvino).len() == 1
            && config_file_findings(false, ownership, loading, config, said, openvino)[0].level
            == Level::Error,
        config_file_findings(true, ownership, loading, config, said, openvino)
            == permission_findings(ownership) + loading_findings(loading, config, said, openvino),
        loading is Failed ==> loading_findings(loading, config, said, openvino).len() == 1
            && loading_findings(loading, config, said, openvino)[0].level == Level::Error,
        loading matches Loading::Parsed { unknown } ==> {
            let found = loading_findings(loading, config, said, openvino);
            &&& found[0].level == Level::Warning <==> unknown@.len() > 0
            &&& found[0].level == Level::Pass <==> unknown@.len() == 0
            &&& config matches Some(config) ==> found.skip(1) == value_findings(
                config,
                said,
                openvino,
            )
        },
{
    if let Loading::Parsed { unknown } = loading {
        if let Some(config) = config {
            let found = loading_findings(loading, Some(config), said, openvino);
            assert(found.skip(1) =~= value_findings(config, said, openvino));
        }
    }
}

} // verus!
