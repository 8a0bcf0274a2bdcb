//! Checks of the running daemon: whether it is on the bus, what it answers, and whom it knows.

use crate::config::{Config, Validation};
use crate::cpu::UNSUPPORTED_CPU_FIX;
use crate::doctor::cameras::{check_cameras, CameraFacts};
use crate::doctor::settings::{add_checks, config_findings};
use crate::doctor::system::{check_tpm, DaemonCredentials, TpmNode};
use crate::doctor::{cameras, settings, system};
use crate::report::{Finding, Report};
use crate::text::CharClass;
use crate::{report, text};
use vstd::prelude::*;

verus! {

pub const DAEMON_TIMEOUT_MS: u64 = 5000;

pub const DAEMON_READY_TIMEOUT_MS: u64 = 25000;

pub const BENCHMARK_TIMEOUT_MS: u64 = 30000;

pub const RETRY_INTERVAL_MS: u64 = 250;

/// How long a daemon that is starting may take to appear: models may still be downloading.
pub fn ready_wait_ms(service_state: &str) -> (r: u64)
    ensures
        r == (if service_state@ == "active"@ {
            DAEMON_READY_TIMEOUT_MS
        } else {
            0
        }),
{
    if text::str_eq(service_state, "active") {
        DAEMON_READY_TIMEOUT_MS
    } else {
        0
    }
}

/// What is left of a budget of time.
pub fn remaining_ms(budget: u64, elapsed: u64) -> (r: u64)
    ensures
        r as int == (if elapsed < budget {
            budget - elapsed
        } else {
            0
        }),
{
    if elapsed < budget {
        budget - elapsed
    } else {
        0
    }
}

/// What to do after an attempt.
#[derive(Clone, Copy, PartialEq, Eq, Structural, Debug)]
pub enum Attempt {
    Done,
    GiveUp,
    Retry,
}

/// Whether to ask once more who owns the daemon's bus name. One attempt is always made.
pub fn name_attempt(owned: bool, now: u64, deadline: u64) -> (r: Attempt)
    ensures
        r == (if owned {
            Attempt::Done
        } else if now >= deadline {
            Attempt::GiveUp
        } else {
            Attempt::Retry
        }),
{
    if owned {
        Attempt::Done
    } else if now >= deadline {
        Attempt::GiveUp
    } else {
        Attempt::Retry
    }
}

/// Whether to ask once more for the configuration: only while the daemon is not there yet.
pub fn config_attempt(answered: bool, not_activatable: bool, now: u64, deadline: u64) -> (r: Attempt)
    ensures
        r == (if answered {
            Attempt::Done
        } else if not_activatable && now < deadline {
            Attempt::Retry
        } else {
            Attempt::GiveUp
        }),
{
    if answered {
        Attempt::Done
    } else if not_activatable && now < deadline {
        Attempt::Retry
    } else {
        Attempt::GiveUp
    }
}

/// How a question to the daemon was answered.
pub enum ConfigReply {
    Loaded(Config, Validation),
    /// The daemon left the bus in between.
    Left,
    Failed(String),
    TimedOut,
}

pub enum AvailabilityReply {
    Available(bool),
    Failed(String),
    TimedOut,
}

/// An enrolled face: which spectra it has captures of.
#[derive(Clone, Copy)]
pub struct FaceCoverage {
    pub has_rgb: bool,
    pub has_ir: bool,
}

pub enum FacesReply {
    Listed(Vec<FaceCoverage>),
    NoFile,
    Failed(String),
    TimedOut,
}

/// A measurement of one model, its numbers as they are shown.
pub struct BenchmarkResult {
    pub component: String,
    pub execution_provider: String,
    pub device: String,
    pub mean_ms: String,
    pub fps: String,
    pub p95_ms: String,
    pub min_ms: String,
    pub requested_execution_provider: String,
    pub requested_device: String,
    pub fallback_reason: String,
    pub ran_as_configured: bool,
}

pub enum BenchmarkReply {
    Measured(Vec<BenchmarkResult>),
    Unreadable,
    Failed(String),
    TimedOut,
}

/// What the daemon answered once it was on the bus.
pub struct Answers {
    pub config: ConfigReply,
    pub availability: AvailabilityReply,
    pub faces: FacesReply,
    pub benchmark: Option<BenchmarkReply>,
}

/// How far the daemon was reached.
pub enum Reach {
    NoBus(String),
    BusTimedOut,
    NotOnBus,
    OnBus(Answers),
}

pub open spec fn not_on_bus_finding(state: Seq<char>, inference: bool) -> Finding {
    if !inference {
        report::failing(
            "DBus"@,
            "gazed cannot run on this CPU (no AVX2), so it never reaches the system bus"@,
            UNSUPPORTED_CPU_FIX@,
        )
    } else if state == "active"@ {
        report::failing(
            "DBus"@,
            "gazed is running but has not claimed com.gundulabs.Gaze yet (models may be downloading)"@,
            "Wait for the first-run model download to finish, then re-run `gaze doctor`."@,
        )
    } else {
        report::failing(
            "DBus"@,
            "gazed is not on the system bus (the service is "@ + (if state.len() == 0 {
                "not reporting a state"@
            } else {
                state
            }) + ")"@,
            "Run `sudo systemctl start gazed`, then `journalctl -u gazed -n 100 --no-pager` if it does not stay up."@,
        )
    }
}

fn report_not_on_bus(report: &mut Report, state: &str, inference: bool)
    ensures
        final(report)@ == old(report)@ + seq![not_on_bus_finding(state@, inference)],
{
    if !inference {
        report.error(
            "DBus",
            "gazed cannot run on this CPU (no AVX2), so it never reaches the system bus",
            UNSUPPORTED_CPU_FIX,
        );
    } else if text::str_eq(state, "active") {
        report.error(
            "DBus",
            "gazed is running but has not claimed com.gundulabs.Gaze yet (models may be downloading)",
            "Wait for the first-run model download to finish, then re-run `gaze doctor`.",
        );
    } else {
        let shown = if state.is_empty() {
            "not reporting a state"
        } else {
            state
        };
        let message = text::cat3("gazed is not on the system bus (the service is ", shown, ")");
        report.error(
            "DBus",
            message.as_str(),
            "Run `sudo systemctl start gazed`, then `journalctl -u gazed -n 100 --no-pager` if it does not stay up.",
        );
    }
}

/// What was gathered for the checks that a configuration calls for.
pub struct Surroundings {
    pub openvino: bool,
    pub tpm_nodes: Vec<TpmNode>,
    pub credentials: Option<DaemonCredentials>,
    pub cameras: CameraFacts,
}

pub open spec fn credentials_given(credentials: Option<DaemonCredentials>) -> Option<
    (u32, Seq<u32>, bool),
> {
    match credentials {
        Some(found) => Some(system::credentials_view(found)),
        None => None,
    }
}

/// What is said of the daemon's own configuration. Its values are checked only where the file could
/// not be read.
pub open spec fn daemon_config_findings(
    reply: ConfigReply,
    file: Option<Config>,
    around: Surroundings,
) -> Seq<Finding> {
    match reply {
        ConfigReply::Loaded(config, said) => seq![
            report::passing("Daemon"@, "gazed responded to a configuration request"@),
        ] + (if file is None {
            settings::value_findings(config, said, around.openvino) + system::tpm_findings(
                Some(config),
                around.tpm_nodes@,
                credentials_given(around.credentials),
            )
        } else {
            seq![]
        }),
        ConfigReply::Left => seq![
            report::failing(
                "Daemon"@,
                "gazed left the system bus while doctor was querying it"@,
                "Run `journalctl -u gazed -n 100 --no-pager` to see why it exited."@,
            ),
        ],
        ConfigReply::Failed(error) => seq![
            report::failing(
                "Daemon"@,
                "gazed did not return its configuration: "@ + error@,
                "Restart gazed and inspect its journal."@,
            ),
        ],
        ConfigReply::TimedOut => seq![
            report::failing(
                "Daemon"@,
                "gazed timed out while reading its configuration"@,
                "Restart gazed and inspect its journal."@,
            ),
        ],
    }
}

fn borrowed_credentials(credentials: &Option<DaemonCredentials>) -> (r: Option<&DaemonCredentials>)
    ensures
        match r {
            Some(found) => *credentials == Some(*found),
            None => credentials is None,
        },
{
    match credentials {
        Some(found) => Some(found),
        None => None,
    }
}

fn check_daemon_config(
    report: &mut Report,
    reply: &ConfigReply,
    file: Option<&Config>,
    around: &Surroundings,
)
    ensures
        final(report)@ == old(report)@ + daemon_config_findings(
            *reply,
            system::given(file),
            *around,
        ),
{
    match reply {
        ConfigReply::Loaded(config, said) => {
            let ghost start = report@;
            let ghost a = seq![
                report::passing("Daemon"@, "gazed responded to a configuration request"@),
            ];
            report.pass("Daemon", "gazed responded to a configuration request");
            if file.is_none() {
                add_checks(report, config_findings(config, said, around.openvino));
                check_tpm(
                    report,
                    Some(config),
                    &around.tpm_nodes,
                    borrowed_credentials(&around.credentials),
                );
                proof {
                    let b = settings::value_findings(*config, *said, around.openvino);
                    let c = system::tpm_findings(
                        Some(*config),
                        around.tpm_nodes@,
                        credentials_given(around.credentials),
                    );
                    report::lemma_then(start + a, b, c);
                    report::lemma_then(start, a, b + c);
                }
            } else {
                proof {
                    report::lemma_nothing(a);
                }
            }
        },
        ConfigReply::Left => {
            report.error(
                "Daemon",
                "gazed left the system bus while doctor was querying it",
                "Run `journalctl -u gazed -n 100 --no-pager` to see why it exited.",
            );
        },
        ConfigReply::Failed(error) => {
            let message = text::cat2("gazed did not return its configuration: ", error.as_str());
            report.error("Daemon", message.as_str(), "Restart gazed and inspect its journal.");
        },
        ConfigReply::TimedOut => {
            report.error(
                "Daemon",
                "gazed timed out while reading its configuration",
                "Restart gazed and inspect its journal.",
            );
        },
    }
}

pub open spec fn availability_finding(reply: AvailabilityReply) -> Finding {
    match reply {
        AvailabilityReply::Available(true) => report::passing(
            "Camera session"@,
            "the daemon can access the current PipeWire session"@,
        ),
        AvailabilityReply::Available(false) => report::failing(
            "Camera session"@,
            "the daemon cannot find a usable PipeWire runtime for this session"@,
            "Run this command from a local graphical session and verify /run/user/$UID/pipewire-0 exists."@,
        ),
        AvailabilityReply::Failed(error) => report::failing(
            "Camera session"@,
            "availability check failed: "@ + error@,
            "Inspect the gazed journal for PipeWire or login-session errors."@,
        ),
        AvailabilityReply::TimedOut => report::failing(
            "Camera session"@,
            "availability check timed out"@,
            "Restart gazed and inspect its journal."@,
        ),
    }
}

fn check_availability(report: &mut Report, reply: &AvailabilityReply)
    ensures
        final(report)@ == old(report)@ + seq![availability_finding(*reply)],
{
    match reply {
        AvailabilityReply::Available(true) => {
            report.pass("Camera session", "the daemon can access the current PipeWire session");
        },
        AvailabilityReply::Available(false) => {
            report.error(
                "Camera session",
                "the daemon cannot find a usable PipeWire runtime for this session",
                "Run this command from a local graphical session and verify /run/user/$UID/pipewire-0 exists.",
            );
        },
        AvailabilityReply::Failed(error) => {
            let message = text::cat2("availability check failed: ", error.as_str());
            report.error(
                "Camera session",
                message.as_str(),
                "Inspect the gazed journal for PipeWire or login-session errors.",
            );
        },
        AvailabilityReply::TimedOut => {
            report.error(
                "Camera session",
                "availability check timed out",
                "Restart gazed and inspect its journal.",
            );
        },
    }
}

/// Some face has no capture of a spectrum.
pub open spec fn lacks(faces: Seq<FaceCoverage>, rgb: bool) -> bool {
    exists|i: int|
        0 <= i < faces.len() && !(if rgb {
            (#[trigger] faces[i]).has_rgb
        } else {
            faces[i].has_ir
        })
}

fn some_lack(faces: &Vec<FaceCoverage>, rgb: bool) -> (r: bool)
    ensures
        r == lacks(faces@, rgb),
{
    for i in 0..faces.len()
        invariant
            forall|j: int|
                0 <= j < i ==> (if rgb {
                    (#[trigger] faces@[j]).has_rgb
                } else {
                    faces@[j].has_ir
                }),
    {
        let covered = if rgb {
            faces[i].has_rgb
        } else {
            faces[i].has_ir
        };
        if !covered {
            proof {
                assert(!(if rgb {
                    faces@[i as int].has_rgb
                } else {
                    faces@[i as int].has_ir
                }));
            }
            return true;
        }
    }
    false
}

pub open spec fn coverage_finding(config: Config, faces: Seq<FaceCoverage>) -> Finding {
    let rgb = text::trimmed(config.cameras.rgb@, CharClass::White).len() > 0 && lacks(faces, true);
    let ir = text::trimmed(config.cameras.ir@, CharClass::White).len() > 0 && lacks(faces, false);
    if rgb || ir {
        report::warned(
            "Enrollment coverage"@,
            "one or more profiles have no "@ + (if rgb && ir {
                "RGB and IR"@
            } else if rgb {
                "RGB"@
            } else {
                "IR"@
            }) + " captures"@,
            "Run `gaze refine-face <name>` for profiles missing configured camera spectra."@,
        )
    } else {
        report::passing(
            "Enrollment coverage"@,
            "all profiles cover the configured camera spectra"@,
        )
    }
}

fn check_coverage(report: &mut Report, config: &Config, faces: &Vec<FaceCoverage>)
    ensures
        final(report)@ == old(report)@ + seq![coverage_finding(*config, faces@)],
{
    let rgb_chars = text::chars(config.cameras.rgb.as_str());
    let ir_chars = text::chars(config.cameras.ir.as_str());
    let rgb = text::trim(rgb_chars.as_slice(), CharClass::White).len() > 0 && some_lack(
        faces,
        true,
    );
    let ir = text::trim(ir_chars.as_slice(), CharClass::White).len() > 0 && some_lack(faces, false);
    if rgb || ir {
        let spectra = if rgb && ir {
            "RGB and IR"
        } else if rgb {
            "RGB"
        } else {
            "IR"
        };
        let message = text::cat3("one or more profiles have no ", spectra, " captures");
        report.warning(
            "Enrollment coverage",
            message.as_str(),
            "Run `gaze refine-face <name>` for profiles missing configured camera spectra.",
        );
    } else {
        report.pass("Enrollment coverage", "all profiles cover the configured camera spectra");
    }
}

pub open spec fn no_faces_finding(username: Seq<char>) -> Finding {
    report::warned(
        "Enrollment"@,
        "no faces are enrolled for "@ + username,
        "Run `gaze add-face default`."@,
    )
}

pub open spec fn enrollment_findings(
    username: Seq<char>,
    config: Option<Config>,
    reply: FacesReply,
) -> Seq<Finding> {
    match reply {
        FacesReply::Listed(faces) => if faces@.len() == 0 {
            seq![no_faces_finding(username)]
        } else {
            seq![
                report::passing(
                    "Enrollment"@,
                    text::decimal(faces@.len()) + " face profile(s) enrolled for "@ + username,
                ),
            ] + (match config {
                Some(config) => seq![coverage_finding(config, faces@)],
                None => seq![],
            })
        },
        FacesReply::NoFile => seq![no_faces_finding(username)],
        FacesReply::Failed(error) => seq![
            report::failing(
                "Enrollment"@,
                "could not list faces for "@ + username + ": "@ + error@,
                "Run `gaze list-faces` and inspect the daemon journal."@,
            ),
        ],
        FacesReply::TimedOut => seq![
            report::failing(
                "Enrollment"@,
                "timed out while checking faces for "@ + username,
                "Restart gazed and inspect its journal."@,
            ),
        ],
    }
}

fn report_no_faces(report: &mut Report, username: &str)
    ensures
        final(report)@ == old(report)@ + seq![no_faces_finding(username@)],
{
    let message = text::cat2("no faces are enrolled for ", username);
    report.warning("Enrollment", message.as_str(), "Run `gaze add-face default`.");
}

fn check_enrollment(
    report: &mut Report,
    username: &str,
    config: Option<&Config>,
    reply: &FacesReply,
)
    ensures
        final(report)@ == old(report)@ + enrollment_findings(
            username@,
            system::given(config),
            *reply,
        ),
{
    match reply {
        FacesReply::Listed(faces) => {
            if faces.len() == 0 {
                report_no_faces(report, username);
                return;
            }
            let ghost start = report@;
            let count = text::decimal_text(faces.len() as u64);
            let message = text::cat3(count.as_str(), " face profile(s) enrolled for ", username);
            report.pass("Enrollment", message.as_str());
            let ghost first = seq![report::passing("Enrollment"@, message@)];
            match config {
                Some(config) => {
                    check_coverage(report, config, faces);
                    proof {
                        report::lemma_then(start, first, seq![coverage_finding(*config, faces@)]);
                    }
                },
                None => {
                    proof {
                        report::lemma_nothing(first);
                    }
                },
            }
        },
        FacesReply::NoFile => {
            report_no_faces(report, username);
        },
        FacesReply::Failed(error) => {
            let message = text::cat4(
                "could not list faces for ",
                username,
                ": ",
                error.as_str(),
            );
            report.error(
                "Enrollment",
                message.as_str(),
                "Run `gaze list-faces` and inspect the daemon journal.",
            );
        },
        FacesReply::TimedOut => {
            let message = text::cat2("timed out while checking faces for ", username);
            report.error("Enrollment", message.as_str(), "Restart gazed and inspect its journal.");
        },
    }
}

pub open spec fn timings(result: BenchmarkResult) -> Seq<char> {
    result.component@ + " ["@ + result.execution_provider@ + " / "@ + result.device@ + "]: "@
        + result.mean_ms@ + "ms avg ("@ + result.fps@ + " fps), "@ + result.p95_ms@ + "ms p95, "@
        + result.min_ms@ + "ms min"@
}

pub open spec fn benchmark_finding(result: BenchmarkResult) -> Finding {
    if result.ran_as_configured {
        report::passing("Benchmark"@, timings(result))
    } else {
        report::warned(
            "Benchmark"@,
            timings(result) + "; configured "@ + result.requested_execution_provider@ + "/"@
                + result.requested_device@ + " is not in use: "@ + (
            if result.fallback_reason@.len() == 0 {
                "no reason reported"@
            } else {
                result.fallback_reason@
            }),
            "Check the gazed journal for the OpenVINO setup error, or set [inference] back to cpu/cpu."@,
        )
    }
}

pub open spec fn benchmark_findings(reply: BenchmarkReply) -> Seq<Finding> {
    match reply {
        BenchmarkReply::Measured(results) => Seq::new(
            results@.len(),
            |i: int| benchmark_finding(results@[i]),
        ),
        BenchmarkReply::Unreadable => seq![
            report::warned(
                "Benchmark"@,
                "the running daemon reports a benchmark layout this build cannot read"@,
                "Restart it with `systemctl restart gazed`."@,
            ),
        ],
        BenchmarkReply::Failed(error) => seq![
            report::warned(
                "Benchmark"@,
                "gazed could not run the benchmark: "@ + error@,
                "Restart gazed and inspect its journal."@,
            ),
        ],
        BenchmarkReply::TimedOut => seq![
            report::warned(
                "Benchmark"@,
                "benchmark timed out"@,
                "Restart gazed and inspect its journal."@,
            ),
        ],
    }
}

fn report_benchmark(report: &mut Report, result: &BenchmarkResult)
    ensures
        final(report)@ == old(report)@ + seq![benchmark_finding(*result)],
{
    let mut shown = text::cat5(
        result.component.as_str(),
        " [",
        result.execution_provider.as_str(),
        " / ",
        result.device.as_str(),
    );
    shown.append("]: ");
    shown.append(result.mean_ms.as_str());
    shown.append("ms avg (");
    shown.append(result.fps.as_str());
    shown.append(" fps), ");
    shown.append(result.p95_ms.as_str());
    shown.append("ms p95, ");
    shown.append(result.min_ms.as_str());
    shown.append("ms min");
    if result.ran_as_configured {
        report.pass("Benchmark", shown.as_str());
    } else {
        shown.append("; configured ");
        shown.append(result.requested_execution_provider.as_str());
        shown.append("/");
        shown.append(result.requested_device.as_str());
        shown.append(" is not in use: ");
        shown.append(
            if result.fallback_reason.as_str().is_empty() {
                "no reason reported"
            } else {
                result.fallback_reason.as_str()
            },
        );
        report.warning(
            "Benchmark",
            shown.as_str(),
            "Check the gazed journal for the OpenVINO setup error, or set [inference] back to cpu/cpu.",
        );
    }
}

fn report_benchmarks(report: &mut Report, results: &Vec<BenchmarkResult>)
    ensures
        final(report)@ == old(report)@ + Seq::new(
            results@.len(),
            |i: int| benchmark_finding(results@[i]),
        ),
{
    let ghost all = Seq::new(results@.len(), |i: int| benchmark_finding(results@[i]));
    proof {
        assert(report@ =~= old(report)@ + all.take(0));
    }
    for i in 0..results.len()
        invariant
            all == Seq::new(results@.len(), |i: int| benchmark_finding(results@[i])),
            report@ == old(report)@ + all.take(i as int),
    {
        report_benchmark(report, &results[i]);
        proof {
            text::lemma_take_push(all, i as int);
            assert(report@ =~= old(report)@ + all.take(i as int + 1));
        }
    }
    proof {
        assert(all.take(results@.len() as int) =~= all);
    }
}

pub fn check_benchmark(report: &mut Report, reply: &BenchmarkReply)
    ensures
        final(report)@ == old(report)@ + benchmark_findings(*reply),
{
    match reply {
        BenchmarkReply::Measured(results) => {
            report_benchmarks(report, results);
        },
        BenchmarkReply::Unreadable => {
            report.warning(
                "Benchmark",
                "the running daemon reports a benchmark layout this build cannot read",
                "Restart it with `systemctl restart gazed`.",
            );
        },
        BenchmarkReply::Failed(error) => {
            let message = text::cat2("gazed could not run the benchmark: ", error.as_str());
            report.warning("Benchmark", message.as_str(), "Restart gazed and inspect its journal.");
        },
        BenchmarkReply::TimedOut => {
            report.warning(
                "Benchmark",
                "benchmark timed out",
                "Restart gazed and inspect its journal.",
            );
        },
    }
}

/// The configuration that the later checks go by: the file's, or else the daemon's.
pub open spec fn config_in_force(file: Option<Config>, reply: ConfigReply) -> Option<Config> {
    match file {
        Some(config) => Some(config),
        None => match reply {
            ConfigReply::Loaded(config, _) => Some(config),
            _ => None,
        },
    }
}

pub open spec fn answer_findings(
    username: Seq<char>,
    file: Option<Config>,
    answers: Answers,
    around: Surroundings,
) -> Seq<Finding> {
    let config = config_in_force(file, answers.config);
    seq![
        report::passing("DBus"@, "gazed owns com.gundulabs.Gaze on the system bus"@),
    ] + (daemon_config_findings(answers.config, file, around) + (seq![
        availability_finding(answers.availability),
    ] + (cameras::camera_findings(config, around.cameras) + (enrollment_findings(
        username,
        config,
        answers.faces,
    ) + (match answers.benchmark {
        Some(reply) => benchmark_findings(reply),
        None => seq![],
    })))))
}

fn check_answers(
    report: &mut Report,
    username: &str,
    file: Option<&Config>,
    answers: &Answers,
    around: &Surroundings,
)
    ensures
        final(report)@ == old(report)@ + answer_findings(
            username@,
            system::given(file),
            *answers,
            *around,
        ),
{
    let ghost start = report@;
    report.pass("DBus", "gazed owns com.gundulabs.Gaze on the system bus");
    check_daemon_config(report, &answers.config, file, around);
    let config = match file {
        Some(config) => Some(config),
        None => match &answers.config {
            ConfigReply::Loaded(config, _) => Some(config),
            _ => None,
        },
    };
    let ghost force = config_in_force(system::given(file), answers.config);
    proof {
        assert(system::given(config) == force);
    }
    check_availability(report, &answers.availability);
    check_cameras(report, config, &around.cameras);
    check_enrollment(report, username, config, &answers.faces);
    let ghost a = seq![
        report::passing("DBus"@, "gazed owns com.gundulabs.Gaze on the system bus"@),
    ];
    let ghost b = daemon_config_findings(answers.config, system::given(file), *around);
    let ghost c = seq![availability_finding(answers.availability)];
    let ghost d = cameras::camera_findings(force, around.cameras);
    let ghost e = enrollment_findings(username@, force, answers.faces);
    let ghost mut f = Seq::<Finding>::empty();
    proof {
        report::lemma_nothing(report@);
    }
    if let Some(reply) = &answers.benchmark {
        check_benchmark(report, reply);
        proof {
            f = benchmark_findings(*reply);
        }
    }
    proof {
        assert(report@ == start + a + b + c + d + e + f);
        report::lemma_then(start + a + b + c + d, e, f);
        report::lemma_then(start + a + b + c, d, e + f);
        report::lemma_then(start + a + b, c, d + (e + f));
        report::lemma_then(start + a, b, c + (d + (e + f)));
        report::lemma_then(start, a, b + (c + (d + (e + f))));
    }
}

/// What is said of the daemon. Where it is not on the bus every later question would fail the same
/// way, so the cause is reported once, and only the cameras are checked.
pub open spec fn daemon_findings(
    username: Seq<char>,
    file: Option<Config>,
    state: Seq<char>,
    inference: bool,
    reach: Reach,
    around: Surroundings,
) -> Seq<Finding> {
    match reach {
        Reach::NoBus(error) => seq![
            report::failing(
                "DBus"@,
                "could not reach the system bus: "@ + error@,
                "Run `systemctl status dbus` and confirm the system bus socket exists."@,
            ),
        ] + cameras::camera_findings(file, around.cameras),
        Reach::BusTimedOut => seq![
            report::failing(
                "DBus"@,
                "timed out connecting to the system bus"@,
                "Run `systemctl status dbus` and confirm the system bus socket exists."@,
            ),
        ] + cameras::camera_findings(file, around.cameras),
        Reach::NotOnBus => seq![not_on_bus_finding(state, inference)] + cameras::camera_findings(
            file,
            around.cameras,
        ),
        Reach::OnBus(answers) => answer_findings(username, file, answers, around),
    }
}

/// Checks the daemon. `state` is what `systemctl is-active gazed` says, empty where it says nothing.
pub fn check_daemon(
    report: &mut Report,
    username: &str,
    file: Option<&Config>,
    state: &str,
    inference: bool,
    reach: &Reach,
    around: &Surroundings,
)
    ensures
        final(report)@ == old(report)@ + daemon_findings(
            username@,
            system::given(file),
            state@,
            inference,
            *reach,
            *around,
        ),
{
    let ghost start = report@;
    let ghost later = cameras::camera_findings(system::given(file), around.cameras);
    match reach {
        Reach::NoBus(error) => {
            let message = text::cat2("could not reach the system bus: ", error.as_str());
            report.error(
                "DBus",
                message.as_str(),
                "Run `systemctl status dbus` and confirm the system bus socket exists.",
            );
            check_cameras(report, file, &around.cameras);
            proof {
                report::lemma_then(
                    start,
                    seq![
                        report::failing(
                            "DBus"@,
                            message@,
                            "Run `systemctl status dbus` and confirm the system bus socket exists."@,
                        ),
                    ],
                    later,
                );
            }
        },
        Reach::BusTimedOut => {
            report.error(
                "DBus",
                "timed out connecting to the system bus",
                "Run `systemctl status dbus` and confirm the system bus socket exists.",
            );
            check_cameras(report, file, &around.cameras);
            proof {
                report::lemma_then(
                    start,
                    seq![
                        report::failing(
                            "DBus"@,
                            "timed out connecting to the system bus"@,
                            "Run `systemctl status dbus` and confirm the system bus socket exists."@,
                        ),
                    ],
                    later,
                );
            }
        },
        Reach::NotOnBus => {
            report_not_on_bus(report, state, inference);
            check_cameras(report, file, &around.cameras);
            proof {
                report::lemma_then(start, seq![not_on_bus_finding(state@, inference)], later);
            }
        },
        Reach::OnBus(answers) => {
            check_answers(report, username, file, answers, around);
        },
    }
}

/// A daemon is called unreachable whatever its state, and a processor that it cannot run on is named
/// first.
pub proof fn an_absent_daemon_is_an_error(state: Seq<char>, inference: bool)
    ensures
        not_on_bus_finding(state, inference).level == report::Level::Error,
        not_on_bus_finding(state, inference).fix is Some,
        !inference ==> not_on_bus_finding(state, inference) == not_on_bus_finding(seq![], false),
        inference && state.len() > 0 && state != "active"@ ==> text::starts(
            not_on_bus_finding(state, inference).message.skip(47),
            state,
        ),
{
    reveal_strlit("gazed is not on the system bus (the service is ");
    let lead = "gazed is not on the system bus (the service is "@;
    if inference && state.len() > 0 && state != "active"@ {
        let message = not_on_bus_finding(state, inference).message;
        assert(message.skip(47) =~= lead.skip(47) + state + ")"@);
        assert(message.skip(47).take(state.len() as int) =~= state);
    }
}

/// The coverage of the enrolled faces passes exactly when every face has captures of every spectrum
/// that a camera is set for.
pub proof fn coverage_passes_only_where_every_face_is_covered(
    config: Config,
    faces: Seq<FaceCoverage>,
)
    ensures
        ({
            let rgb = text::trimmed(config.cameras.rgb@, CharClass::White);
            let ir = text::trimmed(config.cameras.ir@, CharClass::White);
            coverage_finding(config, faces).level == report::Level::Pass <==> forall|i: int|
                0 <= i < faces.len() ==> (rgb.len() > 0 ==> (#[trigger] faces[i]).has_rgb) && (
                ir.len() > 0 ==> faces[i].has_ir)
        }),
        coverage_finding(config, faces).level != report::Level::Pass ==> coverage_finding(
            config,
            faces,
        ).level == report::Level::Warning,
{
    let rgb = text::trimmed(config.cameras.rgb@, CharClass::White).len() > 0;
    let ir = text::trimmed(config.cameras.ir@, CharClass::White).len() > 0;
    if !(rgb && lacks(faces, true)) && !(ir && lacks(faces, false)) {
        assert forall|i: int| 0 <= i < faces.len() implies (rgb ==> (#[trigger] faces[i]).has_rgb)
            && (ir ==> faces[i].has_ir) by {}
    }
}

/// A user without faces is warned of it, whether the daemon lists none or has no file; a user with
/// faces is told how many, and of their coverage where a configuration is known. An answer that did
/// not come is an error.
pub proof fn a_user_has_faces_or_is_told_so(
    username: Seq<char>,
    config: Option<Config>,
    reply: FacesReply,
)
    ensures
        ({
            let found = enrollment_findings(username, config, reply);
            &&& found[0].level == report::Level::Pass <==> (reply matches FacesReply::Listed(faces)
                && faces@.len() > 0)
            &&& found[0].level == report::Level::Warning <==> reply is NoFile || (
            reply matches FacesReply::Listed(faces) && faces@.len() == 0)
            &&& found[0].level == report::Level::Error <==> reply is Failed || reply is TimedOut
            &&& found.len() == 2 <==> found[0].level == report::Level::Pass && config is Some
            &&& 1 <= found.len() <= 2
            &&& text::ends(found[0].message, username) || reply is Failed
            &&& found.len() == 2 ==> (reply matches FacesReply::Listed(faces)
                && found[1] == coverage_finding(config->0, faces@))
        }),
{
    let found = enrollment_findings(username, config, reply);
    let message = found[0].message;
    if !(reply is Failed) {
        assert(message.skip(message.len() - username.len()) =~= username);
    }
}

/// Every measurement is reported by itself, in the order given, and passes exactly where the model ran
/// as configured.
pub proof fn every_measurement_is_reported(results: Vec<BenchmarkResult>, i: int)
    requires
        0 <= i < results@.len(),
    ensures
        ({
            let found = benchmark_findings(BenchmarkReply::Measured(results));
            &&& found.len() == results@.len()
            &&& found[i].level == report::Level::Pass <==> results@[i].ran_as_configured
            &&& found[i].level == report::Level::Warning <==> !results@[i].ran_as_configured
            &&& text::starts(found[i].message, results@[i].component@)
            &&& results@[i].ran_as_configured ==> found[i].message == timings(results@[i])
            &&& !results@[i].ran_as_configured ==> text::starts(
                found[i].message,
                timings(results@[i]),
            )
        }),
{
    let result = results@[i];
    let message = benchmark_finding(result).message;
    let shown = timings(result);
    assert(shown.take(result.component@.len() as int) =~= result.component@);
    assert(message.take(shown.len() as int) =~= shown);
    assert(message.take(result.component@.len() as int) =~= result.component@);
}

/// A benchmark that did not run is a warning by itself.
pub proof fn a_missing_benchmark_is_a_warning(reply: BenchmarkReply)
    requires
        !(reply is Measured),
    ensures
        benchmark_findings(reply).len() == 1,
        benchmark_findings(reply)[0].level == report::Level::Warning,
{
}

/// The configuration in the file is the one in force; the daemon's own stands in only where the file
/// gave none.
pub proof fn the_file_s_configuration_is_in_force(
    file: Config,
    own: Config,
    said: Validation,
    reply: ConfigReply,
)
    ensures
        config_in_force(Some(file), reply) == Some(file),
        config_in_force(None, ConfigReply::Loaded(own, said)) == Some(own),
        !(reply is Loaded) ==> config_in_force(None, reply) is None,
{
}

/// The daemon passes exactly when it answers with its configuration. That configuration's own values
/// are judged exactly where the file gave none.
pub proof fn a_daemon_s_configuration_is_judged_once(
    reply: ConfigReply,
    file: Option<Config>,
    around: Surroundings,
)
    ensures
        ({
            let found = daemon_config_findings(reply, file, around);
            &&& found.len() >= 1
            &&& found[0].level == report::Level::Pass <==> reply is Loaded
            &&& found[0].level == report::Level::Error <==> !(reply is Loaded)
            &&& file is Some || !(reply is Loaded) ==> found.len() == 1
            &&& file is None ==> (reply matches ConfigReply::Loaded(config, said) ==> found.skip(1)
                == settings::value_findings(config, said, around.openvino) + system::tpm_findings(
                Some(config),
                around.tpm_nodes@,
                credentials_given(around.credentials),
            ))
        }),
{
    let found = daemon_config_findings(reply, file, around);
    if file is None {
        if let ConfigReply::Loaded(config, said) = reply {
            assert(found.skip(1) =~= settings::value_findings(config, said, around.openvino)
                + system::tpm_findings(
                Some(config),
                around.tpm_nodes@,
                credentials_given(around.credentials),
            ));
        }
    }
}

/// The session passes exactly when the daemon says that it can use it.
pub proof fn a_session_passes_only_where_it_is_usable(reply: AvailabilityReply)
    ensures
        availability_finding(reply).level == report::Level::Pass <==> reply
            == AvailabilityReply::Available(true),
        availability_finding(reply).level == report::Level::Error <==> reply
            != AvailabilityReply::Available(true),
{
}

/// The cameras are examined however far the daemon was reached, and a daemon on the bus is asked for
/// all that the others are.
pub proof fn cameras_are_examined_in_any_case(
    username: Seq<char>,
    file: Option<Config>,
    state: Seq<char>,
    inference: bool,
    reach: Reach,
    around: Surroundings,
)
    ensures
        ({
            let found = daemon_findings(username, file, state, inference, reach, around);
            &&& found[0].level == report::Level::Pass <==> reach is OnBus
            &&& found[0].level == report::Level::Error <==> !(reach is OnBus)
            &&& !(reach is OnBus) ==> found.skip(1) == cameras::camera_findings(
                file,
                around.cameras,
            )
            &&& reach matches Reach::OnBus(answers) ==> found.len() == 2 + daemon_config_findings(
                answers.config,
                file,
                around,
            ).len() + cameras::camera_findings(
                config_in_force(file, answers.config),
                around.cameras,
            ).len() + enrollment_findings(
                username,
                config_in_force(file, answers.config),
                answers.faces,
            ).len() + (match answers.benchmark {
                Some(reply) => benchmark_findings(reply).len(),
                None => 0,
            })
        }),
{
    let found = daemon_findings(username, file, state, inference, reach, around);
    if !(reach is OnBus) {
        assert(found.skip(1) =~= cameras::camera_findings(file, around.cameras));
    }
}

/// The waits are those of a slow start: a running daemon is waited for 25 seconds and no other is, and
/// the time left of a budget is never more than the budget.
pub proof fn waits_are_bounded()
    ensures
        DAEMON_TIMEOUT_MS == 5000,
        DAEMON_READY_TIMEOUT_MS == 25000,
        BENCHMARK_TIMEOUT_MS == 30000,
        RETRY_INTERVAL_MS == 250,
{
}

} // verus!
