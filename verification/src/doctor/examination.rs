//! The whole examination: every check, in the order in which its findings are shown.

use crate::config::{Config, Validation};
use crate::cpu;
use crate::doctor::cameras;
use crate::doctor::cameras::CameraFacts;
use crate::doctor::daemon;
use crate::doctor::daemon::{check_daemon, ConfigReply, Reach, Surroundings};
use crate::doctor::integration;
use crate::doctor::integration::{check_desktop_integration, GnomeFacts, KdeFacts};
use crate::doctor::kde;
use crate::doctor::kde::check_kde_confirmation_bypass;
use crate::doctor::settings;
use crate::doctor::settings::{check_config, Loading, Ownership};
use crate::doctor::stack;
use crate::doctor::stack::{check_pam, PamFile};
use crate::doctor::system;
use crate::doctor::system::{
    check_platform, check_privileged_files, check_systemd, check_tpm, OwnedPath, TpmNode,
};
use crate::doctor::wallet;
use crate::doctor::wallet::{check_keyring, check_kwallet};
use crate::pam::Service;
use crate::report;
use crate::report::{Finding, Level, Report};
use crate::text;
use vstd::prelude::*;

verus! {

/// What was gathered of the machine.
pub struct Facts {
    pub os: String,
    pub arch: String,
    pub x86: bool,
    pub avx2: bool,
    pub systemd_running: bool,
    /// What `systemctl is-active gazed` and `systemctl is-enabled gazed` answered.
    pub active: Result<(bool, String), String>,
    pub enabled: Result<(bool, String), String>,
    pub config_exists: bool,
    pub ownership: Result<Ownership, String>,
    pub loading: Loading,
    /// What the configuration file holds where it parses, and what its validation said.
    pub config: Option<Config>,
    pub said: Validation,
    pub modules: Vec<OwnedPath>,
    pub pam_files: Vec<PamFile>,
    pub services: Vec<Service>,
    pub opted_out: bool,
    pub os_release: String,
    pub privileged: Vec<OwnedPath>,
    pub desktop: String,
    pub gnome: GnomeFacts,
    pub hyprlock: Option<String>,
    pub plasma: KdeFacts,
    pub gdm_face: Option<String>,
    pub gnome_record: Option<bool>,
    pub wallet_module: bool,
    pub wallet_record: Option<bool>,
    /// What `systemctl is-active gazed` says, empty where it says nothing.
    pub service_state: String,
    pub reach: Reach,
    pub around: Surroundings,
}

/// The configuration that the checks go by: only a file that is there and parses has one.
pub open spec fn file_config(facts: Facts) -> Option<Config> {
    if facts.config_exists && facts.loading is Parsed {
        facts.config
    } else {
        None
    }
}

/// What is found of the machine itself.
pub open spec fn machine_findings(facts: Facts) -> Seq<Finding> {
    seq![system::platform_finding(facts.os@, facts.arch@, facts.x86, facts.avx2)]
        + system::systemd_findings(facts.systemd_running, facts.active, facts.enabled)
        + settings::config_file_findings(
        facts.config_exists,
        facts.ownership,
        facts.loading,
        facts.config,
        facts.said,
        facts.around.openvino,
    )
}

/// What is found of the files that decide who gets in.
pub open spec fn access_findings(facts: Facts) -> Seq<Finding> {
    stack::module_findings(facts.modules@) + stack::reference_findings(
        facts.pam_files@,
        facts.services@,
        facts.opted_out,
        facts.os_release@,
    ) + system::privileged_findings(facts.privileged@)
}

/// What is found of the desktop.
pub open spec fn session_findings(facts: Facts) -> Seq<Finding> {
    integration::desktop_findings(
        facts.desktop@,
        facts.gnome,
        text::optional(facts.hyprlock),
        facts.plasma,
    ) + kde::confirmation_findings(
        file_config(facts),
        text::optional(facts.plasma.fingerprint),
        text::optional(facts.plasma.smartcard),
        text::optional(facts.plasma.plasmalogin_face),
    )
}

/// What is found of the secrets that a face unlocks.
pub open spec fn secret_findings(username: Seq<char>, facts: Facts) -> Seq<Finding> {
    system::tpm_findings(
        file_config(facts),
        facts.around.tpm_nodes@,
        match facts.around.credentials {
            Some(found) => Some(system::credentials_view(found)),
            None => None,
        },
    ) + (match file_config(facts) {
        None => seq![],
        Some(config) => seq![
            wallet::keyring_finding(
                username,
                config,
                text::optional(facts.said.keyring),
                text::optional(facts.gdm_face),
                facts.gnome_record,
            ),
        ],
    }) + (match file_config(facts) {
        None => seq![],
        Some(config) => wallet::wallet_findings(
            username,
            config,
            text::optional(facts.said.keyring),
            facts.wallet_module,
            facts.services@,
            facts.wallet_record,
        ),
    })
}

/// Everything that is found, in the order in which it is shown.
pub open spec fn findings(username: Seq<char>, facts: Facts) -> Seq<Finding> {
    machine_findings(facts) + access_findings(facts) + session_findings(facts) + secret_findings(
        username,
        facts,
    ) + daemon::daemon_findings(
        username,
        file_config(facts),
        facts.service_state@,
        facts.x86 ==> facts.avx2,
        facts.reach,
        facts.around,
    )
}

fn as_text(s: &Option<String>) -> (r: Option<&str>)
    ensures
        text::optional_str(r) == text::optional(*s),
{
    match s {
        Some(t) => Some(t.as_str()),
        None => None,
    }
}

fn known_config(facts: &Facts) -> (r: Option<&Config>)
    ensures
        system::given(r) == file_config(*facts),
{
    if !facts.config_exists {
        return None;
    }
    match &facts.loading {
        Loading::Parsed { .. } => facts.config.as_ref(),
        _ => None,
    }
}

fn examine_machine(report: &mut Report, facts: &Facts)
    ensures
        final(report)@ == old(report)@ + machine_findings(*facts),
{
    check_platform(report, facts.os.as_str(), facts.arch.as_str(), facts.x86, facts.avx2);
    check_systemd(report, facts.systemd_running, &facts.active, &facts.enabled);
    check_config(
        report,
        facts.config_exists,
        &facts.ownership,
        &facts.loading,
        facts.config.as_ref(),
        &facts.said,
        facts.around.openvino,
    );
    proof {
        assert(report@ =~= old(report)@ + machine_findings(*facts));
    }
}

fn examine_access(report: &mut Report, facts: &Facts)
    ensures
        final(report)@ == old(report)@ + access_findings(*facts),
{
    check_pam(
        report,
        &facts.modules,
        &facts.pam_files,
        &facts.services,
        facts.opted_out,
        facts.os_release.as_str(),
    );
    check_privileged_files(report, &facts.privileged);
    proof {
        assert(report@ =~= old(report)@ + access_findings(*facts));
    }
}

fn examine_session(report: &mut Report, facts: &Facts)
    ensures
        final(report)@ == old(report)@ + session_findings(*facts),
{
    check_desktop_integration(
        report,
        facts.desktop.as_str(),
        &facts.gnome,
        as_text(&facts.hyprlock),
        &facts.plasma,
    );
    check_kde_confirmation_bypass(
        report,
        known_config(facts),
        as_text(&facts.plasma.fingerprint),
        as_text(&facts.plasma.smartcard),
        as_text(&facts.plasma.plasmalogin_face),
    );
    proof {
        assert(report@ =~= old(report)@ + session_findings(*facts));
    }
}

fn examine_secrets(report: &mut Report, username: &str, facts: &Facts)
    ensures
        final(report)@ == old(report)@ + secret_findings(username@, *facts),
{
    check_tpm(report, known_config(facts), &facts.around.tpm_nodes, facts.around.credentials.as_ref());
    check_keyring(
        report,
        username,
        known_config(facts),
        as_text(&facts.said.keyring),
        as_text(&facts.gdm_face),
        facts.gnome_record,
    );
    check_kwallet(
        report,
        username,
        known_config(facts),
        as_text(&facts.said.keyring),
        facts.wallet_module,
        &facts.services,
        facts.wallet_record,
    );
    proof {
        assert(report@ =~= old(report)@ + secret_findings(username@, *facts));
    }
}

/// Examines a machine for a user.
pub fn run(username: &str, facts: &Facts) -> (r: Report)
    ensures
        r@ == findings(username@, *facts),
{
    let mut report = Report::default();
    examine_machine(&mut report, facts);
    examine_access(&mut report, facts);
    examine_session(&mut report, facts);
    examine_secrets(&mut report, username, facts);
    check_daemon(
        &mut report,
        username,
        known_config(facts),
        facts.service_state.as_str(),
        cpu::supports_inference(facts.x86, facts.avx2),
        &facts.reach,
        &facts.around,
    );
    proof {
        assert(report@ =~= findings(username@, *facts));
    }
    report
}

proof fn lemma_machine(facts: Facts)
    ensures
        report::actionable(machine_findings(facts)),
{
    assert(report::actionable(
        system::systemd_findings(facts.systemd_running, facts.active, facts.enabled),
    ));
    lemma_config_file(
        facts.config_exists,
        facts.ownership,
        facts.loading,
        facts.config,
        facts.said,
        facts.around.openvino,
    );
}

proof fn lemma_values(config: Config, said: Validation, openvino: bool)
    ensures
        report::actionable(settings::value_findings(config, said, openvino)),
{
    settings::values_pass_only_without_errors(config, said, openvino);
}

proof fn lemma_config_file(
    exists: bool,
    ownership: Result<Ownership, String>,
    loading: Loading,
    config: Option<Config>,
    said: Validation,
    openvino: bool,
)
    ensures
        report::actionable(
            settings::config_file_findings(exists, ownership, loading, config, said, openvino),
        ),
{
    if config is Some {
        lemma_values(config->0, said, openvino);
    }
}

proof fn lemma_ordering(files: Seq<PamFile>)
    ensures
        report::actionable(stack::all_ordering_findings(files)),
    decreases files.len(),
{
    if files.len() > 0 {
        lemma_ordering(files.drop_last());
        assert(report::actionable(stack::ordering_findings(files.last())));
    }
}

proof fn lemma_access(facts: Facts)
    ensures
        report::actionable(access_findings(facts)),
{
    assert(report::actionable(stack::module_findings(facts.modules@)));
    lemma_ordering(stack::referencing(facts.pam_files@));
    assert(report::actionable(
        stack::elevation_findings(facts.services@, facts.opted_out, facts.os_release@),
    ));
    assert(report::actionable(stack::polkit_findings(facts.services@)));
    assert(report::actionable(
        stack::reference_findings(
            facts.pam_files@,
            facts.services@,
            facts.opted_out,
            facts.os_release@,
        ),
    ));
    assert(report::actionable(system::privileged_findings(facts.privileged@)));
}

proof fn lemma_session(facts: Facts)
    ensures
        report::actionable(session_findings(facts)),
{
    assert(report::actionable(integration::gnome_findings(facts.gnome)));
    assert(report::actionable(
        integration::desktop_findings(
            facts.desktop@,
            facts.gnome,
            text::optional(facts.hyprlock),
            facts.plasma,
        ),
    ));
    assert(report::actionable(
        kde::confirmation_findings(
            file_config(facts),
            text::optional(facts.plasma.fingerprint),
            text::optional(facts.plasma.smartcard),
            text::optional(facts.plasma.plasmalogin_face),
        ),
    ));
}

proof fn lemma_verdict(nodes: Seq<TpmNode>, credentials: (u32, Seq<u32>, bool))
    ensures
        system::tpm_verdict(nodes, credentials) matches Some(finding) ==> finding.level
            == Level::Pass,
    decreases nodes.len(),
{
    if nodes.len() > 0 {
        lemma_verdict(nodes.skip(1), credentials);
    }
}

proof fn lemma_tpm(
    config: Option<Config>,
    nodes: Seq<TpmNode>,
    credentials: Option<(u32, Seq<u32>, bool)>,
)
    ensures
        report::actionable(system::tpm_findings(config, nodes, credentials)),
{
    if let Some(known) = credentials {
        lemma_verdict(nodes, known);
    }
}

proof fn lemma_secrets(username: Seq<char>, facts: Facts)
    ensures
        report::actionable(secret_findings(username, facts)),
{
    assert(report::actionable(wallet::wallet_warnings(facts.services@)));
    let credentials = match facts.around.credentials {
        Some(found) => Some(system::credentials_view(found)),
        None => None,
    };
    lemma_tpm(file_config(facts), facts.around.tpm_nodes@, credentials);
    if let Some(config) = file_config(facts) {
        let unusable = text::optional(facts.said.keyring);
        assert(report::actionable(
            seq![
                wallet::keyring_finding(
                    username,
                    config,
                    unusable,
                    text::optional(facts.gdm_face),
                    facts.gnome_record,
                ),
            ],
        ));
        assert(report::actionable(
            wallet::wallet_findings(
                username,
                config,
                unusable,
                facts.wallet_module,
                facts.services@,
                facts.wallet_record,
            ),
        ));
    }
}

proof fn lemma_cameras(config: Option<Config>, facts: CameraFacts)
    ensures
        report::actionable(cameras::camera_findings(config, facts)),
{
}

proof fn lemma_daemon_config(reply: ConfigReply, file: Option<Config>, around: Surroundings)
    ensures
        report::actionable(daemon::daemon_config_findings(reply, file, around)),
{
    if let ConfigReply::Loaded(config, said) = reply {
        lemma_values(config, said, around.openvino);
        lemma_tpm(
            Some(config),
            around.tpm_nodes@,
            daemon::credentials_given(around.credentials),
        );
    }
}

proof fn lemma_daemon(
    username: Seq<char>,
    file: Option<Config>,
    state: Seq<char>,
    inference: bool,
    reach: Reach,
    around: Surroundings,
)
    ensures
        report::actionable(
            daemon::daemon_findings(username, file, state, inference, reach, around),
        ),
{
    lemma_cameras(file, around.cameras);
    if let Reach::OnBus(answers) = reach {
        let config = daemon::config_in_force(file, answers.config);
        lemma_cameras(config, around.cameras);
        lemma_daemon_config(answers.config, file, around);
        assert(report::actionable(daemon::enrollment_findings(username, config, answers.faces)));
        if let Some(reply) = answers.benchmark {
            assert(report::actionable(daemon::benchmark_findings(reply)));
        }
    }
}

/// Whatever the machine, every finding that does not pass says what to do about it.
pub proof fn every_finding_is_actionable(username: Seq<char>, facts: Facts)
    ensures
        report::actionable(findings(username, facts)),
{
    lemma_machine(facts);
    lemma_access(facts);
    lemma_session(facts);
    lemma_secrets(username, facts);
    lemma_daemon(
        username,
        file_config(facts),
        facts.service_state@,
        facts.x86 ==> facts.avx2,
        facts.reach,
        facts.around,
    );
}

/// The file's configuration counts exactly where the file exists and parses.
pub proof fn a_configuration_counts_only_where_it_parses(facts: Facts)
    ensures
        file_config(facts) == (if facts.config_exists && facts.loading is Parsed {
            facts.config
        } else {
            None
        }),
        !facts.config_exists ==> file_config(facts) is None,
        !(facts.loading is Parsed) ==> file_config(facts) is None,
{
}

/// An examination covers everything, in one order: the machine, the service, the configuration, the
/// modules, the stack, the files, the desktop, the confirmation, the TPM, the keyring, the wallet and
/// the daemon. What needs a configuration is left out exactly where there is none.
pub proof fn an_examination_covers_everything(username: Seq<char>, facts: Facts)
    ensures
        ({
            let config = file_config(facts);
            let credentials = match facts.around.credentials {
                Some(found) => Some(system::credentials_view(found)),
                None => None,
            };
            findings(username, facts).len() == 1 + system::systemd_findings(
                facts.systemd_running,
                facts.active,
                facts.enabled,
            ).len() + settings::config_file_findings(
                facts.config_exists,
                facts.ownership,
                facts.loading,
                facts.config,
                facts.said,
                facts.around.openvino,
            ).len() + stack::module_findings(facts.modules@).len() + stack::reference_findings(
                facts.pam_files@,
                facts.services@,
                facts.opted_out,
                facts.os_release@,
            ).len() + system::privileged_findings(facts.privileged@).len()
                + integration::desktop_findings(
                facts.desktop@,
                facts.gnome,
                text::optional(facts.hyprlock),
                facts.plasma,
            ).len() + kde::confirmation_findings(
                config,
                text::optional(facts.plasma.fingerprint),
                text::optional(facts.plasma.smartcard),
                text::optional(facts.plasma.plasmalogin_face),
            ).len() + system::tpm_findings(config, facts.around.tpm_nodes@, credentials).len() + (
            match config {
                Some(config) => 1 + wallet::wallet_findings(
                    username,
                    config,
                    text::optional(facts.said.keyring),
                    facts.wallet_module,
                    facts.services@,
                    facts.wallet_record,
                ).len(),
                None => 0,
            }) + daemon::daemon_findings(
                username,
                config,
                facts.service_state@,
                facts.x86 ==> facts.avx2,
                facts.reach,
                facts.around,
            ).len()
        }),
        findings(username, facts)[0] == system::platform_finding(
            facts.os@,
            facts.arch@,
            facts.x86,
            facts.avx2,
        ),
{
}

/// Each part of an examination stands whole within it, before and after the others.
pub proof fn every_part_stands_whole(username: Seq<char>, facts: Facts)
    ensures
        ({
            let all = findings(username, facts);
            let a = machine_findings(facts);
            let b = access_findings(facts);
            let c = session_findings(facts);
            let d = secret_findings(username, facts);
            let e = daemon::daemon_findings(
                username,
                file_config(facts),
                facts.service_state@,
                facts.x86 ==> facts.avx2,
                facts.reach,
                facts.around,
            );
            &&& all.take(a.len() as int) == a
            &&& all.subrange(a.len() as int, (a.len() + b.len()) as int) == b
            &&& all.subrange((a.len() + b.len()) as int, (a.len() + b.len() + c.len()) as int) == c
            &&& all.subrange(
                (a.len() + b.len() + c.len()) as int,
                (a.len() + b.len() + c.len() + d.len()) as int,
            ) == d
            &&& all.skip((a.len() + b.len() + c.len() + d.len()) as int) == e
        }),
{
    let all = findings(username, facts);
    let a = machine_findings(facts);
    let b = access_findings(facts);
    let c = session_findings(facts);
    let d = secret_findings(username, facts);
    let e = daemon::daemon_findings(
        username,
        file_config(facts),
        facts.service_state@,
        facts.x86 ==> facts.avx2,
        facts.reach,
        facts.around,
    );
    assert(all.take(a.len() as int) =~= a);
    assert(all.subrange(a.len() as int, (a.len() + b.len()) as int) =~= b);
    assert(all.subrange((a.len() + b.len()) as int, (a.len() + b.len() + c.len()) as int) =~= c);
    assert(all.subrange(
        (a.len() + b.len() + c.len()) as int,
        (a.len() + b.len() + c.len() + d.len()) as int,
    ) =~= d);
    assert(all.skip((a.len() + b.len() + c.len() + d.len()) as int) =~= e);
}

} // verus!
