//! The configuration dialog: when it may write, what its rows show, and what an edit writes.

use crate::camera::listing;
use crate::camera::listing::{is_listed_source, source_index};
use crate::config::{
    AuthConfig, CameraConfig, Config, EnrollmentConfig, InferenceConfig, LivenessConfig, Reading,
    SecurityConfig, StorageConfig, DEFAULT_RGB_CAMERA,
};
use crate::text;
use vstd::prelude::*;

verus! {

/// What the dialog knows.
#[derive(Clone, Copy, Debug, PartialEq, Eq, Structural)]
pub struct DialogState {
    pub authorized: bool,
    /// Whether the configuration was read.
    pub loaded: bool,
    /// Whether changes of the rows are not a person's edits.
    pub loading: bool,
    pub load_in_flight: bool,
    pub inference_touched: bool,
    pub camera_touched: bool,
    pub ir_touched: bool,
}

/// The rows whose edits are remembered, because their list may not hold what is configured.
#[derive(Clone, Copy, Debug, PartialEq, Eq, Structural)]
pub enum ChangedRow {
    Inference,
    Camera,
    Ir,
    Other,
}

#[derive(Clone, Copy, Debug, PartialEq, Eq, Structural)]
pub enum BannerAction {
    Load,
    Authorize,
}

/// What the banner says: its title and button, which stay as they are where nothing is said, whether
/// it is shown, and whether the rows can be used.
pub struct Banner {
    pub texts: Option<(&'static str, &'static str)>,
    pub revealed: bool,
    pub rows_sensitive: bool,
}

pub open spec fn banner_texts(state: DialogState) -> Option<(Seq<char>, Seq<char>)> {
    if !state.authorized {
        Some(("Settings are locked"@, "Unlock…"@))
    } else if !state.loaded {
        Some(
            (
                "Could not read the current configuration from the Gaze daemon"@,
                "Try again"@,
            ),
        )
    } else {
        None
    }
}

impl DialogState {
    /// Before the configuration is read, no change of a row is a person's edit.
    pub open spec fn wf(&self) -> bool {
        !self.loading ==> self.loaded
    }

    pub fn new() -> (r: DialogState)
        ensures
            r.wf(),
            r == (DialogState {
                authorized: false,
                loaded: false,
                loading: true,
                load_in_flight: false,
                inference_touched: false,
                camera_touched: false,
                ir_touched: false,
            }),
    {
        DialogState {
            authorized: false,
            loaded: false,
            loading: true,
            load_in_flight: false,
            inference_touched: false,
            camera_touched: false,
            ir_touched: false,
        }
    }

    pub fn banner(&self) -> (r: Banner)
        ensures
            match r.texts {
                Some((title, button)) => banner_texts(*self) == Some((title@, button@)),
                None => banner_texts(*self) is None,
            },
            r.revealed == (!self.authorized || !self.loaded),
            r.rows_sensitive == (self.authorized && self.loaded),
    {
        let texts: Option<(&'static str, &'static str)> = if !self.authorized {
            Some(("Settings are locked", "Unlock…"))
        } else if !self.loaded {
            Some(
                (
                    "Could not read the current configuration from the Gaze daemon",
                    "Try again",
                ),
            )
        } else {
            None
        };
        Banner {
            texts,
            revealed: !self.authorized || !self.loaded,
            rows_sensitive: self.authorized && self.loaded,
        }
    }

    pub fn set_authorized(&mut self, authorized: bool)
        requires
            old(self).wf(),
        ensures
            final(self).wf(),
            *final(self) == (DialogState { authorized, ..*old(self) }),
    {
        self.authorized = authorized;
    }

    /// What the banner's button does: once unlocked, it is about a configuration that could not be
    /// read.
    pub fn banner_clicked(&self) -> (r: BannerAction)
        ensures
            r == (if self.authorized && !self.loaded {
                BannerAction::Load
            } else {
                BannerAction::Authorize
            }),
    {
        if self.authorized && !self.loaded {
            BannerAction::Load
        } else {
            BannerAction::Authorize
        }
    }

    /// Begins to read the configuration. While one read is under way no other begins: it would write
    /// what it read over what a person typed in between.
    pub fn begin_load(&mut self) -> (r: bool)
        requires
            old(self).wf(),
        ensures
            final(self).wf(),
            r == !old(self).load_in_flight,
            *final(self) == (if old(self).load_in_flight {
                *old(self)
            } else {
                DialogState { load_in_flight: true, loading: true, ..*old(self) }
            }),
    {
        if self.load_in_flight {
            return false;
        }
        self.load_in_flight = true;
        self.loading = true;
        true
    }

    /// Ends a read. A read that failed leaves the rows as they are, and says so.
    pub fn end_load(&mut self, result: Result<(), String>) -> (r: Option<String>)
        requires
            old(self).wf(),
        ensures
            final(self).wf(),
            match result {
                Ok(_) => r is None && *final(self) == (DialogState {
                    load_in_flight: false,
                    loading: false,
                    loaded: true,
                    ..*old(self)
                }),
                Err(error) => text::optional(r) == Some(
                    "Failed to load configuration: "@ + error@,
                ) && *final(self) == (DialogState { load_in_flight: false, ..*old(self) }),
            },
    {
        self.load_in_flight = false;
        match result {
            Ok(_) => {
                self.loading = false;
                self.loaded = true;
                None
            },
            Err(error) => Some(text::cat2("Failed to load configuration: ", error.as_str())),
        }
    }

    /// A row changed. An edit has to be written where `true` comes back.
    pub fn row_changed(&mut self, row: ChangedRow) -> (r: bool)
        requires
            old(self).wf(),
        ensures
            final(self).wf(),
            r == !old(self).loading,
            r ==> old(self).loaded,
            *final(self) == (if old(self).loading {
                *old(self)
            } else {
                match row {
                    ChangedRow::Inference => DialogState { inference_touched: true, ..*old(self) },
                    ChangedRow::Camera => DialogState { camera_touched: true, ..*old(self) },
                    ChangedRow::Ir => DialogState { ir_touched: true, ..*old(self) },
                    ChangedRow::Other => *old(self),
                }
            }),
    {
        if self.loading {
            return false;
        }
        match row {
            ChangedRow::Inference => {
                self.inference_touched = true;
            },
            ChangedRow::Camera => {
                self.camera_touched = true;
            },
            ChangedRow::Ir => {
                self.ir_touched = true;
            },
            ChangedRow::Other => {},
        }
        true
    }
}

/// The subtitle of a camera row, which names a configured source that its list does not hold.
pub open spec fn camera_subtitle(
    options: Seq<(Seq<char>, Seq<char>)>,
    configured: Seq<char>,
) -> Seq<char> {
    if listing::offers(options, configured) {
        seq![]
    } else {
        "Configured as "@ + configured + ", which this list cannot show"@
    }
}

pub fn camera_row_subtitle(options: &Vec<(String, String)>, configured: &str) -> (r: String)
    ensures
        r@ == camera_subtitle(listing::choices(options@), configured@),
{
    if is_listed_source(options, configured) {
        String::new()
    } else {
        text::cat3("Configured as ", configured, ", which this list cannot show")
    }
}

/// The subtitle of the inference row, which names a configured pair that its lists do not hold.
pub open spec fn runtime_subtitle(inference: InferenceConfig, representable: bool) -> Seq<char> {
    if representable {
        "Use ONNX Runtime directly or through OpenVINO"@
    } else {
        "Configured as "@ + inference.execution_provider@ + "/"@ + inference.device@
            + ", which this build cannot show"@
    }
}

pub fn inference_subtitle(inference: &InferenceConfig, representable: bool) -> (r: String)
    ensures
        r@ == runtime_subtitle(*inference, representable),
{
    if representable {
        "Use ONNX Runtime directly or through OpenVINO".to_owned()
    } else {
        text::cat5(
            "Configured as ",
            inference.execution_provider.as_str(),
            "/",
            inference.device.as_str(),
            ", which this build cannot show",
        )
    }
}

/// What the rows show of a configuration beyond its plain values.
pub struct PopulatedRows {
    pub camera: usize,
    pub camera_subtitle: String,
    pub ir: usize,
    pub ir_subtitle: String,
    pub inference_subtitle: String,
    pub device_row_visible: bool,
    /// The rows of the models, the thresholds and the policy, which only the custom level has.
    pub custom_rows_visible: bool,
    pub start_delay_scope_row_visible: bool,
    pub liveness_rows_visible: bool,
}

/// The place of a configured source in a list: its first, or the first of all where it has none.
pub open spec fn place_of(options: Seq<(Seq<char>, Seq<char>)>, configured: Seq<char>) -> int
    decreases options.len(),
{
    if !listing::offers(options, configured) || options[0].1 == configured {
        0
    } else {
        1 + place_of(options.skip(1), configured)
    }
}

proof fn lemma_place(options: Seq<(Seq<char>, Seq<char>)>, configured: Seq<char>, at: int)
    requires
        0 <= at < options.len(),
        options[at].1 == configured,
        forall|j: int| 0 <= j < at ==> (#[trigger] options[j]).1 != configured,
    ensures
        place_of(options, configured) == at,
    decreases options.len(),
{
    assert(listing::offers(options, configured));
    if at > 0 {
        assert(options.skip(1)[at - 1].1 == configured);
        assert forall|j: int| 0 <= j < at - 1 implies (#[trigger] options.skip(1)[j]).1
            != configured by {
            assert(options[j + 1].1 != configured);
        }
        lemma_place(options.skip(1), configured, at - 1);
    }
}

fn find_place(options: &Vec<(String, String)>, configured: &str) -> (r: usize)
    ensures
        r == place_of(listing::choices(options@), configured@),
{
    let r: usize = source_index(options, configured);
    proof {
        let all = listing::choices(options@);
        if listing::offers(all, configured@) {
            lemma_place(all, configured@, r as int);
        }
    }
    r
}

pub fn populate_config_rows(
    config: &Config,
    representable: bool,
    cameras: &Vec<(String, String)>,
    ir_options: &Vec<(String, String)>,
) -> (r: PopulatedRows)
    ensures
        r.camera == place_of(listing::choices(cameras@), config.cameras.rgb@),
        r.camera_subtitle@ == camera_subtitle(listing::choices(cameras@), config.cameras.rgb@),
        r.ir == place_of(listing::choices(ir_options@), config.cameras.ir@),
        r.ir_subtitle@ == camera_subtitle(listing::choices(ir_options@), config.cameras.ir@),
        r.inference_subtitle@ == runtime_subtitle(config.inference, representable),
        r.device_row_visible == (config.inference.execution_provider@ == "openvino"@),
        r.custom_rows_visible == (config.security.level@ == "custom"@),
        r.start_delay_scope_row_visible == (config.auth.start_delay_ms > 0),
        r.liveness_rows_visible == config.liveness.enabled,
{
    PopulatedRows {
        camera: find_place(cameras, config.cameras.rgb.as_str()),
        camera_subtitle: camera_row_subtitle(cameras, config.cameras.rgb.as_str()),
        ir: find_place(ir_options, config.cameras.ir.as_str()),
        ir_subtitle: camera_row_subtitle(ir_options, config.cameras.ir.as_str()),
        inference_subtitle: inference_subtitle(&config.inference, representable),
        device_row_visible: text::str_eq(
            config.inference.execution_provider.as_str(),
            "openvino",
        ),
        custom_rows_visible: text::str_eq(config.security.level.as_str(), "custom"),
        start_delay_scope_row_visible: config.auth.start_delay_ms > 0,
        liveness_rows_visible: config.liveness.enabled,
    }
}

/// The cameras to choose from where the devices could not be listed.
pub fn fallback_cameras() -> (r: Vec<(String, String)>)
    ensures
        listing::choices(r@) == seq![("Primary Camera"@, DEFAULT_RGB_CAMERA@)],
{
    let mut r: Vec<(String, String)> = Vec::new();
    r.push(("Primary Camera".to_owned(), DEFAULT_RGB_CAMERA.to_owned()));
    proof {
        assert(listing::choices(r@) =~= seq![("Primary Camera"@, DEFAULT_RGB_CAMERA@)]);
    }
    r
}

/// The security settings that a chosen level stands for: those of a preset, those in the rows that
/// only the custom level has, or no others than before.
pub fn chosen_security(
    preset: Option<SecurityConfig>,
    custom: bool,
    rows: SecurityConfig,
) -> (r: Option<SecurityConfig>)
    ensures
        r == (match preset {
            Some(security) => Some(security),
            None => if custom {
                Some(rows)
            } else {
                None
            },
        }),
{
    match preset {
        Some(security) => Some(security),
        None => if custom {
            Some(rows)
        } else {
            None
        },
    }
}

/// What the rows hold.
pub struct Form {
    pub execution_provider: String,
    pub openvino_device: String,
    /// The security settings that the level stands for. No level, no change.
    pub security: Option<SecurityConfig>,
    pub camera: usize,
    pub ir: usize,
    pub emitter_enabled: bool,
    pub parallel_capture: String,
    pub dark_luma_threshold: u8,
    pub max_templates: u32,
    pub min_face_size_ratio: Reading,
    pub liveness_enabled: bool,
    pub liveness_threshold: Reading,
    pub liveness_max_frames: u32,
    pub require_confirmation_lock_screen: bool,
    pub require_confirmation_elevation: bool,
    pub abort_if_ssh: bool,
    pub abort_if_lid_closed: bool,
    pub abort_before_first_resume: bool,
    pub resume_grace_ms: u64,
    pub start_delay_ms: u64,
    pub start_delay_scope: String,
    pub encrypt_templates: bool,
}

/// The source that an edit configures: the chosen one, unless nobody chose and the list does not even
/// hold what is configured.
pub open spec fn edited_source(
    options: Seq<(Seq<char>, Seq<char>)>,
    configured: Seq<char>,
    touched: bool,
    chosen: int,
) -> Seq<char> {
    if (touched || listing::offers(options, configured)) && 0 <= chosen < options.len() {
        options[chosen].1
    } else {
        configured
    }
}

fn edit_source(
    options: &Vec<(String, String)>,
    configured: String,
    touched: bool,
    chosen: usize,
) -> (r: String)
    ensures
        r@ == edited_source(listing::choices(options@), configured@, touched, chosen as int),
{
    if (touched || is_listed_source(options, configured.as_str())) && chosen < options.len() {
        options[chosen].1.clone()
    } else {
        configured
    }
}

/// The runtime that an edit configures. The device counts only for OpenVINO.
pub open spec fn edited_runtime(
    inference: InferenceConfig,
    keep: bool,
    provider: Seq<char>,
    device: Seq<char>,
) -> (Seq<char>, Seq<char>) {
    if keep {
        (inference.execution_provider@, inference.device@)
    } else if provider == "openvino"@ {
        (provider, device)
    } else {
        (provider, "cpu"@)
    }
}

fn edit_runtime(
    inference: InferenceConfig,
    keep: bool,
    provider: String,
    device: String,
) -> (r: InferenceConfig)
    ensures
        (r.execution_provider@, r.device@) == edited_runtime(
            inference,
            keep,
            provider@,
            device@,
        ),
{
    if keep {
        return inference;
    }
    let openvino = text::str_eq(provider.as_str(), "openvino");
    InferenceConfig {
        execution_provider: provider,
        device: if openvino {
            device
        } else {
            "cpu".to_owned()
        },
    }
}

/// The configuration that the rows stand for. What has no row stays as it is, and so does what its
/// row cannot show and nobody chose anew.
pub fn apply_changes(
    config: Config,
    form: Form,
    state: &DialogState,
    representable: bool,
    cameras: &Vec<(String, String)>,
    ir_options: &Vec<(String, String)>,
) -> (r: Config)
    ensures
        (r.inference.execution_provider@, r.inference.device@) == edited_runtime(
            config.inference,
            !state.inference_touched && !representable,
            form.execution_provider@,
            form.openvino_device@,
        ),
        r.security == (match form.security {
            Some(security) => security,
            None => config.security,
        }),
        r.cameras.rgb@ == edited_source(
            listing::choices(cameras@),
            config.cameras.rgb@,
            state.camera_touched,
            form.camera as int,
        ),
        r.cameras.ir@ == edited_source(
            listing::choices(ir_options@),
            config.cameras.ir@,
            state.ir_touched,
            form.ir as int,
        ),
        r.cameras.emitter_enabled == form.emitter_enabled,
        r.cameras.parallel_capture == form.parallel_capture,
        r.cameras.dark_luma_threshold == form.dark_luma_threshold,
        r.enrollment == (EnrollmentConfig {
            max_templates: form.max_templates,
            min_face_size_ratio: form.min_face_size_ratio,
        }),
        r.liveness == (LivenessConfig {
            enabled: form.liveness_enabled,
            threshold: form.liveness_threshold,
            max_seconds: config.liveness.max_seconds,
            max_frames: form.liveness_max_frames,
        }),
        r.auth == (AuthConfig {
            require_confirmation_lock_screen: form.require_confirmation_lock_screen,
            require_confirmation_elevation: form.require_confirmation_elevation,
            abort_if_ssh: form.abort_if_ssh,
            abort_if_lid_closed: form.abort_if_lid_closed,
            abort_before_first_resume: form.abort_before_first_resume,
            resume_grace_ms: form.resume_grace_ms,
            start_delay_ms: form.start_delay_ms,
            start_delay_scope: form.start_delay_scope,
        }),
        r.storage == (StorageConfig {
            encrypt_templates: form.encrypt_templates,
            unlock_gnome_keyring: config.storage.unlock_gnome_keyring,
            unlock_kwallet: config.storage.unlock_kwallet,
        }),
{
    Config {
        inference: edit_runtime(
            config.inference,
            !state.inference_touched && !representable,
            form.execution_provider,
            form.openvino_device,
        ),
        security: match form.security {
            Some(security) => security,
            None => config.security,
        },
        cameras: CameraConfig {
            rgb: edit_source(cameras, config.cameras.rgb, state.camera_touched, form.camera),
            ir: edit_source(ir_options, config.cameras.ir, state.ir_touched, form.ir),
            emitter_enabled: form.emitter_enabled,
            parallel_capture: form.parallel_capture,
            dark_luma_threshold: form.dark_luma_threshold,
        },
        enrollment: EnrollmentConfig {
            max_templates: form.max_templates,
            min_face_size_ratio: form.min_face_size_ratio,
        },
        liveness: LivenessConfig {
            enabled: form.liveness_enabled,
            threshold: form.liveness_threshold,
            max_seconds: config.liveness.max_seconds,
            max_frames: form.liveness_max_frames,
        },
        auth: AuthConfig {
            require_confirmation_lock_screen: form.require_confirmation_lock_screen,
            require_confirmation_elevation: form.require_confirmation_elevation,
            abort_if_ssh: form.abort_if_ssh,
            abort_if_lid_closed: form.abort_if_lid_closed,
            abort_before_first_resume: form.abort_before_first_resume,
            resume_grace_ms: form.resume_grace_ms,
            start_delay_ms: form.start_delay_ms,
            start_delay_scope: form.start_delay_scope,
        },
        storage: StorageConfig {
            encrypt_templates: form.encrypt_templates,
            unlock_gnome_keyring: config.storage.unlock_gnome_keyring,
            unlock_kwallet: config.storage.unlock_kwallet,
        },
    }
}

/// An edit of another row does not change a camera: what a list was populated with is what it writes
/// back, and a source that the list cannot show is kept.
pub proof fn an_untouched_camera_is_kept(
    options: Seq<(Seq<char>, Seq<char>)>,
    configured: Seq<char>,
)
    ensures
        edited_source(options, configured, false, place_of(options, configured)) == configured,
{
    if listing::offers(options, configured) {
        lemma_place_in_range(options, configured);
    }
}

proof fn lemma_place_in_range(options: Seq<(Seq<char>, Seq<char>)>, configured: Seq<char>)
    requires
        listing::offers(options, configured),
    ensures
        0 <= place_of(options, configured) < options.len(),
        options[place_of(options, configured)].1 == configured,
    decreases options.len(),
{
    let i = choose|i: int| 0 <= i < options.len() && (#[trigger] options[i]).1 == configured;
    if options[0].1 != configured {
        assert(options.skip(1)[i - 1].1 == configured);
        lemma_place_in_range(options.skip(1), configured);
    }
}

/// The banner is about being locked first, and about a configuration that is missing second; an
/// unlocked dialog with a configuration has none.
pub proof fn the_banner_is_gone_only_where_all_is_well(state: DialogState)
    ensures
        banner_texts(state) is None <==> state.authorized && state.loaded,
        !state.authorized ==> banner_texts(state) == Some(("Settings are locked"@, "Unlock…"@)),
        state.authorized && !state.loaded ==> banner_texts(state) is Some && (banner_texts(
            state,
        )->0).1 == "Try again"@,
{
}

/// A source that the list shows needs no words; any other is named.
pub proof fn a_source_off_the_list_is_named(
    options: Seq<(Seq<char>, Seq<char>)>,
    configured: Seq<char>,
    i: int,
)
    requires
        0 <= i < options.len(),
    ensures
        options[i].1 == configured ==> camera_subtitle(options, configured).len() == 0,
        !listing::offers(options, configured) ==> camera_subtitle(options, configured)
            == "Configured as "@ + configured + ", which this list cannot show"@,
        camera_subtitle(seq![], configured) == "Configured as "@ + configured
            + ", which this list cannot show"@,
{
}

/// A source stands at its first place in the list, and at the front where it is not in it.
pub proof fn a_source_stands_at_its_first_place(
    options: Seq<(Seq<char>, Seq<char>)>,
    configured: Seq<char>,
    n: int,
)
    requires
        0 <= n <= options.len(),
        forall|i: int| 0 <= i < n ==> (#[trigger] options[i]).1 != configured,
    ensures
        n < options.len() && options[n].1 == configured ==> place_of(options, configured) == n,
        n == options.len() ==> place_of(options, configured) == 0,
{
    if n < options.len() && options[n].1 == configured {
        lemma_place(options, configured, n);
    }
}

/// What is chosen is written where the list was touched or shows what was configured; a source that
/// the list does not show stays until the list is touched.
pub proof fn a_touched_list_writes_what_is_chosen(
    options: Seq<(Seq<char>, Seq<char>)>,
    configured: Seq<char>,
    chosen: int,
)
    requires
        0 <= chosen < options.len(),
    ensures
        edited_source(options, configured, true, chosen) == options[chosen].1,
        listing::offers(options, configured) ==> edited_source(options, configured, false, chosen)
            == options[chosen].1,
        !listing::offers(options, configured) ==> edited_source(options, configured, false, chosen)
            == configured,
        edited_source(options, configured, true, options.len() as int) == configured,
        edited_source(options, configured, true, -1) == configured,
{
}

/// A runtime that is kept stays as it was; one that is edited has the device that was chosen only for
/// the accelerator, and the processor otherwise.
pub proof fn a_device_goes_with_the_accelerator_alone(
    inference: InferenceConfig,
    provider: Seq<char>,
    device: Seq<char>,
)
    ensures
        edited_runtime(inference, true, provider, device) == (
            inference.execution_provider@,
            inference.device@,
        ),
        edited_runtime(inference, false, provider, device).0 == provider,
        provider == "openvino"@ ==> edited_runtime(inference, false, provider, device).1 == device,
        provider != "openvino"@ ==> edited_runtime(inference, false, provider, device).1 == "cpu"@,
        runtime_subtitle(inference, false) == "Configured as "@ + inference.execution_provider@
            + "/"@ + inference.device@ + ", which this build cannot show"@,
        runtime_subtitle(inference, true) == "Use ONNX Runtime directly or through OpenVINO"@,
{
}

} // verus!
