//! Backend library of a menu-bar usage monitor: the plugin registry model,
//! the batch selector and the completion protocol of probe batches.

pub mod batch;
pub mod gate;
pub mod manifest;
pub mod probe;
pub mod selector;
pub mod shortcut;
pub mod text;


pub use batch::{
    finish_unit, start_probe_batch, AppState, BatchStart, ProbeBatchComplete, ProbeBatchStarted,
    ProbeResult, UnitActions,
};
pub use gate::{app_started_day_key, format_ymd, should_track_app_started, today_utc_ymd};
pub use manifest::{
    list_plugins, plugin_meta, LineKind, LoadedPlugin, Manifest, ManifestLine, ManifestLineDto,
    PluginLinkDto, PluginMeta,
};
pub use probe::{classify, has_error_badge, Diagnostic, MetricLine, ProbeOutcome, ProbeOutput};
pub use selector::{resolve_batch_id, select_targets};
pub use shortcut::{managed_shortcut_slot, ShortcutPlan, ShortcutSlot};
pub use text::normalize_token;
