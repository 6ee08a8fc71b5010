use openusage::{
    list_plugins, managed_shortcut_slot, plugin_meta, LineKind, LoadedPlugin, Manifest,
    ManifestLine,
};

fn line(kind: LineKind, label: &str, order: Option<u32>) -> ManifestLine {
    ManifestLine { kind, label: label.to_string(), scope: "overview".to_string(), primary_order: order }
}

fn sample() -> LoadedPlugin {
    LoadedPlugin {
        manifest: Manifest {
            id: "codex".to_string(),
            name: "Codex".to_string(),
            icon_url: "icon.svg".to_string(),
            brand_color: Some("#000000".to_string()),
            lines: vec![
                line(LineKind::Progress, "Weekly", Some(2)),
                line(LineKind::Text, "Plan", Some(0)),
                line(LineKind::Progress, "Session", Some(1)),
                line(LineKind::Progress, "Credits", None),
                line(LineKind::Badge, "Status", None),
                line(LineKind::Progress, "Daily", Some(1)),
            ],
        },
        icon_data_url: "data:image/svg+xml;base64,AAAA".to_string(),
    }
}

#[test]
fn primary_candidates_sorted_stably() {
    let meta = plugin_meta(&sample());
    assert_eq!(meta.primary_candidates, vec!["Session", "Daily", "Weekly"]);
}

#[test]
fn meta_copies_manifest() {
    let metas = list_plugins(&vec![sample()]);
    assert_eq!(metas.len(), 1);
    let m = &metas[0];
    assert_eq!(m.id, "codex");
    assert_eq!(m.name, "Codex");
    assert_eq!(m.icon_url, "data:image/svg+xml;base64,AAAA");
    assert_eq!(m.brand_color, Some("#000000".to_string()));
    assert_eq!(m.lines.len(), 6);
    assert_eq!(m.lines[0].line_type, "progress");
    assert_eq!(m.lines[1].line_type, "text");
    assert_eq!(m.lines[4].line_type, "badge");
    assert_eq!(m.lines[2].label, "Session");
    assert_eq!(m.lines[2].scope, "overview");
}

#[test]
fn empty_registry_lists_nothing() {
    assert!(list_plugins(&vec![]).is_empty());
}

#[test]
fn shortcut_plan_follows_requests() {
    let mut slot = managed_shortcut_slot();
    assert_eq!(slot.managed, None);
    let plan = slot.plan_update(Some("  Cmd+U ".to_string()));
    assert!(!plan.unchanged);
    assert_eq!(plan.unregister, None);
    assert_eq!(plan.register, Some("Cmd+U".to_string()));
    slot.after_register("Cmd+U".to_string(), true);
    assert_eq!(slot.managed, Some("Cmd+U".to_string()));

    let same = slot.plan_update(Some("Cmd+U".to_string()));
    assert!(same.unchanged);

    let off = slot.plan_update(Some("   ".to_string()));
    assert!(!off.unchanged);
    assert_eq!(off.unregister, Some("Cmd+U".to_string()));
    assert_eq!(off.register, None);
    slot.after_unregister(false);
    assert_eq!(slot.managed, Some("Cmd+U".to_string()));
    slot.after_unregister(true);
    assert_eq!(slot.managed, None);
    slot.after_register("Cmd+J".to_string(), false);
    assert_eq!(slot.managed, None);
    slot.after_register("Cmd+J".to_string(), true);
    slot.disable();
    assert_eq!(slot.managed, None);
}
