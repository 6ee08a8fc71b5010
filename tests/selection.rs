use openusage::{
    finish_unit, normalize_token, resolve_batch_id, select_targets, start_probe_batch, AppState,
    LineKind, LoadedPlugin, Manifest, ManifestLine, ProbeOutcome, ProbeOutput,
};

fn plugin(id: &str) -> LoadedPlugin {
    LoadedPlugin {
        manifest: Manifest {
            id: id.to_string(),
            name: format!("Plugin {}", id),
            icon_url: "icon.svg".to_string(),
            brand_color: None,
            lines: vec![ManifestLine {
                kind: LineKind::Progress,
                label: "Usage".to_string(),
                scope: "overview".to_string(),
                primary_order: Some(1),
            }],
        },
        icon_data_url: format!("data:image/svg+xml;base64,{}", id),
    }
}

fn state(ids: &[&str]) -> AppState {
    AppState {
        plugins: ids.iter().map(|id| plugin(id)).collect(),
        app_data_dir: "/tmp/data".to_string(),
        app_version: "0.6.3".to_string(),
    }
}

fn ids(v: &[&str]) -> Vec<String> {
    v.iter().map(|s| s.to_string()).collect()
}

fn output(id: &str) -> ProbeOutput {
    ProbeOutput { plugin_id: id.to_string(), display_name: id.to_string(), lines: vec![] }
}

#[test]
fn no_list_selects_whole_registry() {
    let s = state(&["a", "b", "c"]);
    assert_eq!(select_targets(&s.plugins, &None), vec![0, 1, 2]);
    let start = start_probe_batch(&s, Some("batch-1".to_string()), None);
    assert_eq!(start.started.plugin_ids, ids(&["a", "b", "c"]));
    assert!(!start.complete_now);
}

#[test]
fn duplicates_keep_first_occurrence() {
    let s = state(&["a", "b", "c"]);
    let req = Some(ids(&["b", "a", "b", "a", "c"]));
    assert_eq!(select_targets(&s.plugins, &req), vec![1, 0, 2]);
}

#[test]
fn unknown_ids_are_dropped() {
    let s = state(&["a", "b"]);
    let start = start_probe_batch(&s, None, Some(ids(&["x", "b", "y"])));
    assert_eq!(start.started.plugin_ids, ids(&["b"]));
    assert_eq!(start.targets, vec![1]);
}

#[test]
fn scenario_mixed_request_completes_after_two() {
    let s = state(&["a", "b", "c"]);
    let start = start_probe_batch(&s, Some("b1".to_string()), Some(ids(&["c", "a", "c", "z"])));
    assert_eq!(start.started.plugin_ids, ids(&["c", "a"]));
    assert_eq!(start.targets, vec![2, 0]);
    assert!(!start.complete_now);
    let mut remaining = start.targets.len();
    let mut completions = 0;
    let mut finished = 0;
    for t in &start.targets {
        let out = ProbeOutcome::Finished(output(&s.plugins[*t].manifest.id));
        let acts = finish_unit(remaining, &out);
        remaining -= 1;
        finished += 1;
        if acts.emit_complete {
            completions += 1;
            assert_eq!(finished, 2);
        }
        assert!(acts.emit_result);
    }
    assert_eq!(completions, 1);
    assert_eq!(remaining, 0);
}

#[test]
fn scenario_empty_list_completes_at_once() {
    let s = state(&["a", "b", "c"]);
    let start = start_probe_batch(&s, Some("b2".to_string()), Some(vec![]));
    assert!(start.started.plugin_ids.is_empty());
    assert!(start.targets.is_empty());
    assert!(start.complete_now);
}

#[test]
fn empty_registry_completes_at_once() {
    let s = state(&[]);
    let start = start_probe_batch(&s, None, None);
    assert!(start.complete_now);
    assert!(start.started.plugin_ids.is_empty());
}

#[test]
fn batch_id_is_trimmed() {
    assert_eq!(resolve_batch_id(Some("  abc \n".to_string())), "abc");
    let s = state(&["a"]);
    let start = start_probe_batch(&s, Some("\tid-7 ".to_string()), None);
    assert_eq!(start.started.batch_id, "id-7");
}

#[test]
fn blank_batch_id_gets_fresh_token() {
    let a = resolve_batch_id(Some("   ".to_string()));
    let b = resolve_batch_id(None);
    assert_eq!(a.len(), 36);
    assert_eq!(b.len(), 36);
    assert_ne!(a, b);
    assert_eq!(a.matches('-').count(), 4);
}

#[test]
fn normalize_token_trims_and_drops_blank() {
    assert_eq!(normalize_token(Some(" Cmd+Shift+U ".to_string())), Some("Cmd+Shift+U".to_string()));
    assert_eq!(normalize_token(Some(" \u{3000}\t".to_string())), None);
    assert_eq!(normalize_token(None), None);
}
