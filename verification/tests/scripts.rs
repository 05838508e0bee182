use argus::cli::{Module, Preset};
use argus::load::{
    embedded_group, embedded_prefix_list, load_embedded_scripts, script_directories, scripts,
    starts_with, EmbeddedScript, ScriptLoadOptions,
};
use argus::paths::{collect_js_scripts, normalize_path, path_le_exec, sort_paths};

fn table() -> Vec<EmbeddedScript> {
    let e = |p: &str, c: &str| EmbeddedScript { path: p.to_string(), content: c.to_string() };
    vec![
        e("scripts/anti_debug/a.js", "AD"),
        e("scripts/anti_injection/i.js", "AI"),
        e("scripts/anti_sandbox/s.js", "AS"),
        e("scripts/modules/behavior/b.js", "MB"),
        e("scripts/presets/vmware/v.js", "PV"),
        e("scripts/sensors/1.js", "S1"),
        e("scripts/sensors/2.js", "S2"),
    ]
}

fn options(preset: Option<Preset>, module: Option<Module>, dir: Option<&str>) -> ScriptLoadOptions {
    ScriptLoadOptions { preset, module, scripts_dir: dir.map(|d| d.to_string()) }
}

fn path(parts: &[&str]) -> Vec<String> {
    parts.iter().map(|p| p.to_string()).collect()
}

#[test]
fn groups_load_in_fixed_order() {
    let got = load_embedded_scripts(&table(), &options(None, None, None));
    assert_eq!(got, vec!["S1", "S2", "AI", "AD", "AS"]);
}

#[test]
fn preset_and_module_are_appended() {
    let got = load_embedded_scripts(&table(), &options(Some(Preset::Vmware), Some(Module::Behavior), None));
    assert_eq!(got, vec!["S1", "S2", "AI", "AD", "AS", "PV", "MB"]);
}

#[test]
fn prefixes_of_options() {
    let got = embedded_prefix_list(&options(Some(Preset::Vmware), None, None));
    assert_eq!(
        got,
        vec![
            "scripts/sensors/",
            "scripts/anti_injection/",
            "scripts/anti_debug/",
            "scripts/anti_sandbox/",
            "scripts/presets/vmware/"
        ]
    );
}

#[test]
fn embedded_group_filters_by_prefix() {
    assert_eq!(embedded_group(&table(), "scripts/sensors/"), vec!["S1", "S2"]);
    assert!(embedded_group(&table(), "scripts/none/").is_empty());
    assert!(starts_with("scripts/sensors/1.js", "scripts/"));
    assert!(!starts_with("scr", "scripts/"));
}

#[test]
fn bundle_puts_runtime_first() {
    let runtime = vec!["RT1".to_string(), "RT2".to_string()];
    let got = scripts(&options(None, None, None), &runtime, &table(), &vec![]);
    assert_eq!(got, "RT1\n\nRT2\n\nS1\n\nS2\n\nAI\n\nAD\n\nAS");
}

#[test]
fn bundle_uses_scripts_dir_when_given() {
    let runtime = vec!["RT".to_string()];
    let fs = vec!["F1".to_string(), "F2".to_string()];
    let got = scripts(&options(None, None, Some("dir")), &runtime, &table(), &fs);
    assert_eq!(got, "RT\n\nF1\n\nF2");
}

#[test]
fn directories_to_scan() {
    let got = script_directories(&options(Some(Preset::Vmware), Some(Module::Behavior), Some("d")));
    assert_eq!(
        got,
        vec![
            path(&["sensors"]),
            path(&["anti_injection"]),
            path(&["anti_debug"]),
            path(&["anti_sandbox"]),
            path(&["presets", "vmware"]),
            path(&["modules", "behavior"]),
        ]
    );
}

#[test]
fn path_order_is_by_component() {
    // `a/x.js` comes before `a.js`: the component `a` is a prefix of `a.js`.
    assert!(path_le_exec(&path(&["d", "a", "x.js"]), &path(&["d", "a.js"])));
    assert!(!path_le_exec(&path(&["d", "a.js"]), &path(&["d", "a", "x.js"])));
    assert!(path_le_exec(&path(&["d", "B.js"]), &path(&["d", "a.js"])));
    assert!(path_le_exec(&path(&["d"]), &path(&["d"])));
}

#[test]
fn js_files_are_kept_and_sorted() {
    let files = vec![
        path(&["s", "z.js"]),
        path(&["s", "readme.md"]),
        path(&["s", ".js"]),
        path(&["s", "a", "x.js"]),
        path(&["s", "a.js"]),
        path(&["s", "b.JS"]),
    ];
    let got = collect_js_scripts(files);
    assert_eq!(got, vec![path(&["s", "a", "x.js"]), path(&["s", "a.js"]), path(&["s", "z.js"])]);
}

#[test]
fn sort_orders_paths() {
    let got = sort_paths(vec![path(&["c"]), path(&["a", "b"]), path(&["a"]), path(&["b"])]);
    assert_eq!(got, vec![path(&["a"]), path(&["a", "b"]), path(&["b"]), path(&["c"])]);
}

#[test]
fn listing_order_does_not_matter() {
    let one = vec![path(&["s", "b.js"]), path(&["s", "a", "c.js"]), path(&["s", "a.js"])];
    let two = vec![path(&["s", "a.js"]), path(&["s", "b.js"]), path(&["s", "a", "c.js"])];
    assert_eq!(collect_js_scripts(one), collect_js_scripts(two));
}

#[test]
fn normalized_paths_use_slashes() {
    assert_eq!(normalize_path(&path(&["scripts", "sensors", "x.js"])), "scripts/sensors/x.js");
    assert_eq!(normalize_path(&path(&["scripts", "a\\b.js"])), "scripts/a/b.js");
}
