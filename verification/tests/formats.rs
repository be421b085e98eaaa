//! Plugin formats.

use tang::formats::clap::{
    choose_preset as choose_clap, collect_params as collect_clap, find_plugin, input_ports, is_preset_file,
    list_presets, output_ports, param_id, plugin_name, port_spans, source_kind as clap_source, ClapSource,
    FoundPreset, LoadFault, PresetData, RawParam as ClapParam,
};
use tang::formats::lv2::{
    bundle_path, bundle_uri, find_preset_id, name_preset, parameters, preset_values, source_kind, ControlPort,
    Lv2Source,
};
use tang::formats::vst3::{
    bundle_binary_path, bus_channels, char_array_to_string, choose_preset as choose_vst3, class_plugin_info,
    collect_params, guid_to_tuid, is_bundle, is_class_instrument, is_wanted, number_presets, order_bundles, pick_class,
    share_scan_time, string128_to_string, string_to_string128, vst3_search_paths, ChangeValue, ClassInfo, HostEvent, NoteTracker,
    PresetFault, RawParam,
};
use tang::paths::System;

#[test]
fn utf16_fields_end_at_zero() {
    let field = string_to_string128("Löwe 🎹");
    assert_eq!(field.len(), 128);
    assert_eq!(string128_to_string(&field), "Löwe 🎹");
    assert_eq!(string128_to_string(&[72, 105, 0, 88]), "Hi");
    // A lone surrogate is replaced.
    assert_eq!(string128_to_string(&[0xD800, 65]), "\u{FFFD}A");
    assert_eq!(string128_to_string(&[0xDC00, 0xD83C, 0xDFB9]), "\u{FFFD}🎹");
    assert_eq!(string128_to_string(&[0xD83C, 0xD83C, 0xDFB9, 0xD83C]), "\u{FFFD}🎹\u{FFFD}");
    let long = string_to_string128(&"x".repeat(300));
    assert_eq!(long[126], 120);
    assert_eq!(long[127], 0);
}

#[test]
fn byte_fields_end_at_zero() {
    assert_eq!(char_array_to_string(b"Audio\0rest"), "Audio");
    assert_eq!(char_array_to_string(&[0xE9, 65]), "\u{E9}A");
}

#[test]
fn vst3_directories_follow_the_home() {
    let extra = vec!["/extra".to_string()];
    assert_eq!(
        vst3_search_paths(System::Linux, Some("/home/me"), &extra),
        vec!["/home/me/.vst3", "/usr/lib/vst3", "/usr/local/lib/vst3", "/extra"]
    );
    assert_eq!(
        vst3_search_paths(System::Mac, Some("/Users/me"), &extra),
        vec!["/Users/me/Library/Audio/Plug-Ins/VST3", "/Library/Audio/Plug-Ins/VST3", "/extra"]
    );
    assert_eq!(
        vst3_search_paths(System::Windows, Some(r"C:\Users\me"), &vec![]),
        vec![r"C:\Users\me\Programs/Common/VST3", r"C:\Program Files\Common Files\VST3"]
    );
    assert!(!vst3_search_paths(System::Linux, None, &vec![]).iter().any(|p| p.contains("home")));
}

#[test]
fn bundles_hold_their_binary() {
    assert_eq!(
        bundle_binary_path(System::Linux, "/v/Synth.vst3", "x86_64"),
        "/v/Synth.vst3/Contents/x86_64-linux/Synth.so"
    );
    assert_eq!(
        bundle_binary_path(System::Linux, "/v/Synth.vst3/", "aarch64"),
        "/v/Synth.vst3/Contents/aarch64-linux/Synth.so"
    );
    assert_eq!(
        bundle_binary_path(System::Mac, "/v/Synth.vst3", "aarch64"),
        "/v/Synth.vst3/Contents/MacOS/Synth"
    );
    assert_eq!(
        bundle_binary_path(System::Windows, r"C:\v\Synth.vst3", "x86_64"),
        r"C:\v\Synth.vst3\Contents\x86_64-win\Synth.vst3"
    );
    assert_eq!(
        bundle_binary_path(System::Windows, r"C:\v\Synth.vst3", "aarch64"),
        r"C:\v\Synth.vst3\Contents\aarch64-win\Synth.vst3"
    );
}

#[test]
fn bundles_that_match_come_first() {
    let bundles = vec!["/v/Alpha.vst3".to_string(), "/v/Beta Synth.vst3".to_string(), "/v/Gamma.vst3".to_string()];
    let order = order_bundles(System::Linux, &bundles, "beta");
    assert_eq!(order[0], "/v/Beta Synth.vst3");
    assert_eq!(order.len(), 3);
}

fn class(category: &str, name: &str) -> ClassInfo {
    ClassInfo { category: category.to_string(), name: name.to_string() }
}

#[test]
fn classes_are_picked_by_name() {
    let classes = vec![
        class("Component Controller Class", "Piano"),
        class("Audio Module Class", "Organ"),
        class("Audio Module Class", "Piano"),
    ];
    assert_eq!(pick_class(&classes, Some("piano")), Some(2));
    assert_eq!(pick_class(&classes, None), Some(1));
    assert_eq!(pick_class(&classes, Some("flute")), None);
    assert!(!is_wanted(&classes[0], None));
    assert!(is_class_instrument("Instrument|Synth"));
    assert!(!is_class_instrument("Fx|Reverb"));
}

#[test]
fn scan_time_is_shared() {
    let info = |n: &str| class_plugin_info(n, true, 1, 0, "/p".to_string());
    let mut found = vec![info("a"), info("b")];
    share_scan_time(&mut found, 9);
    assert_eq!(found[0].scan_ms, 4);
    assert_eq!(found[1].scan_ms, 4);
    assert_eq!(found[0].id, "vst3:a");
}

fn raw(id: u32, program_change: bool) -> RawParam<i32> {
    RawParam { id, program_change, name: format!("p{id}"), min: 0, max: 1, default: 0 }
}

#[test]
fn parameters_are_numbered() {
    let table = collect_params(&vec![raw(40, false), raw(41, true), raw(42, false)]);
    assert_eq!(table.program, Some(41));
    assert_eq!(table.params.len(), table.ids.len());
    for (i, p) in table.params.iter().enumerate() {
        assert_eq!(p.index as usize, i);
    }
}

#[test]
fn vst3_presets_are_programs() {
    let presets = number_presets(vec!["Init".to_string(), "Lead".to_string()]);
    assert_eq!(presets[1].name, "Lead");
    assert_eq!(presets[1].id, "1");
    let choice = choose_vst3("1", Some(7), 2).unwrap();
    assert_eq!((choice.param, choice.at), (7, 1));
    assert_eq!(choose_vst3("x", Some(7), 2).unwrap_err(), PresetFault::InvalidId);
    assert_eq!(choose_vst3("1", None, 2).unwrap_err(), PresetFault::NoProgramChange);
    assert_eq!(choose_vst3("0", Some(7), 0).unwrap_err(), PresetFault::NoPresets);
    assert!(PresetFault::InvalidId.message("x").contains('x'));
}

#[test]
fn buses_without_an_answer_get_what_is_assumed() {
    assert_eq!(bus_channels(false, None, 2).0, 2);
    assert_eq!(bus_channels(true, Some(4), 2).0, 4);
    assert_eq!(bus_channels(true, None, 2).0, 2);
}

#[test]
fn a_note_off_names_its_note_on() {
    let mut tracker: NoteTracker<f64> = NoteTracker::new(vec![None; 130]);
    let (events, changes) = tracker.prepare(&[(0, [0x90, 60, 100]), (4, [0x91, 60, 100]), (8, [0x80, 60, 0])]);
    assert!(changes.is_empty());
    let ids: Vec<i32> = events
        .iter()
        .map(|e| match e {
            HostEvent::NoteOn { note_id, .. } => *note_id,
            HostEvent::NoteOff { note_id, .. } => *note_id,
            HostEvent::PitchBend { .. } => -2,
        })
        .collect();
    assert_eq!(ids.len(), 3);
    assert_ne!(ids[0], ids[1]);
    assert_eq!(ids[0], ids[2]);
}

#[test]
fn mapped_controllers_become_parameters() {
    let mut map = vec![None; 130];
    map[7] = Some(99);
    let mut tracker: NoteTracker<f64> = NoteTracker::new(map);
    tracker.pending.push((5, 0.25));
    let (events, changes) = tracker.prepare(&[(0, [0xB0, 7, 64]), (0, [0xB0, 8, 64])]);
    assert!(events.is_empty());
    assert_eq!(changes.len(), 2);
    assert_eq!(changes[0].id, 5);
    assert!(matches!(changes[0].value, ChangeValue::Plain(v) if v == 0.25));
    assert_eq!(changes[1].id, 99);
    assert!(matches!(changes[1].value, ChangeValue::Controller(64)));
    assert!(tracker.pending.is_empty());
}

#[test]
fn clap_ports_are_summed() {
    let layout = output_ports(Some(vec![2, 4]));
    assert_eq!((layout.total, layout.channels), (6, vec![2, 4]));
    let layout = output_ports(None);
    assert_eq!((layout.total, layout.channels), (2, vec![2]));
    assert_eq!(input_ports(None).total, 0);
}

fn found(name: Option<&str>, key: Option<&str>, path: Option<&str>) -> FoundPreset {
    FoundPreset {
        name: name.map(|s| s.to_string()),
        load_key: key.map(|s| s.to_string()),
        file_path: path.map(|s| s.to_string()),
    }
}

#[test]
fn clap_presets_are_listed_and_found() {
    let (presets, data) = list_presets(&vec![
        found(Some("Init"), Some("k0"), None),
        found(Some("Lead"), None, Some("/p/lead.preset")),
    ]);
    assert_eq!(presets.len(), 2);
    assert_eq!(data.len(), 2);
    for (i, p) in presets.iter().enumerate() {
        assert_eq!(choose_clap(&p.id, &data, true).unwrap(), i);
    }
    assert_eq!(choose_clap("x", &data, true).unwrap_err(), LoadFault::InvalidId);
    assert_eq!(choose_clap("7", &data, true).unwrap_err(), LoadFault::OutOfRange);
    assert_eq!(choose_clap("0", &data, false).unwrap_err(), LoadFault::Unsupported);
    let nowhere = vec![PresetData { is_plugin_location: false, file_path: None, load_key: None }];
    assert_eq!(choose_clap("0", &nowhere, true).unwrap_err(), LoadFault::NoLocation);
    assert!(LoadFault::OutOfRange.message("7").contains('7'));
}

#[test]
fn preset_files_have_a_declared_extension() {
    let declared = vec!["preset".to_string()];
    assert!(is_preset_file(Some("preset"), &declared));
    assert!(!is_preset_file(Some("txt"), &declared));
    assert!(!is_preset_file(None, &declared));
    assert_eq!(param_id(&vec![10, 20], 1), Some(20));
    assert_eq!(param_id(&vec![10, 20], 2), None);
}

#[test]
fn lv2_sources_are_told_apart() {
    assert!(matches!(source_kind("lv2:http://x/y"), Lv2Source::Uri(u) if u == "http://x/y"));
    assert!(matches!(source_kind("/usr/lib/lv2/helm.lv2"), Lv2Source::Path(_)));
    assert!(matches!(source_kind("file:///x/helm.lv2/"), Lv2Source::Bundle(_)));
    let uri = bundle_uri("/usr/lib/lv2/helm.lv2");
    assert!(uri.starts_with("file://"));
    assert_eq!(bundle_path(&uri), "/usr/lib/lv2/helm.lv2/");
}

fn port(index: u32, symbol: &str) -> ControlPort<i32> {
    ControlPort {
        index,
        name: symbol.to_uppercase(),
        symbol: symbol.to_string(),
        min: None,
        max: Some(7),
        default: 3,
    }
}

#[test]
fn lv2_ports_become_parameters() {
    let ports = vec![port(4, "gain"), port(9, "tone")];
    let params = parameters(&ports, 0, 1);
    assert_eq!(params.len(), 2);
    assert_eq!(params[1].name, "TONE");
    assert_eq!((params[0].min, params[0].max, params[0].default), (0, 7, 3));
    let values = preset_values(&ports, &vec![("tone".to_string(), 5), ("nothing".to_string(), 6)]);
    assert_eq!(values, vec![(9, 5)]);
}

#[test]
fn lv2_presets_need_an_address() {
    let p = name_preset(Some("http://p"), Some("Warm")).unwrap();
    assert_eq!((p.name.as_str(), p.id.as_str()), ("Warm", "http://p"));
    assert!(name_preset(None, Some("Warm")).is_none());
    let list = vec![p];
    assert_eq!(find_preset_id(&list, "http://p"), Some(0));
    assert_eq!(find_preset_id(&list, "http://q"), None);
}

#[test]
fn clap_plugins_are_named_by_id_or_path() {
    assert!(matches!(clap_source("clap:com.u-he.diva"), ClapSource::Id(id) if id == "com.u-he.diva"));
    assert!(matches!(clap_source("/usr/lib/clap/Diva.clap"), ClapSource::Path(p) if p == "/usr/lib/clap/Diva.clap"));
    let ids = vec![None, Some("a.b".to_string()), Some("c.d".to_string()), Some("c.d".to_string())];
    assert_eq!(find_plugin(&ids, "c.d"), Some(2));
    assert_eq!(find_plugin(&ids, "c"), None);
    assert_eq!(plugin_name(Some("Diva".to_string()), "com.u-he.diva"), "Diva");
    assert_eq!(plugin_name(None, "com.u-he.diva"), "com.u-he.diva");
}

#[test]
fn ports_take_their_channels_in_turn() {
    assert_eq!(port_spans(&vec![2, 1, 0, 4]), vec![(0, 2), (2, 1), (3, 0), (3, 4)]);
    assert_eq!(port_spans(&vec![]), vec![]);
}

#[test]
fn clap_parameters_keep_their_place() {
    let raw = |id: u32, name: &str| Some(ClapParam { id, name: name.to_string(), min: 0, max: 9, default: 3 });
    let (params, ids) = collect_clap(&vec![raw(70, "Cutoff"), None, raw(71, "Drive")]);
    assert_eq!(ids, vec![70, 71]);
    assert_eq!(params.len(), 2);
    assert_eq!((params[1].index, params[1].name.as_str(), params[1].default), (2, "Drive", 3));
}

#[test]
fn vst3_bundles_are_told_by_their_extension() {
    assert!(is_bundle(Some("vst3")));
    assert!(is_bundle(Some("VST3")));
    assert!(!is_bundle(Some("vst")));
    assert!(!is_bundle(None));
}

#[test]
fn identifiers_keep_their_bytes() {
    let mut guid = [0u8; 16];
    guid[0] = 0x7F;
    guid[1] = 0x80;
    guid[15] = 0xFF;
    let tuid = guid_to_tuid(&guid);
    assert_eq!((tuid[0], tuid[1], tuid[2], tuid[15]), (127, -128, 0, -1));
}
