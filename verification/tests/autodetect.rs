//! Finding the format of a plugin source.

use tang::autodetect::resolve;
use tang::plugin::{load_route, LoadRoute, PluginType};

#[test]
fn explicit_lv2_prefix() {
    let (ty, src) = resolve("lv2:http://tytel.org/helm", true).unwrap();
    assert_eq!(ty, PluginType::Lv2);
    assert_eq!(src, "lv2:http://tytel.org/helm");
}

#[test]
fn explicit_clap_prefix() {
    let (ty, src) = resolve("clap:com.u-he.diva", true).unwrap();
    assert_eq!(ty, PluginType::Clap);
    assert_eq!(src, "clap:com.u-he.diva");
}

#[test]
fn lv2_bundle_path() {
    let (ty, src) = resolve("/usr/lib/lv2/helm.lv2", true).unwrap();
    assert_eq!(ty, PluginType::Lv2);
    assert_eq!(src, "/usr/lib/lv2/helm.lv2");
}

#[test]
fn lv2_bundle_path_trailing_slash() {
    let (ty, src) = resolve("/usr/lib/lv2/helm.lv2/", true).unwrap();
    assert_eq!(ty, PluginType::Lv2);
    assert_eq!(src, "/usr/lib/lv2/helm.lv2/");
}

#[test]
fn clap_bundle_path() {
    let (ty, src) = resolve("/usr/lib/clap/diva.clap", true).unwrap();
    assert_eq!(ty, PluginType::Clap);
    assert_eq!(src, "/usr/lib/clap/diva.clap");
}

#[test]
fn bare_http_uri() {
    let (ty, src) = resolve("http://tytel.org/helm", true).unwrap();
    assert_eq!(ty, PluginType::Lv2);
    assert_eq!(src, "lv2:http://tytel.org/helm");
}

#[test]
fn bare_https_uri() {
    let (ty, src) = resolve("https://example.org/plugin", true).unwrap();
    assert_eq!(ty, PluginType::Lv2);
    assert_eq!(src, "lv2:https://example.org/plugin");
}

#[test]
fn bare_urn() {
    let (ty, src) = resolve("urn:lv2:some-plugin", true).unwrap();
    assert_eq!(ty, PluginType::Lv2);
    assert_eq!(src, "lv2:urn:lv2:some-plugin");
}

#[test]
fn bare_clap_id() {
    let (ty, src) = resolve("com.u-he.diva", true).unwrap();
    assert_eq!(ty, PluginType::Clap);
    assert_eq!(src, "clap:com.u-he.diva");
}

#[test]
fn bare_clap_id_deep() {
    let (ty, src) = resolve("org.surge-synth-team.surge-xt", true).unwrap();
    assert_eq!(ty, PluginType::Clap);
    assert_eq!(src, "clap:org.surge-synth-team.surge-xt");
}

#[test]
fn unknown_format() {
    assert!(resolve("something-without-dots", true).is_err());
}

#[test]
fn lv2_disabled_error() {
    let err = resolve("lv2:http://tytel.org/helm", false).unwrap_err();
    assert!(
        err.message().contains("LV2 support is not enabled"),
        "unexpected error: {}",
        err.message()
    );
}

#[test]
fn clap_ids_load_without_lv2() {
    let (ty, src) = resolve("com.u-he.diva", false).unwrap();
    assert_eq!(ty, PluginType::Clap);
    assert_eq!(src, "clap:com.u-he.diva");
    assert!(resolve("http://tytel.org/helm", false).is_err());
}

#[test]
fn resolving_again_changes_nothing() {
    let (ty, src) = resolve("com.u-he.diva", true).unwrap();
    let (again, same) = resolve(&src, true).unwrap();
    assert_eq!(ty, again);
    assert_eq!(src, same);
}

#[test]
fn unknown_source_is_named_in_the_message() {
    let err = resolve("nonsense", true).unwrap_err();
    assert!(err.message().contains("nonsense"));
}

#[test]
fn builtins_are_not_hosted() {
    assert!(matches!(load_route("builtin:osc", true), Ok(LoadRoute::Builtin)));
    assert!(matches!(
        load_route("com.u-he.diva", true),
        Ok(LoadRoute::Hosted(PluginType::Clap, _))
    ));
    assert!(matches!(load_route("vst3:a.b", true), Ok(LoadRoute::Vst3)));
    assert!(matches!(load_route("/v/Synth.vst3", true), Ok(LoadRoute::Vst3)));
    assert!(load_route("nonsense", true).is_err());
}
