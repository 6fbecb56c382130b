//! The file-format codec, the artifact locator and the queries, on
//! concrete values.

use rustutil::errors::OpError;
use rustutil::events::locate_artifact;
use rustutil::experiments::{has_experiment, has_experiments, Experiment};
use rustutil::index::{list_ids, Package};
use rustutil::json::{decode_manifest, decode_str_object, encode_str_object};
use rustutil::packages::versions;
use rustutil::table::StrTable;
use rustutil::text::{from_chars, to_chars};

fn chars(s: &str) -> Vec<char> {
    to_chars(s)
}

fn manifest(s: &str) -> Option<(String, String, StrTable)> {
    decode_manifest(chars(s).as_slice())
}

#[test]
fn manifest_decodes_with_whitespace_and_any_field_order() {
    let text = " {\n \"versions\" : { \"latest\" : \"main\" , \"1.0.0\" : \"v1\" } ,\n \"repo\" : \"URL\" ,\n \"id\" : \"pkg\" }\n";
    let (id, repo, vs) = manifest(text).unwrap();
    assert_eq!(id, "pkg");
    assert_eq!(repo, "URL");
    assert_eq!(vs.pairs.len(), 2);
    assert_eq!(vs.pairs[0].0, "latest");
    assert_eq!(vs.pairs[0].1, "main");
    assert_eq!(vs.pairs[1].0, "1.0.0");
    assert_eq!(vs.pairs[1].1, "v1");
}

#[test]
fn manifest_decodes_string_escapes() {
    let text = "{\"id\":\"a\\\"b\",\"repo\":\"x\\\\y\\n\",\"versions\":{\"latest\":\"m\"}}";
    let (id, repo, _) = manifest(text).unwrap();
    assert_eq!(id, "a\"b");
    assert_eq!(repo, "x\\y\n");
}

#[test]
fn manifest_rejects_wrong_shapes() {
    // a repeated field
    assert!(manifest("{\"id\":\"a\",\"id\":\"b\",\"repo\":\"r\",\"versions\":{}}").is_none());
    // a field no manifest holds
    assert!(
        manifest("{\"id\":\"a\",\"repo\":\"r\",\"versions\":{},\"extra\":\"x\"}").is_none()
    );
    // a missing field
    assert!(manifest("{\"id\":\"a\",\"repo\":\"r\"}").is_none());
    // a version mapping that is no object
    assert!(manifest("{\"id\":\"a\",\"repo\":\"r\",\"versions\":\"v\"}").is_none());
    // a repeated version label
    assert!(
        manifest("{\"id\":\"a\",\"repo\":\"r\",\"versions\":{\"v\":\"b\",\"v\":\"c\"}}")
            .is_none()
    );
    // trailing text
    assert!(manifest("{\"id\":\"a\",\"repo\":\"r\",\"versions\":{}} x").is_none());
    // no manifest at all
    assert!(manifest("").is_none());
    assert!(manifest("[]").is_none());
}

#[test]
fn index_text_round_trips_through_encode_and_decode() {
    let mut t = StrTable { pairs: Vec::new() };
    t.pairs.push((String::from("pkg"), String::from("pkg")));
    t.pairs.push((String::from("quo\"ted"), String::from("back\\slash")));
    let text: String = from_chars(encode_str_object(&t).as_slice());
    let back = decode_str_object(chars(text.as_str()).as_slice()).unwrap();
    assert_eq!(back.pairs, t.pairs);
}

#[test]
fn encoded_index_is_json_that_others_can_read() {
    let mut t = StrTable { pairs: Vec::new() };
    t.pairs.push((String::from("pkg"), String::from("pkg.exe")));
    let text: String = from_chars(encode_str_object(&t).as_slice());
    let v: serde_json::Value = serde_json::from_str(text.as_str()).unwrap();
    assert_eq!(v.get("pkg").unwrap().as_str().unwrap(), "pkg.exe");
}

#[test]
fn index_decode_rejects_repeated_keys_and_other_values() {
    assert!(decode_str_object(chars("{\"a\":\"x\",\"a\":\"y\"}").as_slice()).is_none());
    assert!(decode_str_object(chars("{\"a\":1}").as_slice()).is_none());
    assert!(decode_str_object(chars("{\"a\":{\"b\":\"c\"}}").as_slice()).is_none());
    assert!(decode_str_object(chars("{}").as_slice()).is_some());
    assert!(decode_str_object(chars("  { \"a\" : \"b\" }  ").as_slice()).is_some());
}

#[test]
fn locator_takes_the_first_reported_executable() {
    let out = "{\"reason\":\"x\",\"executable\":null}\n{\"executable\":\"/one\"}\n{\"executable\":\"/two\"}\n";
    assert_eq!(locate_artifact(out).unwrap(), "/one");
}

#[test]
fn locator_passes_over_undecodable_lines() {
    let out = "garbage\n{\"executable\":\"/one\"}\n";
    assert_eq!(locate_artifact(out).unwrap(), "/one");
}

#[test]
fn locator_finds_nothing_without_an_executable_event() {
    assert!(locate_artifact("{\"reason\":\"build-finished\"}\n\n").is_none());
    assert!(locate_artifact("").is_none());
}

#[test]
fn from_id_reads_a_manifest_or_says_why_not() {
    let text = "{\"id\":\"pkg\",\"repo\":\"URL\",\"versions\":{\"latest\":\"main\"}}";
    let p = Package::from_id("pkg", Some(text)).unwrap();
    assert_eq!(p.id, "pkg");
    assert_eq!(p.repo, "URL");
    assert!(matches!(
        Package::from_id("pkg", None),
        Err(OpError::PackageNotFound(_))
    ));
    assert!(matches!(
        Package::from_id("pkg", Some("{broken")),
        Err(OpError::FilesystemFailure(_))
    ));
}

#[test]
fn from_ids_stops_at_the_first_failure() {
    let text = String::from("{\"id\":\"a\",\"repo\":\"r\",\"versions\":{\"latest\":\"m\"}}");
    let ids = vec![String::from("a"), String::from("b"), String::from("c")];
    let files = vec![Some(text), None, None];
    match Package::from_ids(&ids, &files) {
        Err(OpError::PackageNotFound(e)) => assert_eq!(e.0, "b"),
        _ => panic!("expected the second identifier's failure"),
    }
}

#[test]
fn resolve_version_looks_labels_up_exactly() {
    let text = "{\"id\":\"pkg\",\"repo\":\"URL\",\"versions\":{\"latest\":\"main\",\"1.0.0\":\"v1\"}}";
    let p = Package::from_id("pkg", Some(text)).unwrap();
    assert_eq!(p.resolve_version("latest").unwrap(), "main");
    assert_eq!(p.resolve_version("1.0.0").unwrap(), "v1");
    match p.resolve_version("1.0") {
        Err(OpError::PackageVersionNotFound(e)) => {
            assert_eq!(e.id, "pkg");
            assert_eq!(e.version, "1.0");
        }
        _ => panic!("expected PackageVersionNotFound"),
    }
    let empty = Package::from_id(
        "pkg",
        Some("{\"id\":\"pkg\",\"repo\":\"URL\",\"versions\":{}}"),
    )
    .unwrap();
    assert!(matches!(
        empty.resolve_version("latest"),
        Err(OpError::PackageNoVersions(_))
    ));
}

#[test]
fn versions_lists_labels_without_the_default_selector() {
    let text = "{\"id\":\"pkg\",\"repo\":\"URL\",\"versions\":{\"latest\":\"main\",\"1.0.0\":\"v1\",\"2.0.0\":\"v2\"}}";
    let p = Package::from_id("pkg", Some(text)).unwrap();
    assert_eq!(versions(&p), vec![String::from("1.0.0"), String::from("2.0.0")]);
}

#[test]
fn list_ids_drops_the_manifest_extension() {
    let files = vec![
        String::from("foo.json"),
        String::from("bar.tool.json"),
        String::from(".hidden"),
        String::from("plain"),
    ];
    assert_eq!(
        list_ids(&files),
        vec![
            String::from("foo"),
            String::from("bar.tool"),
            String::from(".hidden"),
            String::from("plain"),
        ]
    );
}

#[test]
fn experiments_are_found_by_value() {
    assert!(!has_experiments(&None));
    assert!(has_experiments(&Some(vec![])));
    assert!(!has_experiment(&None, &Experiment::TargetCache));
    assert!(!has_experiment(&Some(vec![]), &Experiment::TargetCache));
    assert!(has_experiment(
        &Some(vec![Experiment::TargetCache]),
        &Experiment::TargetCache
    ));
}

#[test]
fn an_install_begins_with_the_registry_sync() {
    let cfg = rustutil::pipeline::Config { cache_enabled: false };
    let (run, act) = rustutil::pipeline::add_start(
        &cfg,
        String::from("pkg"),
        String::from("latest"),
    );
    assert_eq!(run.id, "pkg");
    assert_eq!(run.version, "latest");
    match act {
        rustutil::pipeline::Action::Sync { url, dir, branch } => {
            assert_eq!(url, "https://github.com/rustutil/.index.git");
            assert_eq!(dir, vec![String::from("index")]);
            assert_eq!(branch, "main");
        }
        _ => panic!("expected the registry sync"),
    }
}

#[test]
fn a_removal_begins_with_the_index_read() {
    let cfg = rustutil::pipeline::Config { cache_enabled: false };
    let (run, act) = rustutil::pipeline::remove_start(&cfg, String::from("pkg"));
    assert_eq!(run.id, "pkg");
    match act {
        rustutil::pipeline::Action::ReadFile { path } => {
            assert_eq!(path, vec![String::from("bin"), String::from("index.json")]);
        }
        _ => panic!("expected the index read"),
    }
}

#[test]
fn text_survives_the_char_bridge() {
    let s = "p\u{e4}ckage \u{1F980} name\n";
    assert_eq!(from_chars(to_chars(s).as_slice()), s);
}
