//! The settings document in both directions, and the seed set's edits.

use radicle_proxy_client::json::{parse_json, render};
use radicle_proxy_client::session::{
    decode_settings, encode_settings, insert_seed, remove_seed, Appearance, Coco, Hints, Settings,
};

fn settings(seeds: Vec<&str>) -> Settings {
    Settings {
        appearance: Appearance {
            theme: b"dark".to_vec(),
            hints: Hints { show_remote_helper: true },
        },
        coco: Coco { seeds: seeds.into_iter().map(|s| s.as_bytes().to_vec()).collect() },
    }
}

#[test]
fn settings_survive_the_wire_round_trip() {
    let s = settings(vec!["seed.one:12345", "seed.two:12345"]);
    let text = render(&encode_settings(&s));
    let echoed = parse_json(&text).expect("the rendered settings parse back");
    assert_eq!(decode_settings(&echoed), Some(s));
}

#[test]
fn empty_seed_sets_survive_the_wire_round_trip() {
    let s = settings(vec![]);
    let text = render(&encode_settings(&s));
    let echoed = parse_json(&text).expect("the rendered settings parse back");
    assert_eq!(decode_settings(&echoed), Some(s));
}

#[test]
fn settings_render_to_the_expected_document() {
    let s = settings(vec!["a"]);
    assert_eq!(
        render(&encode_settings(&s)),
        b"{\"appearance\":{\"theme\":\"dark\",\"hints\":{\"showRemoteHelper\":true}},\"coco\":{\"seeds\":[\"a\"]}}"
    );
}

#[test]
fn adding_a_seed_twice_adds_it_once() {
    let mut s = settings(vec!["existing"]);
    insert_seed(&mut s, b"fresh".to_vec());
    assert_eq!(s.coco.seeds.len(), 2);
    insert_seed(&mut s, b"fresh".to_vec());
    assert_eq!(s.coco.seeds.len(), 2);
    assert_eq!(s.coco.seeds, vec![b"existing".to_vec(), b"fresh".to_vec()]);
}

#[test]
fn adding_a_present_seed_changes_nothing() {
    let mut s = settings(vec!["existing"]);
    insert_seed(&mut s, b"existing".to_vec());
    assert_eq!(s.coco.seeds, vec![b"existing".to_vec()]);
}

#[test]
fn removing_a_seed_keeps_the_others_in_order() {
    let mut s = settings(vec!["a", "b", "c"]);
    remove_seed(&mut s, b"b");
    assert_eq!(s.coco.seeds, vec![b"a".to_vec(), b"c".to_vec()]);
    remove_seed(&mut s, b"nowhere");
    assert_eq!(s.coco.seeds, vec![b"a".to_vec(), b"c".to_vec()]);
}

#[test]
fn edits_leave_the_rest_of_the_settings_alone() {
    let mut s = settings(vec!["a"]);
    insert_seed(&mut s, b"b".to_vec());
    remove_seed(&mut s, b"a");
    assert_eq!(s.appearance.theme, b"dark".to_vec());
    assert!(s.appearance.hints.show_remote_helper);
}
