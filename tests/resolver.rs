use std::collections::HashSet;
use wallcolle::resolver::{
    check_unique_names, scan_all_artists, scan_entries, scan_single_artist, ContributorMeta,
    NameCollision, WallPaperMeta,
};

fn offered(index: usize, title: &str) -> WallPaperMeta {
    WallPaperMeta {
        index,
        format: "jpg".to_string(),
        title: title.to_string(),
        license: "CC-BY-SA-4.0".to_string(),
        tags: vec!["16x9".to_string(), "nature".to_string()],
        email: String::new(),
        artist: String::new(),
        src: String::new(),
        dest: String::new(),
        entry_name: String::new(),
    }
}

fn artist(username: &str, wallpapers: Vec<WallPaperMeta>) -> ContributorMeta {
    ContributorMeta {
        name: "Jane Doe".to_string(),
        username: username.to_string(),
        email: "jane@example.org".to_string(),
        uri: "https://example.org".to_string(),
        src: None,
        wallpapers,
    }
}

#[test]
fn scan_entry_fills_identity_and_paths() {
    let a = artist("jdoe", vec![]);
    let r = scan_entries("Summer.vibes", offered(2, "blue hour"), &a, "/pack/contributors/jdoe");
    assert_eq!(r.entry_name, "Summer.vibes--jdoe--BlueHour");
    assert_eq!(
        r.dest,
        "/usr/share/backgrounds/Summer.vibes--jdoe--BlueHour/Summer.vibes--jdoe--BlueHour.jpg"
    );
    assert_eq!(r.artist, "Jane Doe");
    assert_eq!(r.email, "jane@example.org");
    assert_eq!(r.src, "/pack/contributors/jdoe");
    assert_eq!(r.index, 2);
    assert_eq!(r.title, "blue hour");
    assert_eq!(r.license, "CC-BY-SA-4.0");
    assert_eq!(r.tags, vec!["16x9".to_string(), "nature".to_string()]);
}

#[test]
fn scan_artist_keeps_selected_in_record_order() {
    let a = artist("jdoe", vec![offered(0, "one"), offered(1, "two"), offered(2, "three")]);
    let sel: HashSet<usize> = [2, 0].into_iter().collect();
    let r = scan_single_artist("P", &a, "/root/contributors/jdoe", &sel);
    let names: Vec<&str> = r.iter().map(|e| e.entry_name.as_str()).collect();
    assert_eq!(names, vec!["P--jdoe--One", "P--jdoe--Three"]);
}

#[test]
fn scan_artist_drops_absent_index_without_error() {
    let a = artist("jdoe", vec![offered(0, "one"), offered(1, "two")]);
    let sel: HashSet<usize> = [1, 7].into_iter().collect();
    let r = scan_single_artist("P", &a, "/root/contributors/jdoe", &sel);
    assert_eq!(r.len(), 1);
    assert_eq!(r[0].index, 1);
    assert!(r.iter().all(|e| e.index != 7));
}

#[test]
fn scan_all_concatenates_in_group_order() {
    let groups = vec![
        ("bob".to_string(), [0usize].into_iter().collect::<HashSet<usize>>()),
        ("amy".to_string(), [0usize, 1].into_iter().collect::<HashSet<usize>>()),
    ];
    let records = vec![
        artist("bob", vec![offered(0, "sea")]),
        artist("amy", vec![offered(0, "hill"), offered(1, "sky")]),
    ];
    let r = scan_all_artists(&groups, &records, "/work/pack", "Pack");
    let names: Vec<&str> = r.iter().map(|e| e.entry_name.as_str()).collect();
    assert_eq!(names, vec!["Pack--bob--Sea", "Pack--amy--Hill", "Pack--amy--Sky"]);
    assert_eq!(r[0].src, "/work/pack/contributors/bob");
    assert_eq!(r[2].src, "/work/pack/contributors/amy");
}

#[test]
fn unique_names_pass_and_collisions_fail() {
    let a = artist("jdoe", vec![]);
    let e1 = scan_entries("P", offered(0, "Blue Hour"), &a, "/x");
    let e2 = scan_entries("P", offered(1, "blue-hour"), &a, "/x");
    let e3 = scan_entries("P", offered(2, "red"), &a, "/x");
    let ok = vec![
        scan_entries("P", offered(0, "Blue Hour"), &a, "/x"),
        scan_entries("P", offered(2, "red"), &a, "/x"),
    ];
    assert_eq!(check_unique_names(&ok), Ok(()));
    assert_eq!(
        check_unique_names(&vec![e1, e3, e2]),
        Err(NameCollision { name: "P--jdoe--BlueHour".to_string() })
    );
    assert_eq!(check_unique_names(&Vec::new()), Ok(()));
}
