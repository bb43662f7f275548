use std::collections::HashSet;
use wallcolle::convert::{optimize_png, ImageError};
use wallcolle::layout::{
    decimal, make_dest_dirs, plan_pack, process_mainline, process_retro, process_single_entry,
    write_gtk_config, FsAction,
};
use wallcolle::resolver::{scan_entries, ContributorMeta, NameCollision, WallPaperMeta};

fn entry(title: &str) -> WallPaperMeta {
    let a = ContributorMeta {
        name: "Jane".to_string(),
        username: "jdoe".to_string(),
        email: "j@example.org".to_string(),
        uri: String::new(),
        src: None,
        wallpapers: vec![],
    };
    let offered = WallPaperMeta {
        index: 12,
        format: "png".to_string(),
        title: title.to_string(),
        license: "CC0".to_string(),
        tags: vec![],
        email: String::new(),
        artist: String::new(),
        src: String::new(),
        dest: String::new(),
        entry_name: String::new(),
    };
    scan_entries("P", offered, &a, "/pack/contributors/jdoe")
}

fn s(x: &str) -> String {
    x.to_string()
}

#[test]
fn dest_dirs_are_created_first() {
    let r = make_dest_dirs();
    assert_eq!(
        r,
        vec![
            FsAction::CreateDir(s("usr/share/wallpapers")),
            FsAction::CreateDir(s("usr/share/backgrounds/xfce")),
            FsAction::CreateDir(s("usr/share/background-properties")),
            FsAction::CreateDir(s("usr/share/gnome-background-properties")),
            FsAction::CreateDir(s("usr/share/mate-background-properties")),
        ]
    );
}

#[test]
fn decimal_notation() {
    assert_eq!(decimal(0), "0");
    assert_eq!(decimal(7), "7");
    assert_eq!(decimal(1234), "1234");
    assert_eq!(decimal(usize::MAX), usize::MAX.to_string());
}

#[test]
fn mainline_entry_plan_head() {
    let e = entry("Sky");
    let plan = process_single_entry(&e, false);
    assert_eq!(plan.len(), 3 + 2 + 7 + 28);
    assert_eq!(plan[0], FsAction::CreateDir(s("usr/share/backgrounds/P--jdoe--Sky")));
    assert_eq!(
        plan[1],
        FsAction::CreateDir(s("usr/share/wallpapers/P--jdoe--Sky/contents/images"))
    );
    assert_eq!(
        plan[2],
        FsAction::WriteEntryDescriptor(s("usr/share/wallpapers/P--jdoe--Sky/metadata.desktop"))
    );
    assert_eq!(
        plan[3],
        FsAction::Copy {
            from: s("/pack/contributors/jdoe/12.png"),
            to: s("usr/share/backgrounds/P--jdoe--Sky/P--jdoe--Sky.png"),
        }
    );
    assert_eq!(
        plan[5],
        FsAction::Symlink {
            target: s("/usr/share/backgrounds/P--jdoe--Sky/P--jdoe--Sky.png"),
            link: s("usr/share/backgrounds/xfce/P--jdoe--Sky-1-1.png"),
        }
    );
    assert_eq!(
        plan[39],
        FsAction::Symlink {
            target: s("/usr/share/backgrounds/P--jdoe--Sky/P--jdoe--Sky.png"),
            link: s("usr/share/wallpapers/P--jdoe--Sky/contents/images/800x600.png"),
        }
    );
}

#[test]
fn mainline_links_all_point_at_canonical_image() {
    let e = entry("Sky");
    let plan = process_single_entry(&e, false);
    let mut links = HashSet::new();
    let mut count = 0;
    for a in &plan {
        if let FsAction::Symlink { target, link } = a {
            assert_eq!(target, &e.dest);
            links.insert(link.clone());
            count += 1;
        }
        assert!(!matches!(a, FsAction::Derive { .. }));
    }
    assert_eq!(count, 1 + 7 + 28);
    assert_eq!(links.len(), count);
}

#[test]
fn retro_derives_distinct_files() {
    let e = entry("Sky");
    let plan = process_single_entry(&e, true);
    assert_eq!(plan.len(), 3 + 7 + 5);
    let mut outs = HashSet::new();
    let mut res = Vec::new();
    for a in &plan {
        assert!(!matches!(a, FsAction::Copy { .. }));
        if let FsAction::Derive { source, resolution, to } = a {
            assert_eq!(source, "/pack/contributors/jdoe/12.png");
            outs.insert(to.clone());
            res.push(resolution.clone());
        }
    }
    assert_eq!(outs.len(), 4);
    assert_eq!(res, vec![s("800x600"), s("1280x960"), s("1600x1200"), s("1920x1200")]);
    assert_eq!(
        plan[14],
        FsAction::Symlink {
            target: s("/usr/share/wallpapers/P--jdoe--Sky/contents/images/1280x960.png"),
            link: s("usr/share/wallpapers/P--jdoe--Sky/screenshot.png"),
        }
    );
}

#[test]
fn mainline_and_retro_fan_outs() {
    let m = process_mainline("/img.jpg", "N", "jpg");
    assert_eq!(m.len(), 28);
    assert_eq!(
        m[0],
        FsAction::Symlink {
            target: s("/img.jpg"),
            link: s("usr/share/wallpapers/N/contents/images/1024x768.jpg"),
        }
    );
    let r = process_retro("/src/1.png", "N");
    assert_eq!(r.len(), 5);
    assert_eq!(
        r[1],
        FsAction::Derive {
            source: s("/src/1.png"),
            resolution: s("1280x960"),
            to: s("usr/share/wallpapers/N/contents/images/1280x960.png"),
        }
    );
}

#[test]
fn gtk_config_written_once_and_linked() {
    let r = write_gtk_config("my-cool-pack");
    assert_eq!(
        r,
        vec![
            FsAction::WriteAlbumDescriptor(s("usr/share/background-properties/My.cool.pack.xml")),
            FsAction::Symlink {
                target: s("/usr/share/background-properties/My.cool.pack.xml"),
                link: s("usr/share/gnome-background-properties/My.cool.pack.xml"),
            },
            FsAction::Symlink {
                target: s("/usr/share/background-properties/My.cool.pack.xml"),
                link: s("usr/share/mate-background-properties/My.cool.pack.xml"),
            },
        ]
    );
}

#[test]
fn plan_pack_refuses_colliding_names() {
    let entries = vec![entry("Blue Hour"), entry("Sky"), entry("blue_hour")];
    assert_eq!(
        plan_pack(&entries, false),
        Err(NameCollision { name: s("P--jdoe--BlueHour") })
    );
    let ok = vec![entry("Blue Hour"), entry("Sky")];
    let plans = plan_pack(&ok, true).unwrap();
    assert_eq!(plans.len(), 2);
    assert_eq!(plans[1], process_single_entry(&ok[1], true));
}

const TINY_PNG: [u8; 120] = [
    137, 80, 78, 71, 13, 10, 26, 10, 0, 0, 0, 13, 73, 72, 68, 82, 0, 0, 0, 4, 0, 0, 0, 4, 8, 2, 0,
    0, 0, 38, 147, 9, 41, 0, 0, 0, 63, 73, 68, 65, 84, 120, 1, 1, 52, 0, 203, 255, 0, 255, 0, 0,
    255, 0, 0, 255, 0, 0, 255, 0, 0, 0, 255, 0, 0, 255, 0, 0, 255, 0, 0, 255, 0, 0, 0, 255, 0, 0,
    255, 0, 0, 255, 0, 0, 255, 0, 0, 0, 255, 0, 0, 255, 0, 0, 255, 0, 0, 255, 0, 0, 174, 147, 15,
    241, 113, 181, 42, 79, 0, 0, 0, 0, 73, 69, 78, 68, 174, 66, 96, 130,
];

#[test]
fn optimize_png_shrinks_a_stored_png() {
    let out = optimize_png(&TINY_PNG).unwrap();
    assert_ne!(out, TINY_PNG.to_vec());
    assert!(out.len() < TINY_PNG.len());
    assert_eq!(&out[..8], &TINY_PNG[..8]);
}

#[test]
fn optimize_png_rejects_non_png() {
    assert_eq!(optimize_png(b"not a png"), Err(ImageError::Optimize));
}
