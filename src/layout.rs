//! The filesystem layout of a pack, computed as a list of actions relative
//! to the destination root; a runner carries the actions out in order.
use vstd::prelude::*;
use crate::naming::{album_name_spec, normalize_album_name};
use crate::resolver::{EntryView, NameCollision, WallPaperMeta, check_unique_names, entries_view, names_unique};

verus! {

/// One step of building the pack. Relative paths are below the destination root.
#[derive(Debug, PartialEq, Eq)]
pub enum FsAction {
    /// Create a directory and its parents; an existing directory is fine.
    CreateDir(String),
    /// Write the descriptor rendered for the entry at hand.
    WriteEntryDescriptor(String),
    /// Write the descriptor rendered for the whole pack.
    WriteAlbumDescriptor(String),
    /// Copy a source image byte for byte.
    Copy { from: String, to: String },
    /// Create a symbolic link at `link` that points at `target`.
    Symlink { target: String, link: String },
    /// Resize `source` to `resolution`, re-compress it losslessly and write it to `to`.
    Derive { source: String, resolution: String, to: String },
}

pub ghost enum ActionView {
    CreateDir(Seq<char>),
    WriteEntryDescriptor(Seq<char>),
    WriteAlbumDescriptor(Seq<char>),
    Copy(Seq<char>, Seq<char>),
    Symlink(Seq<char>, Seq<char>),
    Derive(Seq<char>, Seq<char>, Seq<char>),
}

impl View for FsAction {
    type V = ActionView;

    open spec fn view(&self) -> ActionView {
        match self {
            FsAction::CreateDir(p) => ActionView::CreateDir(p@),
            FsAction::WriteEntryDescriptor(p) => ActionView::WriteEntryDescriptor(p@),
            FsAction::WriteAlbumDescriptor(p) => ActionView::WriteAlbumDescriptor(p@),
            FsAction::Copy { from, to } => ActionView::Copy(from@, to@),
            FsAction::Symlink { target, link } => ActionView::Symlink(target@, link@),
            FsAction::Derive { source, resolution, to } => ActionView::Derive(
                source@,
                resolution@,
                to@,
            ),
        }
    }
}

pub open spec fn actions_view(v: Seq<FsAction>) -> Seq<ActionView> {
    v.map_values(|a: FsAction| a@)
}

pub open spec fn strs_view(v: Seq<&str>) -> Seq<Seq<char>> {
    v.map_values(|s: &str| s@)
}

/// The top-level destination directories.
pub open spec fn dest_dirs_spec() -> Seq<Seq<char>> {
    seq![
        "usr/share/wallpapers"@,
        "usr/share/backgrounds/xfce"@,
        "usr/share/background-properties"@,
        "usr/share/gnome-background-properties"@,
        "usr/share/mate-background-properties"@,
    ]
}

/// The resolutions that the mainline variant links to one image.
pub open spec fn mainline_resolutions_spec() -> Seq<Seq<char>> {
    seq![
        "1024x768"@, "1152x768"@, "1280x1024"@, "1280x800"@, "1280x854"@, "1280x960"@,
        "1366x768"@, "1440x900"@, "1440x960"@, "1600x1200"@, "1600x900"@, "1680x1050"@,
        "1920x1080"@, "1920x1200"@, "2048x1536"@, "2048x2048"@, "2160x1440"@, "2520x1080"@,
        "3360x1440"@, "2560x2048"@, "2560x1600"@, "2880x1800"@, "3000x2000"@, "3840x2160"@,
        "4096x4096"@, "4500x3000"@, "5120x4096"@, "800x600"@,
    ]
}

/// The resolutions that the retro variant derives as distinct files.
pub open spec fn retro_resolutions_spec() -> Seq<Seq<char>> {
    seq!["800x600"@, "1280x960"@, "1600x1200"@, "1920x1200"@]
}

/// The aspect ratios of the Xfce background tree.
pub open spec fn xfce_ratios_spec() -> Seq<Seq<char>> {
    seq!["1-1"@, "16-10"@, "16-9"@, "21-9"@, "3-2"@, "4-3"@, "5-4"@]
}

fn dest_dirs() -> (r: Vec<&'static str>)
    ensures
        strs_view(r@) == dest_dirs_spec(),
{
    let r = vec![
        "usr/share/wallpapers",
        "usr/share/backgrounds/xfce",
        "usr/share/background-properties",
        "usr/share/gnome-background-properties",
        "usr/share/mate-background-properties",
    ];
    proof {
        assert(strs_view(r@) =~= dest_dirs_spec());
    }
    r
}

fn mainline_resolutions() -> (r: Vec<&'static str>)
    ensures
        strs_view(r@) == mainline_resolutions_spec(),
{
    let r = vec![
        "1024x768", "1152x768", "1280x1024", "1280x800", "1280x854", "1280x960",
        "1366x768", "1440x900", "1440x960", "1600x1200", "1600x900", "1680x1050",
        "1920x1080", "1920x1200", "2048x1536", "2048x2048", "2160x1440", "2520x1080",
        "3360x1440", "2560x2048", "2560x1600", "2880x1800", "3000x2000", "3840x2160",
        "4096x4096", "4500x3000", "5120x4096", "800x600",
    ];
    proof {
        assert(strs_view(r@) =~= mainline_resolutions_spec());
    }
    r
}

fn retro_resolutions() -> (r: Vec<&'static str>)
    ensures
        strs_view(r@) == retro_resolutions_spec(),
{
    let r = vec!["800x600", "1280x960", "1600x1200", "1920x1200"];
    proof {
        assert(strs_view(r@) =~= retro_resolutions_spec());
    }
    r
}

fn xfce_ratios() -> (r: Vec<&'static str>)
    ensures
        strs_view(r@) == xfce_ratios_spec(),
{
    let r = vec!["1-1", "16-10", "16-9", "21-9", "3-2", "4-3", "5-4"];
    proof {
        assert(strs_view(r@) =~= xfce_ratios_spec());
    }
    r
}

/// The directory creations that set up the destination tree.
pub fn make_dest_dirs() -> (r: Vec<FsAction>)
    ensures
        actions_view(r@) == dest_dirs_spec().map_values(|d: Seq<char>| ActionView::CreateDir(d)),
{
    let dirs = dest_dirs();
    let mut r: Vec<FsAction> = Vec::new();
    let mut i: usize = 0;
    while i < dirs.len()
        invariant
            i <= dirs@.len(),
            strs_view(dirs@) == dest_dirs_spec(),
            actions_view(r@) == dest_dirs_spec().take(i as int).map_values(
                |d: Seq<char>| ActionView::CreateDir(d),
            ),
        decreases dirs@.len() - i,
    {
        let ghost before = actions_view(r@);
        r.push(FsAction::CreateDir(String::from_str(dirs[i])));
        proof {
            assert(dest_dirs_spec()[i as int] == dirs@[i as int]@);
            assert(actions_view(r@) =~= before.push(ActionView::CreateDir(dirs@[i as int]@)));
            assert(dest_dirs_spec().take(i + 1) =~= dest_dirs_spec().take(i as int).push(
                dest_dirs_spec()[i as int],
            ));
            assert(actions_view(r@) =~= dest_dirs_spec().take(i + 1).map_values(
                |d: Seq<char>| ActionView::CreateDir(d),
            ));
        }
        i = i + 1;
    }
    proof {
        assert(dest_dirs_spec().take(i as int) =~= dest_dirs_spec());
    }
    r
}


/// One decimal digit as text.
pub open spec fn digit_spec(d: nat) -> Seq<char> {
    if d == 0 { "0"@ } else if d == 1 { "1"@ } else if d == 2 { "2"@ } else if d == 3 { "3"@ }
    else if d == 4 { "4"@ } else if d == 5 { "5"@ } else if d == 6 { "6"@ } else if d == 7 { "7"@ }
    else if d == 8 { "8"@ } else { "9"@ }
}

/// A number in decimal notation, without leading zeros.
pub open spec fn decimal_spec(n: nat) -> Seq<char>
    decreases n,
{
    if n < 10 {
        digit_spec(n)
    } else {
        decimal_spec(n / 10) + digit_spec(n % 10)
    }
}

fn digit_str(d: usize) -> (r: &'static str)
    requires
        d < 10,
    ensures
        r@ == digit_spec(d as nat),
{
    if d == 0 { "0" } else if d == 1 { "1" } else if d == 2 { "2" } else if d == 3 { "3" }
    else if d == 4 { "4" } else if d == 5 { "5" } else if d == 6 { "6" } else if d == 7 { "7" }
    else if d == 8 { "8" } else { "9" }
}

/// Writes `n` in decimal notation.
pub fn decimal(n: usize) -> (r: String)
    ensures
        r@ == decimal_spec(n as nat),
    decreases n,
{
    if n < 10 {
        String::from_str(digit_str(n))
    } else {
        let mut r = decimal(n / 10);
        r.append(digit_str(n % 10));
        r
    }
}

/// The position of the last `/` of `s`, or -1 if it holds none.
pub open spec fn last_slash(s: Seq<char>) -> int
    decreases s.len(),
{
    if s.len() == 0 {
        -1
    } else if s.last() == '/' {
        s.len() - 1
    } else {
        last_slash(s.drop_last())
    }
}

/// The directory part of a relative path: what precedes its last `/`, or
/// nothing when it has none.
pub open spec fn parent_spec(s: Seq<char>) -> Seq<char> {
    if last_slash(s) < 0 {
        Seq::empty()
    } else {
        s.take(last_slash(s))
    }
}

proof fn lemma_last_slash(s: Seq<char>, k: int)
    requires
        0 <= k <= s.len(),
        forall|j: int| k <= j < s.len() ==> s[j] != '/',
    ensures
        last_slash(s) == last_slash(s.take(k)),
    decreases s.len() - k,
{
    if k < s.len() {
        lemma_last_slash(s.drop_last(), k);
        assert(s.drop_last().take(k) =~= s.take(k));
    } else {
        assert(s.take(k) =~= s);
    }
}

fn parent_dir(s: &str) -> (r: String)
    ensures
        r@ == parent_spec(s@),
{
    let n = s.unicode_len();
    let mut k: usize = n;
    while k > 0 && s.get_char(k - 1) != '/'
        invariant
            n == s@.len(),
            k <= n,
            forall|j: int| k <= j < n ==> s@[j] != '/',
        decreases k,
    {
        k = k - 1;
    }
    proof {
        lemma_last_slash(s@, k as int);
        if k > 0 {
            assert(s@.take(k as int).drop_last() =~= s@.take(k - 1));
        } else {
            assert(s@.take(0) =~= Seq::<char>::empty());
        }
    }
    if k == 0 {
        String::new()
    } else {
        String::from_str(s.substring_char(0, k - 1))
    }
}

/// One link per name, at `{prefix}{name}{suffix}`, all pointing at `target`.
pub open spec fn link_fan(names: Seq<Seq<char>>, target: Seq<char>, prefix: Seq<char>, suffix: Seq<char>) -> Seq<
    ActionView,
> {
    names.map_values(|x: Seq<char>| ActionView::Symlink(target, prefix + x + suffix))
}

/// One derived image per resolution, written to `{prefix}{resolution}{suffix}`.
pub open spec fn derive_fan(names: Seq<Seq<char>>, source: Seq<char>, prefix: Seq<char>, suffix: Seq<char>) -> Seq<
    ActionView,
> {
    names.map_values(|x: Seq<char>| ActionView::Derive(source, x, prefix + x + suffix))
}

fn fan_out(names: &Vec<&str>, target: &str, prefix: &str, suffix: &str, derive: bool) -> (r: Vec<FsAction>)
    ensures
        actions_view(r@) == if derive {
            derive_fan(strs_view(names@), target@, prefix@, suffix@)
        } else {
            link_fan(strs_view(names@), target@, prefix@, suffix@)
        },
{
    let ghost want = if derive {
        derive_fan(strs_view(names@), target@, prefix@, suffix@)
    } else {
        link_fan(strs_view(names@), target@, prefix@, suffix@)
    };
    let mut r: Vec<FsAction> = Vec::new();
    let mut i: usize = 0;
    while i < names.len()
        invariant
            i <= names@.len(),
            want.len() == names@.len(),
            want == (if derive {
                derive_fan(strs_view(names@), target@, prefix@, suffix@)
            } else {
                link_fan(strs_view(names@), target@, prefix@, suffix@)
            }),
            actions_view(r@) == want.take(i as int),
        decreases names@.len() - i,
    {
        let mut path = String::from_str(prefix);
        path.append(names[i]);
        path.append(suffix);
        let ghost before = actions_view(r@);
        if derive {
            r.push(
                FsAction::Derive {
                    source: String::from_str(target),
                    resolution: String::from_str(names[i]),
                    to: path,
                },
            );
        } else {
            r.push(FsAction::Symlink { target: String::from_str(target), link: path });
        }
        proof {
            assert(actions_view(r@) =~= before.push(want[i as int]));
            assert(want.take(i + 1) =~= want.take(i as int).push(want[i as int]));
        }
        i = i + 1;
    }
    proof {
        assert(want.take(i as int) =~= want);
    }
    r
}

/// The directory that holds an entry's per-resolution images.
pub open spec fn images_dir_spec(entry_name: Seq<char>) -> Seq<char> {
    "usr/share/wallpapers/"@ + entry_name + "/contents/images/"@
}

/// The mainline fan-out: one link per mainline resolution to the one image.
pub open spec fn mainline_plan_spec(image_path: Seq<char>, entry_name: Seq<char>, format: Seq<char>) -> Seq<
    ActionView,
> {
    link_fan(mainline_resolutions_spec(), image_path, images_dir_spec(entry_name), "."@ + format)
}

/// The retro derivation: one derived PNG per retro resolution, then a
/// screenshot link to the 1280x960 one.
pub open spec fn retro_plan_spec(src_path: Seq<char>, entry_name: Seq<char>) -> Seq<ActionView> {
    derive_fan(retro_resolutions_spec(), src_path, images_dir_spec(entry_name), ".png"@).push(
        ActionView::Symlink(
            "/usr/share/wallpapers/"@ + entry_name + "/contents/images/1280x960.png"@,
            "usr/share/wallpapers/"@ + entry_name + "/screenshot.png"@,
        ),
    )
}

/// Links every mainline resolution of an entry to its one canonical image.
pub fn process_mainline(image_path: &str, entry_name: &str, format: &str) -> (r: Vec<FsAction>)
    ensures
        actions_view(r@) == mainline_plan_spec(image_path@, entry_name@, format@),
{
    let mut prefix = String::from_str("usr/share/wallpapers/");
    prefix.append(entry_name);
    prefix.append("/contents/images/");
    let mut suffix = String::from_str(".");
    suffix.append(format);
    fan_out(&mainline_resolutions(), image_path, prefix.as_str(), suffix.as_str(), false)
}

/// Derives every retro resolution of an entry as its own PNG file, then links
/// the entry's screenshot to the 1280x960 one.
pub fn process_retro(src_path: &str, entry_name: &str) -> (r: Vec<FsAction>)
    ensures
        actions_view(r@) == retro_plan_spec(src_path@, entry_name@),
{
    let mut prefix = String::from_str("usr/share/wallpapers/");
    prefix.append(entry_name);
    prefix.append("/contents/images/");
    let mut r = fan_out(&retro_resolutions(), src_path, prefix.as_str(), ".png", true);
    let mut target = String::from_str("/usr/share/wallpapers/");
    target.append(entry_name);
    target.append("/contents/images/1280x960.png");
    let mut link = String::from_str("usr/share/wallpapers/");
    link.append(entry_name);
    link.append("/screenshot.png");
    let ghost before = actions_view(r@);
    r.push(FsAction::Symlink { target, link });
    proof {
        assert(actions_view(r@) =~= before.push(actions_view(r@).last()));
    }
    r
}

/// Where an entry's source image lies: `{src}/{index}.{format}`.
pub open spec fn source_path_spec(e: EntryView) -> Seq<char> {
    e.src + "/"@ + decimal_spec(e.index as nat) + "."@ + e.format
}

/// Every action that lays out one entry, in order: its directories, its
/// descriptor, (mainline only) the copy of the image to its canonical path and
/// a screenshot link, the Xfce ratio links, then the mainline fan-out or the
/// retro derivation.
pub open spec fn entry_plan_spec(e: EntryView, retro: bool) -> Seq<ActionView> {
    let n = e.entry_name;
    let src = source_path_spec(e);
    let rel = e.dest.drop_first();
    let head = seq![
        ActionView::CreateDir(parent_spec(rel)),
        ActionView::CreateDir("usr/share/wallpapers/"@ + n + "/contents/images"@),
        ActionView::WriteEntryDescriptor("usr/share/wallpapers/"@ + n + "/metadata.desktop"@),
    ];
    let copy = if retro {
        Seq::empty()
    } else {
        seq![
            ActionView::Copy(src, rel),
            ActionView::Symlink(e.dest, "usr/share/wallpapers/"@ + n + "/screenshot."@ + e.format),
        ]
    };
    let ratios = link_fan(xfce_ratios_spec(), e.dest, "usr/share/backgrounds/xfce/"@ + n + "-"@, "."@ + e.format);
    let tail = if retro {
        retro_plan_spec(src, n)
    } else {
        mainline_plan_spec(e.dest, n, e.format)
    };
    head + copy + ratios + tail
}

fn append_actions(r: &mut Vec<FsAction>, more: Vec<FsAction>)
    ensures
        actions_view(final(r)@) == actions_view(old(r)@) + actions_view(more@),
{
    let mut more = more;
    let ghost m = more@;
    r.append(&mut more);
    proof {
        assert(actions_view(r@) =~= actions_view(old(r)@) + actions_view(m));
    }
}

/// Every action that lays out one entry (see `entry_plan_spec`). The entry's
/// canonical path must not start with a multi-byte character, as it is read
/// from its second character on.
pub fn process_single_entry(entry: &WallPaperMeta, retro: bool) -> (r: Vec<FsAction>)
    requires
        entry.dest@.len() > 0,
        (entry.dest@[0] as u32) < 128,
    ensures
        actions_view(r@) == entry_plan_spec(entry@, retro),
{
    let entry_name = entry.entry_name.as_str();
    let mut src_path = String::from_str(entry.src.as_str());
    src_path.append("/");
    let index = decimal(entry.index);
    src_path.append(index.as_str());
    src_path.append(".");
    src_path.append(entry.format.as_str());
    let image_path = entry.dest.as_str();
    let dest_path = image_path.substring_char(1, image_path.unicode_len());
    proof {
        assert(dest_path@ =~= entry.dest@.drop_first());
    }
    let mut images_dir = String::from_str("usr/share/wallpapers/");
    images_dir.append(entry_name);
    images_dir.append("/contents/images");
    let mut desktop_path = String::from_str("usr/share/wallpapers/");
    desktop_path.append(entry_name);
    desktop_path.append("/metadata.desktop");

    let mut r: Vec<FsAction> = Vec::new();
    r.push(FsAction::CreateDir(parent_dir(dest_path)));
    r.push(FsAction::CreateDir(images_dir));
    r.push(FsAction::WriteEntryDescriptor(desktop_path));
    let ghost head = actions_view(r@);
    if !retro {
        let mut screenshot = String::from_str("usr/share/wallpapers/");
        screenshot.append(entry_name);
        screenshot.append("/screenshot.");
        screenshot.append(entry.format.as_str());
        r.push(FsAction::Copy { from: src_path.clone(), to: String::from_str(dest_path) });
        r.push(FsAction::Symlink { target: String::from_str(image_path), link: screenshot });
    }
    let ghost with_copy = actions_view(r@);
    let mut ratio_prefix = String::from_str("usr/share/backgrounds/xfce/");
    ratio_prefix.append(entry_name);
    ratio_prefix.append("-");
    let mut suffix = String::from_str(".");
    suffix.append(entry.format.as_str());
    let ratios = fan_out(&xfce_ratios(), image_path, ratio_prefix.as_str(), suffix.as_str(), false);
    let ghost rv = actions_view(ratios@);
    append_actions(&mut r, ratios);
    let tail = if retro {
        process_retro(src_path.as_str(), entry_name)
    } else {
        process_mainline(image_path, entry_name, entry.format.as_str())
    };
    let ghost tv = actions_view(tail@);
    append_actions(&mut r, tail);
    proof {
        let e = entry@;
        assert(src_path@ == source_path_spec(e));
        let copy = if retro {
            Seq::<ActionView>::empty()
        } else {
            seq![
                ActionView::Copy(source_path_spec(e), e.dest.drop_first()),
                ActionView::Symlink(e.dest, "usr/share/wallpapers/"@ + e.entry_name + "/screenshot."@ + e.format),
            ]
        };
        assert(head =~= seq![
            ActionView::CreateDir(parent_spec(e.dest.drop_first())),
            ActionView::CreateDir("usr/share/wallpapers/"@ + e.entry_name + "/contents/images"@),
            ActionView::WriteEntryDescriptor("usr/share/wallpapers/"@ + e.entry_name + "/metadata.desktop"@),
        ]);
        assert(with_copy =~= head + copy);
        assert(actions_view(r@) =~= head + copy + rv + tv);
    }
    r
}

/// The file name of the pack descriptor: `{display name}.xml`.
pub open spec fn album_file_spec(album: Seq<char>) -> Seq<char> {
    album_name_spec(album) + ".xml"@
}

/// The pack descriptor under the background-properties tree, and one link to
/// it from each of the GNOME and MATE background-properties directories.
pub open spec fn gtk_plan_spec(album: Seq<char>) -> Seq<ActionView> {
    let file = album_file_spec(album);
    seq![ActionView::WriteAlbumDescriptor("usr/share/background-properties/"@ + file)] + link_fan(
        dest_dirs_spec().skip(3),
        "/usr/share/background-properties/"@ + file,
        Seq::empty(),
        "/"@ + file,
    )
}

/// Writes the pack descriptor once and links it into the remaining
/// desktop-environment directories.
pub fn write_gtk_config(album: &str) -> (r: Vec<FsAction>)
    ensures
        actions_view(r@) == gtk_plan_spec(album@),
{
    let mut config_file = normalize_album_name(album);
    config_file.append(".xml");
    let mut config_path = String::from_str("usr/share/background-properties/");
    config_path.append(config_file.as_str());
    let mut target = String::from_str("/usr/share/background-properties/");
    target.append(config_file.as_str());
    let mut suffix = String::from_str("/");
    suffix.append(config_file.as_str());
    let dirs = dest_dirs();
    let mut rest: Vec<&str> = Vec::new();
    let mut i: usize = 3;
    proof {
        assert(strs_view(dirs@).len() == dirs@.len());
        assert(dest_dirs_spec().len() == 5);
    }
    while i < dirs.len()
        invariant
            3 <= i <= dirs@.len(),
            strs_view(dirs@) == dest_dirs_spec(),
            strs_view(rest@) == dest_dirs_spec().subrange(3, i as int),
        decreases dirs@.len() - i,
    {
        let ghost before = strs_view(rest@);
        rest.push(dirs[i]);
        proof {
            assert(strs_view(dirs@)[i as int] == dirs@[i as int]@);
            assert(strs_view(rest@) =~= before.push(dirs@[i as int]@));
            assert(strs_view(rest@) =~= dest_dirs_spec().subrange(3, i + 1));
        }
        i = i + 1;
    }
    let mut r: Vec<FsAction> = Vec::new();
    r.push(FsAction::WriteAlbumDescriptor(config_path));
    let links = fan_out(&rest, target.as_str(), "", suffix.as_str(), false);
    let ghost head = actions_view(r@);
    append_actions(&mut r, links);
    proof {
        reveal_strlit("");
        assert(""@ =~= Seq::<char>::empty());
        assert(dest_dirs_spec().subrange(3, 5) =~= dest_dirs_spec().skip(3));
    }
    r
}

/// The layout plan of every entry, one plan per entry in order, or the
/// collision when two entries share a stable name; in that case no plan is
/// produced at all.
pub fn plan_pack(entries: &Vec<WallPaperMeta>, retro: bool) -> (r: Result<Vec<Vec<FsAction>>, NameCollision>)
    requires
        forall|i: int|
            0 <= i < entries@.len() ==> (#[trigger] entries@[i]).dest@.len() > 0 && (entries@[i].dest@[0] as u32)
                < 128,
    ensures
        r is Err <==> !names_unique(entries_view(entries@)),
        r matches Ok(plans) ==> plans@.len() == entries@.len() && forall|i: int|
            0 <= i < plans@.len() ==> actions_view(#[trigger] plans@[i]@) == entry_plan_spec(entries@[i]@, retro),
{
    match check_unique_names(entries) {
        Err(c) => Err(c),
        Ok(()) => {
            let mut plans: Vec<Vec<FsAction>> = Vec::new();
            let mut i: usize = 0;
            while i < entries.len()
                invariant
                    i <= entries@.len(),
                    plans@.len() == i,
                    forall|k: int|
                        0 <= k < entries@.len() ==> (#[trigger] entries@[k]).dest@.len() > 0 && (
                        entries@[k].dest@[0] as u32) < 128,
                    forall|k: int|
                        0 <= k < i ==> actions_view(#[trigger] plans@[k]@) == entry_plan_spec(entries@[k]@, retro),
                decreases entries@.len() - i,
            {
                plans.push(process_single_entry(&entries[i], retro));
                i = i + 1;
            }
            Ok(plans)
        },
    }
}

/// Which paths exist below the destination root after carrying out one
/// action, or `None` when it fails: directories and written files tolerate an
/// existing path, a link does not.
pub open spec fn step_spec(fs: Set<Seq<char>>, a: ActionView) -> Option<Set<Seq<char>>> {
    match a {
        ActionView::CreateDir(p) => Some(fs.insert(p)),
        ActionView::WriteEntryDescriptor(p) => Some(fs.insert(p)),
        ActionView::WriteAlbumDescriptor(p) => Some(fs.insert(p)),
        ActionView::Copy(_, to) => Some(fs.insert(to)),
        ActionView::Derive(_, _, to) => Some(fs.insert(to)),
        ActionView::Symlink(_, link) => if fs.contains(link) {
            None
        } else {
            Some(fs.insert(link))
        },
    }
}

/// Carries out actions in order, stopping at the first failure.
pub open spec fn run_spec(fs: Set<Seq<char>>, plan: Seq<ActionView>) -> Option<Set<Seq<char>>>
    decreases plan.len(),
{
    if plan.len() == 0 {
        Some(fs)
    } else {
        match step_spec(fs, plan[0]) {
            Some(next) => run_spec(next, plan.drop_first()),
            None => None,
        }
    }
}

pub open spec fn has_link(plan: Seq<ActionView>) -> bool {
    exists|i: int| 0 <= i < plan.len() && plan[i] is Symlink
}

proof fn lemma_run_keeps_links(fs: Set<Seq<char>>, plan: Seq<ActionView>)
    requires
        run_spec(fs, plan) is Some,
    ensures
        forall|i: int|
            0 <= i < plan.len() && (#[trigger] plan[i]) is Symlink ==> run_spec(fs, plan)->0.contains(
                plan[i]->Symlink_1,
            ),
        fs.subset_of(run_spec(fs, plan)->0),
    decreases plan.len(),
{
    if plan.len() > 0 {
        let next = step_spec(fs, plan[0])->0;
        lemma_run_keeps_links(next, plan.drop_first());
        assert forall|i: int| 0 <= i < plan.len() && (#[trigger] plan[i]) is Symlink implies run_spec(
            fs,
            plan,
        )->0.contains(plan[i]->Symlink_1) by {
            if i > 0 {
                assert(plan[i] == plan.drop_first()[i - 1]);
            }
        }
    }
}

proof fn lemma_run_blocked(fs: Set<Seq<char>>, plan: Seq<ActionView>)
    requires
        has_link(plan),
        forall|i: int| 0 <= i < plan.len() && (#[trigger] plan[i]) is Symlink ==> fs.contains(plan[i]->Symlink_1),
    ensures
        run_spec(fs, plan) is None,
    decreases plan.len(),
{
    if !(plan[0] is Symlink) {
        let next = step_spec(fs, plan[0])->0;
        let rest = plan.drop_first();
        let i = choose|i: int| 0 <= i < plan.len() && plan[i] is Symlink;
        assert(rest[i - 1] == plan[i]);
        assert forall|j: int| 0 <= j < rest.len() && (#[trigger] rest[j]) is Symlink implies next.contains(
            rest[j]->Symlink_1,
        ) by {
            assert(rest[j] == plan[j + 1]);
        }
        lemma_run_blocked(next, rest);
    }
}

/// Carrying out a plan that creates a link a second time, over the tree that
/// the first run left, fails: directories and files are tolerated, but the
/// links already exist. The outcome does not depend on timing.
pub proof fn lemma_rerun_fails(fs: Set<Seq<char>>, plan: Seq<ActionView>)
    requires
        has_link(plan),
        run_spec(fs, plan) is Some,
    ensures
        run_spec(run_spec(fs, plan)->0, plan) is None,
{
    lemma_run_keeps_links(fs, plan);
    lemma_run_blocked(run_spec(fs, plan)->0, plan);
}

/// A plan that creates no link succeeds over any existing tree: directories
/// and written files tolerate paths that are already there.
pub proof fn lemma_linkless_plan_succeeds(fs: Set<Seq<char>>, plan: Seq<ActionView>)
    requires
        !has_link(plan),
    ensures
        run_spec(fs, plan) is Some,
    decreases plan.len(),
{
    if plan.len() > 0 {
        assert(!(plan[0] is Symlink));
        let rest = plan.drop_first();
        assert(!has_link(rest)) by {
            if has_link(rest) {
                let i = choose|i: int| 0 <= i < rest.len() && rest[i] is Symlink;
                assert(plan[i + 1] == rest[i]);
            }
        }
        lemma_linkless_plan_succeeds(step_spec(fs, plan[0])->0, rest);
    }
}

/// Over the tree that a successful run left, a second run of the same plan
/// gets through every action before the plan's first link and fails at that
/// link, which already exists.
pub proof fn lemma_rerun_stops_at_first_link(fs: Set<Seq<char>>, plan: Seq<ActionView>, k: int)
    requires
        run_spec(fs, plan) is Some,
        0 <= k < plan.len(),
        plan[k] is Symlink,
        forall|j: int| 0 <= j < k ==> !(#[trigger] plan[j] is Symlink),
    ensures
        run_spec(run_spec(fs, plan)->0, plan.take(k)) is Some,
        step_spec(run_spec(run_spec(fs, plan)->0, plan.take(k))->0, plan[k]) is None,
{
    let done = run_spec(fs, plan)->0;
    lemma_run_keeps_links(fs, plan);
    let prefix = plan.take(k);
    assert(!has_link(prefix)) by {
        if has_link(prefix) {
            let i = choose|i: int| 0 <= i < prefix.len() && prefix[i] is Symlink;
            assert(prefix[i] == plan[i]);
        }
    }
    lemma_linkless_plan_succeeds(done, prefix);
    lemma_run_keeps_links(done, prefix);
}

/// Laying out an entry a second time over a tree that was not cleaned fails,
/// always at the same link: the screenshot link in the mainline variant, the
/// first Xfce ratio link in the retro one. Directories and the descriptor
/// before it are tolerated.
pub proof fn lemma_entry_rerun_fails(e: EntryView, retro: bool, fs: Set<Seq<char>>)
    requires
        run_spec(fs, entry_plan_spec(e, retro)) is Some,
    ensures
        run_spec(run_spec(fs, entry_plan_spec(e, retro))->0, entry_plan_spec(e, retro)) is None,
        ({
            let plan = entry_plan_spec(e, retro);
            let k: int = if retro { 3 } else { 4 };
            let done = run_spec(fs, plan)->0;
            &&& plan[k] == (if retro {
                ActionView::Symlink(e.dest, "usr/share/backgrounds/xfce/"@ + e.entry_name + "-"@ + "1-1"@ + "."@ + e.format)
            } else {
                ActionView::Symlink(e.dest, "usr/share/wallpapers/"@ + e.entry_name + "/screenshot."@ + e.format)
            })
            &&& run_spec(done, plan.take(k)) is Some
            &&& step_spec(run_spec(done, plan.take(k))->0, plan[k]) is None
        }),
{
    let plan = entry_plan_spec(e, retro);
    let k: int = if retro { 3 } else { 4 };
    let n = e.entry_name;
    assert(("usr/share/backgrounds/xfce/"@ + n + "-"@) + "1-1"@ + ("."@ + e.format)
        =~= "usr/share/backgrounds/xfce/"@ + n + "-"@ + "1-1"@ + "."@ + e.format);
    assert(plan[k] is Symlink);
    assert forall|j: int| 0 <= j < k implies !(#[trigger] plan[j] is Symlink) by {}
    lemma_rerun_fails(fs, plan);
    lemma_rerun_stops_at_first_link(fs, plan, k);
}

/// In the mainline variant every link of an entry (its screenshot, each Xfce
/// ratio, each resolution) points at the entry's one canonical image, and the
/// only real copy is written to that canonical path.
pub proof fn lemma_mainline_links_share_image(e: EntryView)
    ensures
        forall|i: int|
            0 <= i < entry_plan_spec(e, false).len() && (#[trigger] entry_plan_spec(e, false)[i]) is Symlink
                ==> entry_plan_spec(e, false)[i]->Symlink_0 == e.dest,
        forall|i: int|
            0 <= i < entry_plan_spec(e, false).len() && (#[trigger] entry_plan_spec(e, false)[i]) is Copy
                ==> entry_plan_spec(e, false)[i]->Copy_1 == e.dest.drop_first(),
{
    let plan = entry_plan_spec(e, false);
    let n = e.entry_name;
    let ratios = link_fan(xfce_ratios_spec(), e.dest, "usr/share/backgrounds/xfce/"@ + n + "-"@, "."@ + e.format);
    let tail = mainline_plan_spec(e.dest, n, e.format);
    assert forall|i: int| 0 <= i < plan.len() && (#[trigger] plan[i]) is Symlink || 0 <= i < plan.len() && plan[i] is Copy implies
        (plan[i] is Symlink ==> plan[i]->Symlink_0 == e.dest) && (plan[i] is Copy ==> plan[i]->Copy_1 == e.dest.drop_first()) by {
        if i >= 5 + ratios.len() {
            assert(plan[i] == tail[i - 5 - ratios.len()]);
        } else if i >= 5 {
            assert(plan[i] == ratios[i - 5]);
        }
    }
}

proof fn lemma_infix_cancel(p: Seq<char>, a: Seq<char>, b: Seq<char>, q: Seq<char>)
    requires
        p + a + q == p + b + q,
    ensures
        a == b,
{
    let x = p + a + q;
    assert(x.len() == (p + b + q).len());
    assert(a.len() == b.len());
    assert(a =~= x.subrange(p.len() as int, (p.len() + a.len()) as int));
    assert(b =~= (p + b + q).subrange(p.len() as int, (p.len() + b.len()) as int));
}

/// The retro resolutions are pairwise distinct.
pub proof fn lemma_retro_resolutions_distinct()
    ensures
        forall|i: int, j: int|
            0 <= i < j < retro_resolutions_spec().len() ==> retro_resolutions_spec()[i]
                != retro_resolutions_spec()[j],
{
    reveal_strlit("800x600");
    reveal_strlit("1280x960");
    reveal_strlit("1600x1200");
    reveal_strlit("1920x1200");
    let r = retro_resolutions_spec();
    assert(r[0].len() == 7 && r[1].len() == 8 && r[2].len() == 9 && r[3].len() == 9);
    assert(r[2][1] != r[3][1]);
}

/// In the retro variant each resolution of an entry is derived into a file of
/// its own: no two derivations write the same path or use the same resolution.
pub proof fn lemma_retro_outputs_distinct(e: EntryView)
    ensures
        forall|i: int, j: int|
            0 <= i < j < entry_plan_spec(e, true).len() && (#[trigger] entry_plan_spec(e, true)[i]) is Derive
                && (#[trigger] entry_plan_spec(e, true)[j]) is Derive ==> entry_plan_spec(e, true)[i]->Derive_2
                != entry_plan_spec(e, true)[j]->Derive_2 && entry_plan_spec(e, true)[i]->Derive_1
                != entry_plan_spec(e, true)[j]->Derive_1,
{
    let plan = entry_plan_spec(e, true);
    let n = e.entry_name;
    let ratios = link_fan(xfce_ratios_spec(), e.dest, "usr/share/backgrounds/xfce/"@ + n + "-"@, "."@ + e.format);
    let src = source_path_spec(e);
    let derived = derive_fan(retro_resolutions_spec(), src, images_dir_spec(n), ".png"@);
    let tail = retro_plan_spec(src, n);
    lemma_retro_resolutions_distinct();
    assert forall|i: int, j: int|
        0 <= i < j < plan.len() && (#[trigger] plan[i]) is Derive && (#[trigger] plan[j]) is Derive implies plan[i]->Derive_2
            != plan[j]->Derive_2 && plan[i]->Derive_1 != plan[j]->Derive_1 by {
        assert(ratios.len() == 7);
        assert(i >= 10) by {
            if i < 10 && i >= 3 {
                assert(plan[i] == ratios[i - 3]);
            }
        }
        assert(j < 14) by {
            assert(tail.len() == 5);
            assert(plan.len() == 15);
            assert(plan[14] == tail[4]);
        }
        assert(plan[i] == derived[i - 10]);
        assert(plan[j] == derived[j - 10]);
        let ri = retro_resolutions_spec()[i - 10];
        let rj = retro_resolutions_spec()[j - 10];
        if plan[i]->Derive_2 == plan[j]->Derive_2 {
            lemma_infix_cancel(images_dir_spec(n), ri, rj, ".png"@);
        }
    }
}

} // verus!
