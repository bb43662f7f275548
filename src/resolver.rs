//! Contributor records and the entries resolved from them.
use std::collections::HashSet;
use vstd::prelude::*;
use crate::naming::{image_name_spec, normalize_image_name};

verus! {

broadcast use vstd::std_specs::hash::group_hash_axioms;

/// One wallpaper offered by a contributor, with the fields that resolution fills in.
#[derive(Debug, PartialEq, Eq)]
pub struct WallPaperMeta {
    /// Position among the artist's offered images; names the source file.
    pub index: usize,
    /// File extension of the image.
    pub format: String,
    pub title: String,
    pub license: String,
    pub tags: Vec<String>,
    pub email: String,
    pub artist: String,
    /// Directory holding the artist's source images.
    pub src: String,
    /// Canonical absolute path of the image inside the pack.
    pub dest: String,
    /// Stable name of the entry, unique within a pack.
    pub entry_name: String,
}

/// One contributor's record: identity and the wallpapers offered.
#[derive(Debug, PartialEq, Eq)]
pub struct ContributorMeta {
    pub name: String,
    pub username: String,
    pub email: String,
    pub uri: String,
    pub src: Option<String>,
    pub wallpapers: Vec<WallPaperMeta>,
}

/// Two entries that resolved to the same stable name.
#[derive(Debug, PartialEq, Eq)]
pub struct NameCollision {
    pub name: String,
}

pub ghost struct EntryView {
    pub index: usize,
    pub format: Seq<char>,
    pub title: Seq<char>,
    pub license: Seq<char>,
    pub tags: Seq<Seq<char>>,
    pub email: Seq<char>,
    pub artist: Seq<char>,
    pub src: Seq<char>,
    pub dest: Seq<char>,
    pub entry_name: Seq<char>,
}

pub ghost struct ContributorView {
    pub name: Seq<char>,
    pub username: Seq<char>,
    pub email: Seq<char>,
    pub uri: Seq<char>,
    pub src: Option<Seq<char>>,
    pub wallpapers: Seq<EntryView>,
}

pub open spec fn strings_view(v: Seq<String>) -> Seq<Seq<char>> {
    v.map_values(|s: String| s@)
}

pub open spec fn entries_view(v: Seq<WallPaperMeta>) -> Seq<EntryView> {
    v.map_values(|e: WallPaperMeta| e@)
}

impl View for WallPaperMeta {
    type V = EntryView;

    open spec fn view(&self) -> EntryView {
        EntryView {
            index: self.index,
            format: self.format@,
            title: self.title@,
            license: self.license@,
            tags: strings_view(self.tags@),
            email: self.email@,
            artist: self.artist@,
            src: self.src@,
            dest: self.dest@,
            entry_name: self.entry_name@,
        }
    }
}

impl View for ContributorMeta {
    type V = ContributorView;

    open spec fn view(&self) -> ContributorView {
        ContributorView {
            name: self.name@,
            username: self.username@,
            email: self.email@,
            uri: self.uri@,
            src: match self.src {
                Some(s) => Some(s@),
                None => None,
            },
            wallpapers: entries_view(self.wallpapers@),
        }
    }
}

/// The canonical absolute path of an entry's image.
pub open spec fn image_path_spec(entry_name: Seq<char>, format: Seq<char>) -> Seq<char> {
    "/usr/share/backgrounds/"@ + entry_name + "/"@ + entry_name + "."@ + format
}

/// An offered wallpaper, enriched with the artist's identity, the artist's
/// directory, its stable name and its canonical path.
pub open spec fn resolve_spec(
    album: Seq<char>,
    entry: EntryView,
    artist: ContributorView,
    artist_path: Seq<char>,
) -> EntryView {
    let name = image_name_spec(album, entry.title, artist.username);
    EntryView {
        artist: artist.name,
        email: artist.email,
        src: artist_path,
        dest: image_path_spec(name, entry.format),
        entry_name: name,
        ..entry
    }
}

/// The resolved entries for the first `n` offered wallpapers whose index is selected.
pub open spec fn select_upto(
    album: Seq<char>,
    artist: ContributorView,
    artist_path: Seq<char>,
    selections: Set<usize>,
    n: int,
) -> Seq<EntryView>
    decreases n,
{
    if n <= 0 {
        Seq::empty()
    } else {
        let prev = select_upto(album, artist, artist_path, selections, n - 1);
        let e = artist.wallpapers[n - 1];
        if selections.contains(e.index) {
            prev.push(resolve_spec(album, e, artist, artist_path))
        } else {
            prev
        }
    }
}

/// The resolved entries of an artist: the offered wallpapers whose index is
/// selected, in the record's order.
pub open spec fn select_spec(
    album: Seq<char>,
    artist: ContributorView,
    artist_path: Seq<char>,
    selections: Set<usize>,
) -> Seq<EntryView> {
    select_upto(album, artist, artist_path, selections, artist.wallpapers.len() as int)
}

/// The directory of an artist inside a pack.
pub open spec fn artist_path_spec(pack_root: Seq<char>, artist: Seq<char>) -> Seq<char> {
    pack_root + "/contributors/"@ + artist
}

/// The resolved entries of the first `n` groups, concatenated.
pub open spec fn all_upto(
    groups: Seq<(Seq<char>, Set<usize>)>,
    records: Seq<ContributorView>,
    pack_root: Seq<char>,
    pack_name: Seq<char>,
    n: int,
) -> Seq<EntryView>
    decreases n,
{
    if n <= 0 {
        Seq::empty()
    } else {
        all_upto(groups, records, pack_root, pack_name, n - 1) + select_spec(
            pack_name,
            records[n - 1],
            artist_path_spec(pack_root, groups[n - 1].0),
            groups[n - 1].1,
        )
    }
}

/// No two entries share a stable name.
pub open spec fn names_unique(entries: Seq<EntryView>) -> bool {
    forall|i: int, j: int|
        0 <= i < j < entries.len() ==> entries[i].entry_name != entries[j].entry_name
}

fn copy_strings(v: &Vec<String>) -> (r: Vec<String>)
    ensures
        strings_view(r@) == strings_view(v@),
{
    let mut r: Vec<String> = Vec::new();
    let mut i: usize = 0;
    while i < v.len()
        invariant
            i <= v@.len(),
            strings_view(r@) == strings_view(v@.take(i as int)),
        decreases v@.len() - i,
    {
        r.push(v[i].clone());
        proof {
            assert(strings_view(v@.take(i + 1)) =~= strings_view(v@.take(i as int)).push(v@[i as int]@));
            assert(strings_view(r@) =~= strings_view(v@.take(i + 1)));
        }
        i = i + 1;
    }
    proof {
        assert(v@.take(i as int) =~= v@);
    }
    r
}

fn copy_entry(e: &WallPaperMeta) -> (r: WallPaperMeta)
    ensures
        r@ == e@,
{
    WallPaperMeta {
        index: e.index,
        format: e.format.clone(),
        title: e.title.clone(),
        license: e.license.clone(),
        tags: copy_strings(&e.tags),
        email: e.email.clone(),
        artist: e.artist.clone(),
        src: e.src.clone(),
        dest: e.dest.clone(),
        entry_name: e.entry_name.clone(),
    }
}

/// Enriches an offered wallpaper with the artist's identity and directory,
/// its stable name, and its canonical path
/// `/usr/share/backgrounds/{name}/{name}.{format}`.
pub fn scan_entries(album: &str, entry: WallPaperMeta, artist: &ContributorMeta, artist_path: &str) -> (r:
    WallPaperMeta)
    ensures
        r@ == resolve_spec(album@, entry@, artist@, artist_path@),
{
    let entry_name = normalize_image_name(album, entry.title.as_str(), artist.username.as_str());
    let mut image_path = String::from_str("/usr/share/backgrounds/");
    image_path.append(entry_name.as_str());
    image_path.append("/");
    image_path.append(entry_name.as_str());
    image_path.append(".");
    image_path.append(entry.format.as_str());
    let mut entry = entry;
    entry.artist = artist.name.clone();
    entry.dest = image_path;
    entry.email = artist.email.clone();
    entry.entry_name = entry_name;
    entry.src = String::from_str(artist_path);
    entry
}

/// Resolves the wallpapers of one artist's record whose index is selected,
/// in the record's order; selected indices the record lacks yield nothing.
pub fn scan_single_artist(
    album: &str,
    artist: &ContributorMeta,
    artist_path: &str,
    selections: &HashSet<usize>,
) -> (r: Vec<WallPaperMeta>)
    ensures
        entries_view(r@) == select_spec(album@, artist@, artist_path@, selections@),
{
    let mut results: Vec<WallPaperMeta> = Vec::new();
    let mut i: usize = 0;
    while i < artist.wallpapers.len()
        invariant
            i <= artist.wallpapers@.len(),
            entries_view(results@) == select_upto(album@, artist@, artist_path@, selections@, i as int),
        decreases artist.wallpapers@.len() - i,
    {
        let entry = &artist.wallpapers[i];
        if selections.contains(&entry.index) {
            let ghost before = entries_view(results@);
            let copy = copy_entry(entry);
            results.push(scan_entries(album, copy, artist, artist_path));
            proof {
                assert(entries_view(results@) =~= before.push(results@.last()@));
            }
        }
        i = i + 1;
    }
    results
}

/// Resolves every group against its artist's record (`records[i]` belongs to
/// `lookup[i]`), the artist's directory being `{pack_root}/contributors/{artist}`,
/// and concatenates the results in group order.
pub fn scan_all_artists(
    lookup: &Vec<(String, HashSet<usize>)>,
    records: &Vec<ContributorMeta>,
    pack_root: &str,
    pack_name: &str,
) -> (r: Vec<WallPaperMeta>)
    requires
        records@.len() == lookup@.len(),
    ensures
        entries_view(r@) == all_upto(
            crate::grouping::groups_view(lookup@),
            records@.map_values(|c: ContributorMeta| c@),
            pack_root@,
            pack_name@,
            lookup@.len() as int,
        ),
{
    let ghost groups = crate::grouping::groups_view(lookup@);
    let ghost recs = records@.map_values(|c: ContributorMeta| c@);
    let mut all_data: Vec<WallPaperMeta> = Vec::new();
    let mut i: usize = 0;
    while i < lookup.len()
        invariant
            i <= lookup@.len(),
            records@.len() == lookup@.len(),
            groups == crate::grouping::groups_view(lookup@),
            recs == records@.map_values(|c: ContributorMeta| c@),
            entries_view(all_data@) == all_upto(groups, recs, pack_root@, pack_name@, i as int),
        decreases lookup@.len() - i,
    {
        let mut artist_path = String::from_str(pack_root);
        artist_path.append("/contributors/");
        artist_path.append(lookup[i].0.as_str());
        let artist_data = scan_single_artist(pack_name, &records[i], artist_path.as_str(), &lookup[i].1);
        let ghost before = entries_view(all_data@);
        let mut j: usize = 0;
        while j < artist_data.len()
            invariant
                j <= artist_data@.len(),
                entries_view(all_data@) == before + entries_view(artist_data@.take(j as int)),
            decreases artist_data@.len() - j,
        {
            let ghost pre = entries_view(all_data@);
            all_data.push(copy_entry(&artist_data[j]));
            proof {
                assert(entries_view(all_data@) =~= pre.push(artist_data@[j as int]@));
                assert(entries_view(artist_data@.take(j + 1)) =~= entries_view(artist_data@.take(j as int)).push(
                    artist_data@[j as int]@,
                ));
                assert(entries_view(all_data@) =~= before + entries_view(artist_data@.take(j + 1)));
            }
            j = j + 1;
        }
        proof {
            assert(artist_data@.take(j as int) =~= artist_data@);
            assert(groups[i as int] == (lookup@[i as int].0@, lookup@[i as int].1@));
            assert(recs[i as int] == records@[i as int]@);
        }
        i = i + 1;
    }
    all_data
}

/// Checks that no two entries share a stable name; reports the first shared name.
pub fn check_unique_names(entries: &Vec<WallPaperMeta>) -> (r: Result<(), NameCollision>)
    ensures
        r is Ok <==> names_unique(entries_view(entries@)),
        r matches Err(c) ==> exists|i: int, j: int|
            0 <= i < j < entries@.len() && entries@[i].entry_name@ == c.name@ && entries@[j].entry_name@
                == c.name@,
{
    let n = entries.len();
    let mut i: usize = 0;
    while i < n
        invariant
            n == entries@.len(),
            i <= n,
            forall|a: int, b: int|
                0 <= a < i && a < b < n ==> entries@[a].entry_name@ != entries@[b].entry_name@,
        decreases n - i,
    {
        let mut j: usize = i + 1;
        while j < n
            invariant
                n == entries@.len(),
                i < n,
                i + 1 <= j <= n,
                forall|a: int, b: int|
                    0 <= a < i && a < b < n ==> entries@[a].entry_name@ != entries@[b].entry_name@,
                forall|b: int| i < b < j ==> entries@[i as int].entry_name@ != entries@[b].entry_name@,
            decreases n - j,
        {
            if entries[i].entry_name == entries[j].entry_name {
                proof {
                    assert(!names_unique(entries_view(entries@))) by {
                        assert(entries_view(entries@)[i as int].entry_name == entries_view(entries@)[j as int].entry_name);
                    }
                }
                return Err(NameCollision { name: entries[i].entry_name.clone() });
            }
            j = j + 1;
        }
        i = i + 1;
    }
    proof {
        assert forall|a: int, b: int| 0 <= a < b < entries_view(entries@).len() implies entries_view(
            entries@,
        )[a].entry_name != entries_view(entries@)[b].entry_name by {
            assert(entries_view(entries@)[a] == entries@[a]@);
        }
    }
    Ok(())
}

/// A selected index that none of the artist's offered wallpapers carries
/// yields no resolved entry: it is dropped, not reported.
pub proof fn lemma_absent_index_dropped(
    album: Seq<char>,
    artist: ContributorView,
    artist_path: Seq<char>,
    selections: Set<usize>,
    k: usize,
)
    requires
        selections.contains(k),
        forall|i: int| 0 <= i < artist.wallpapers.len() ==> #[trigger] artist.wallpapers[i].index != k,
    ensures
        forall|j: int|
            0 <= j < select_spec(album, artist, artist_path, selections).len() ==> (#[trigger] select_spec(
                album,
                artist,
                artist_path,
                selections,
            )[j]).index != k,
{
    lemma_select_indices(album, artist, artist_path, selections, artist.wallpapers.len() as int);
}

proof fn lemma_select_indices(
    album: Seq<char>,
    artist: ContributorView,
    artist_path: Seq<char>,
    selections: Set<usize>,
    n: int,
)
    requires
        0 <= n <= artist.wallpapers.len(),
    ensures
        forall|j: int|
            0 <= j < select_upto(album, artist, artist_path, selections, n).len() ==> exists|i: int|
                0 <= i < n && #[trigger] select_upto(album, artist, artist_path, selections, n)[j].index
                    == artist.wallpapers[i].index,
    decreases n,
{
    if n > 0 {
        lemma_select_indices(album, artist, artist_path, selections, n - 1);
        let prev = select_upto(album, artist, artist_path, selections, n - 1);
        let cur = select_upto(album, artist, artist_path, selections, n);
        assert forall|j: int| 0 <= j < cur.len() implies exists|i: int|
            0 <= i < n && #[trigger] cur[j].index == artist.wallpapers[i].index by {
            if j < prev.len() {
                assert(cur[j] == prev[j]);
                let i = choose|i: int| 0 <= i < n - 1 && prev[j].index == artist.wallpapers[i].index;
                assert(0 <= i < n && cur[j].index == artist.wallpapers[i].index);
            } else {
                assert(cur[j].index == artist.wallpapers[n - 1].index);
            }
        }
    }
}

} // verus!
