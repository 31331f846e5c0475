//! Beatmaps of the local library: what a `.osu` file says of its map.

use crate::outside::optional_text;
use crate::path::{FilePath, PathView};
use crate::single::Single;
use crate::text::{
    chars_of, lemma_text_less_irreflexive, lemma_text_less_total, lemma_text_less_transitive,
    same_chars, text_less, text_less_slice,
};
use vstd::prelude::*;

pub use crate::osu_file::is_osu_file;
pub use crate::scan::{LibraryScan, ScanEvent};

verus! {

/// One difficulty of the local library, as its `.osu` file describes it.
#[derive(Debug)]
pub struct LocalBeatmap {
    pub path: FilePath,
    pub folder: FilePath,
    pub md5: String,
    pub beatmap_id: Option<i64>,
    pub beatmapset_id: Option<i64>,
    pub artist: String,
    pub title: String,
    pub source: String,
    pub creator: String,
    pub version: String,
    pub tags: String,
    pub audio_filename: Option<String>,
    pub background_filename: Option<String>,
    pub mode: Option<u8>,
    /// Whether the `.osu` file declared a `Mode` field at all. osu!standard
    /// maps usually omit it; its absence is a fact about the file, not a
    /// failure to read it.
    pub has_mode_field: bool,
    pub ar: Option<Single>,
    pub cs: Option<Single>,
    pub od: Option<Single>,
    pub hp: Option<Single>,
    pub stars: Option<Single>,
    pub bpm: Option<Single>,
    pub length_seconds: Option<Single>,
    pub circles: u32,
    pub sliders: u32,
    /// The ranked status that the game's own database gives the map; a
    /// `.osu` file does not hold it.
    pub ranked_status: Option<u8>,
}

/// What a [`LocalBeatmap`] holds, with texts as sequences of characters.
#[verifier::ext_equal]
pub struct MapView {
    pub path: PathView,
    pub folder: PathView,
    pub md5: Seq<char>,
    pub beatmap_id: Option<i64>,
    pub beatmapset_id: Option<i64>,
    pub artist: Seq<char>,
    pub title: Seq<char>,
    pub source: Seq<char>,
    pub creator: Seq<char>,
    pub version: Seq<char>,
    pub tags: Seq<char>,
    pub audio_filename: Option<Seq<char>>,
    pub background_filename: Option<Seq<char>>,
    pub mode: Option<u8>,
    pub has_mode_field: bool,
    pub ar: Option<Single>,
    pub cs: Option<Single>,
    pub od: Option<Single>,
    pub hp: Option<Single>,
    pub stars: Option<Single>,
    pub bpm: Option<Single>,
    pub length_seconds: Option<Single>,
    pub circles: u32,
    pub sliders: u32,
    pub ranked_status: Option<u8>,
}

impl View for LocalBeatmap {
    type V = MapView;

    open spec fn view(&self) -> MapView {
        MapView {
            path: self.path@,
            folder: self.folder@,
            md5: self.md5@,
            beatmap_id: self.beatmap_id,
            beatmapset_id: self.beatmapset_id,
            artist: self.artist@,
            title: self.title@,
            source: self.source@,
            creator: self.creator@,
            version: self.version@,
            tags: self.tags@,
            audio_filename: optional_text(self.audio_filename),
            background_filename: optional_text(self.background_filename),
            mode: self.mode,
            has_mode_field: self.has_mode_field,
            ar: self.ar,
            cs: self.cs,
            od: self.od,
            hp: self.hp,
            stars: self.stars,
            bpm: self.bpm,
            length_seconds: self.length_seconds,
            circles: self.circles,
            sliders: self.sliders,
            ranked_status: self.ranked_status,
        }
    }
}

fn clone_optional(s: &Option<String>) -> (res: Option<String>)
    ensures
        res == *s,
{
    match s {
        Some(s) => Some(s.clone()),
        None => None,
    }
}

impl Clone for LocalBeatmap {
    fn clone(&self) -> (res: Self)
        ensures
            res == *self,
    {
        LocalBeatmap {
            path: self.path.clone(),
            folder: self.folder.clone(),
            md5: self.md5.clone(),
            beatmap_id: self.beatmap_id,
            beatmapset_id: self.beatmapset_id,
            artist: self.artist.clone(),
            title: self.title.clone(),
            source: self.source.clone(),
            creator: self.creator.clone(),
            version: self.version.clone(),
            tags: self.tags.clone(),
            audio_filename: clone_optional(&self.audio_filename),
            background_filename: clone_optional(&self.background_filename),
            mode: self.mode,
            has_mode_field: self.has_mode_field,
            ar: self.ar,
            cs: self.cs,
            od: self.od,
            hp: self.hp,
            stars: self.stars,
            bpm: self.bpm,
            length_seconds: self.length_seconds,
            circles: self.circles,
            sliders: self.sliders,
            ranked_status: self.ranked_status,
        }
    }
}

impl Default for LocalBeatmap {
    fn default() -> (res: Self)
        ensures
            res.path@ == PathView::nowhere(),
            res.folder@ == PathView::nowhere(),
            res.md5@ == Seq::<char>::empty(),
            res.beatmap_id is None,
            res.beatmapset_id is None,
            res.artist@ == Seq::<char>::empty(),
            res.title@ == Seq::<char>::empty(),
            res.source@ == Seq::<char>::empty(),
            res.creator@ == Seq::<char>::empty(),
            res.version@ == Seq::<char>::empty(),
            res.tags@ == Seq::<char>::empty(),
            res.audio_filename is None,
            res.background_filename is None,
            res.mode is None,
            !res.has_mode_field,
            res.ar is None,
            res.cs is None,
            res.od is None,
            res.hp is None,
            res.stars is None,
            res.bpm is None,
            res.length_seconds is None,
            res.circles == 0,
            res.sliders == 0,
            res.ranked_status is None,
    {
        LocalBeatmap {
            path: FilePath::default(),
            folder: FilePath::default(),
            md5: String::new(),
            beatmap_id: None,
            beatmapset_id: None,
            artist: String::new(),
            title: String::new(),
            source: String::new(),
            creator: String::new(),
            version: String::new(),
            tags: String::new(),
            audio_filename: None,
            background_filename: None,
            mode: None,
            has_mode_field: false,
            ar: None,
            cs: None,
            od: None,
            hp: None,
            stars: None,
            bpm: None,
            length_seconds: None,
            circles: 0,
            sliders: 0,
            ranked_status: None,
        }
    }
}

impl MapView {
    /// Artist, title and difficulty in one line.
    pub open spec fn label_text(self) -> Seq<char> {
        self.artist + " - "@ + self.title + " ["@ + self.version + "]"@
    }
}

impl LocalBeatmap {
    /// Artist, title and difficulty in one line.
    pub fn label(&self) -> (res: String)
        ensures
            res@ == self@.label_text(),
    {
        let mut res = self.artist.clone();
        res.append(" - ");
        res.append(self.title.as_str());
        res.append(" [");
        res.append(self.version.as_str());
        res.append("]");
        res
    }
}

// ---------------------------------------------------------------------------
// Issues
// ---------------------------------------------------------------------------

/// What is wrong with a beatmap.
#[derive(Debug)]
pub struct RepairIssue {
    pub beatmap: FilePath,
    pub message: String,
    pub severity: RepairSeverity,
}

#[derive(Debug, Clone, Copy, PartialEq, Eq, Structural)]
pub enum RepairSeverity {
    MissingRequiredFile,
    ParseWarning,
}

/// What a [`RepairIssue`] says.
#[verifier::ext_equal]
pub struct IssueView {
    pub beatmap: PathView,
    pub message: Seq<char>,
    pub severity: RepairSeverity,
}

impl View for RepairIssue {
    type V = IssueView;

    open spec fn view(&self) -> IssueView {
        IssueView { beatmap: self.beatmap@, message: self.message@, severity: self.severity }
    }
}

impl Clone for RepairIssue {
    fn clone(&self) -> (res: Self)
        ensures
            res == *self,
    {
        RepairIssue {
            beatmap: self.beatmap.clone(),
            message: self.message.clone(),
            severity: self.severity,
        }
    }
}

/// What a list of issues says.
pub open spec fn issue_views(issues: Seq<RepairIssue>) -> Seq<IssueView> {
    issues.map_values(|issue: RepairIssue| issue@)
}

/// The issue of a file that a map needs and that is not there.
pub open spec fn missing_file(
    beatmap: PathView,
    what: Seq<char>,
    name: Option<Seq<char>>,
    exists_on_disk: bool,
) -> Seq<IssueView> {
    match name {
        Some(name) if !exists_on_disk => seq![
            IssueView {
                beatmap,
                message: what + name,
                severity: RepairSeverity::MissingRequiredFile,
            },
        ],
        _ => Seq::empty(),
    }
}

/// The issues of a map: the audio file and the background that it names have
/// to be there.
pub open spec fn issues_of(map: MapView, audio_exists: bool, background_exists: bool) -> Seq<
    IssueView,
> {
    missing_file(map.path, "Missing audio file: "@, map.audio_filename, audio_exists)
        + missing_file(
        map.path,
        "Missing background file: "@,
        map.background_filename,
        background_exists,
    )
}

fn push_missing(
    issues: &mut Vec<RepairIssue>,
    beatmap: &FilePath,
    what: &str,
    name: &Option<String>,
    exists_on_disk: bool,
)
    ensures
        issue_views(final(issues)@) == issue_views(old(issues)@) + missing_file(
            beatmap@,
            what@,
            optional_text(*name),
            exists_on_disk,
        ),
{
    let ghost before = issues@;
    if let Some(name) = name {
        if !exists_on_disk {
            let mut message = what.to_owned();
            message.append(name.as_str());
            issues.push(
                RepairIssue {
                    beatmap: beatmap.clone(),
                    message,
                    severity: RepairSeverity::MissingRequiredFile,
                },
            );
        }
    }
    assert(issue_views(issues@) =~= issue_views(before) + missing_file(
        beatmap@,
        what@,
        optional_text(*name),
        exists_on_disk,
    ));
}

/// The issues of a map, given whether the files that it names are there. What
/// is said of a file that the map does not name has no effect.
pub fn find_repair_issues(map: &LocalBeatmap, audio_exists: bool, background_exists: bool) -> (res:
    Vec<RepairIssue>)
    ensures
        issue_views(res@) == issues_of(map@, audio_exists, background_exists),
{
    let mut issues: Vec<RepairIssue> = Vec::new();
    push_missing(&mut issues, &map.path, "Missing audio file: ", &map.audio_filename, audio_exists);
    assert(issue_views(issues@) =~= missing_file(
        map.path@,
        "Missing audio file: "@,
        optional_text(map.audio_filename),
        audio_exists,
    ));
    push_missing(
        &mut issues,
        &map.path,
        "Missing background file: ",
        &map.background_filename,
        background_exists,
    );
    issues
}

// ---------------------------------------------------------------------------
// Sets
// ---------------------------------------------------------------------------

/// The maps of one set, which lie in one folder.
#[derive(Debug, Clone)]
pub struct LocalBeatmapSet {
    pub beatmapset_id: Option<i64>,
    pub folder: FilePath,
    pub maps: Vec<LocalBeatmap>,
}

/// What tells sets apart.
#[verifier::ext_equal]
pub struct SetKey {
    pub id: Option<i64>,
    /// The key of the folder, however its path is written.
    pub folder: Seq<char>,
}

impl LocalBeatmapSet {
    pub open spec fn key(self) -> SetKey {
        SetKey { id: self.beatmapset_id, folder: self.folder@.key }
    }
}

impl LocalBeatmap {
    pub open spec fn set_key(self) -> SetKey {
        SetKey { id: self.beatmapset_id, folder: self.folder@.key }
    }
}

/// The order of sets: by id, those without one first, then by the folder,
/// which is compared part by part.
pub open spec fn key_less(a: SetKey, b: SetKey) -> bool {
    if a.id == b.id {
        text_less(a.folder, b.folder)
    } else {
        match (a.id, b.id) {
            (Some(x), Some(y)) => x < y,
            (x, _) => x is None,
        }
    }
}

proof fn lemma_key_less_irreflexive(a: SetKey)
    ensures
        !key_less(a, a),
{
    lemma_text_less_irreflexive(a.folder);
}

proof fn lemma_key_less_transitive(a: SetKey, b: SetKey, c: SetKey)
    requires
        key_less(a, b),
        key_less(b, c),
    ensures
        key_less(a, c),
{
    if a.id == b.id && b.id == c.id {
        lemma_text_less_transitive(a.folder, b.folder, c.folder);
    }
}

proof fn lemma_key_less_total(a: SetKey, b: SetKey)
    requires
        a != b,
    ensures
        key_less(a, b) || key_less(b, a),
{
    if a.id == b.id {
        assert(a.folder != b.folder);
        lemma_text_less_total(a.folder, b.folder);
    }
}

/// The maps with a key, in their order.
pub open spec fn maps_with_key(maps: Seq<LocalBeatmap>, key: SetKey) -> Seq<LocalBeatmap>
    decreases maps.len(),
{
    if maps.len() == 0 {
        Seq::empty()
    } else {
        let earlier = maps_with_key(maps.drop_last(), key);
        if maps.last().set_key() == key {
            earlier.push(maps.last())
        } else {
            earlier
        }
    }
}

/// Whether the keys of sets ascend.
pub open spec fn sets_ascend(sets: Seq<LocalBeatmapSet>) -> bool {
    forall|i: int, j: int|
        0 <= i < j < sets.len() ==> key_less(#[trigger] sets[i].key(), #[trigger] sets[j].key())
}

/// Whether a set holds the maps with its key, and its folder is written as in
/// the first of them.
pub open spec fn holds_its_maps(set: LocalBeatmapSet, maps: Seq<LocalBeatmap>) -> bool {
    &&& set.maps@ == maps_with_key(maps, set.key())
    &&& set.maps@.len() > 0
    &&& set.folder == set.maps@[0].folder
}

/// Whether one of the sets has a key.
pub open spec fn has_key(sets: Seq<LocalBeatmapSet>, key: SetKey) -> bool {
    exists|i: int| 0 <= i < sets.len() && (#[trigger] sets[i]).key() == key
}

/// Whether maps are grouped into sets: one set for each key, in the order of
/// the keys, with the maps of that key in their order.
pub open spec fn is_grouping(sets: Seq<LocalBeatmapSet>, maps: Seq<LocalBeatmap>) -> bool {
    &&& sets_ascend(sets)
    &&& forall|i: int| 0 <= i < sets.len() ==> holds_its_maps(#[trigger] sets[i], maps)
    &&& forall|i: int| 0 <= i < maps.len() ==> has_key(sets, (#[trigger] maps[i]).set_key())
}

/// Where a key stands among ascending sets, or would have to stand.
fn find_set(sets: &Vec<LocalBeatmapSet>, id: Option<i64>, folder: &[char]) -> (res: (bool, usize))
    requires
        sets_ascend(sets@),
    ensures
        ({
            let key = SetKey { id, folder: folder@ };
            &&& res.1 <= sets@.len()
            &&& forall|j: int| 0 <= j < res.1 ==> key_less(#[trigger] sets@[j].key(), key)
            &&& res.0 ==> res.1 < sets@.len() && sets@[res.1 as int].key() == key
            &&& !res.0 ==> forall|j: int|
                res.1 <= j < sets@.len() ==> key_less(key, #[trigger] sets@[j].key())
        }),
{
    let ghost key = SetKey { id, folder: folder@ };
    let mut low: usize = 0;
    let mut high: usize = sets.len();
    while low < high
        invariant
            sets_ascend(sets@),
            key == (SetKey { id, folder: folder@ }),
            low <= high <= sets@.len(),
            forall|j: int| 0 <= j < low ==> key_less(#[trigger] sets@[j].key(), key),
            forall|j: int| high <= j < sets@.len() ==> key_less(key, #[trigger] sets@[j].key()),
        decreases high - low,
    {
        let mid = low + (high - low) / 2;
        let here = chars_of(sets[mid].folder.key().as_str());
        let ghost middle = sets@[mid as int].key();
        let same_id = same_number(sets[mid].beatmapset_id, id);
        if same_id && same_chars(&here, folder) {
            assert(middle =~= key);
            assert forall|j: int| 0 <= j < mid implies key_less(#[trigger] sets@[j].key(), key) by {
                assert(key_less(sets@[j].key(), sets@[mid as int].key()));
            }
            return (true, mid);
        }
        let before = if same_id {
            text_less_slice(&here, folder)
        } else {
            match (sets[mid].beatmapset_id, id) {
                (Some(x), Some(y)) => x < y,
                (x, _) => x.is_none(),
            }
        };
        assert(before == key_less(middle, key));
        if before {
            assert forall|j: int| 0 <= j < mid + 1 implies key_less(
                #[trigger] sets@[j].key(),
                key,
            ) by {
                if j < mid {
                    lemma_key_less_transitive(sets@[j].key(), middle, key);
                }
            }
            low = mid + 1;
        } else {
            proof {
                lemma_key_less_total(middle, key);
            }
            assert forall|j: int| mid <= j < sets@.len() implies key_less(
                key,
                #[trigger] sets@[j].key(),
            ) by {
                if j > mid {
                    lemma_key_less_transitive(key, middle, sets@[j].key());
                }
            }
            high = mid;
        }
    }
    (false, low)
}

fn same_number(a: Option<i64>, b: Option<i64>) -> (res: bool)
    ensures
        res == (a == b),
{
    match (a, b) {
        (Some(a), Some(b)) => a == b,
        (None, None) => true,
        _ => false,
    }
}

/// A map is in the group of its key.
proof fn lemma_in_its_group(maps: Seq<LocalBeatmap>, i: int)
    requires
        0 <= i < maps.len(),
    ensures
        maps_with_key(maps, maps[i].set_key()).contains(maps[i]),
    decreases maps.len(),
{
    let key = maps[i].set_key();
    let earlier = maps_with_key(maps.drop_last(), key);
    if i == maps.len() - 1 {
        assert(earlier.push(maps[i]).last() == maps[i]);
    } else {
        lemma_in_its_group(maps.drop_last(), i);
        let k = choose|k: int| 0 <= k < earlier.len() && earlier[k] == maps[i];
        assert(maps_with_key(maps, key)[k] == maps[i]);
    }
}

/// Only maps with a key are in its group.
proof fn lemma_group_members(maps: Seq<LocalBeatmap>, key: SetKey, k: int)
    requires
        0 <= k < maps_with_key(maps, key).len(),
    ensures
        maps_with_key(maps, key)[k].set_key() == key,
        maps.contains(maps_with_key(maps, key)[k]),
    decreases maps.len(),
{
    let earlier = maps_with_key(maps.drop_last(), key);
    if k < earlier.len() {
        lemma_group_members(maps.drop_last(), key, k);
        let m = earlier[k];
        let i = choose|i: int| 0 <= i < maps.drop_last().len() && maps.drop_last()[i] == m;
        assert(maps[i] == m);
    } else {
        assert(maps[maps.len() - 1] == maps.last());
    }
}

/// A key that no set has is that of no map.
proof fn lemma_new_key(sets: Seq<LocalBeatmapSet>, maps: Seq<LocalBeatmap>, key: SetKey)
    requires
        is_grouping(sets, maps),
        !has_key(sets, key),
    ensures
        maps_with_key(maps, key).len() == 0,
{
    if maps_with_key(maps, key).len() > 0 {
        lemma_group_members(maps, key, 0);
        let m = maps_with_key(maps, key)[0];
        let i = choose|i: int| 0 <= i < maps.len() && maps[i] == m;
        assert(has_key(sets, maps[i].set_key()));
    }
}

/// Groups maps into sets.
pub fn build_sets(maps: &Vec<LocalBeatmap>) -> (res: Vec<LocalBeatmapSet>)
    ensures
        is_grouping(res@, maps@),
{
    let mut sets: Vec<LocalBeatmapSet> = Vec::new();
    let mut n: usize = 0;
    while n < maps.len()
        invariant
            n <= maps@.len(),
            is_grouping(sets@, maps@.take(n as int)),
        decreases maps@.len() - n,
    {
        let map = &maps[n];
        let ghost key = map.set_key();
        let ghost earlier = maps@.take(n as int);
        let ghost now = maps@.take(n + 1);
        let ghost before = sets@;
        assert(now.drop_last() == earlier);
        assert(now.last() == *map);
        let (found, at) = find_set(&sets, map.beatmapset_id, &chars_of(map.folder.key().as_str()));
        if found {
            let mut set = sets.remove(at);
            set.maps.push(map.clone());
            sets.insert(at, set);
            proof {
                assert forall|i: int| 0 <= i < sets@.len() && i != at implies sets@[i]
                    == before[i] by {}
                assert(sets@[at as int].key() == before[at as int].key());
                assert forall|i: int, j: int| 0 <= i < j < sets@.len() implies key_less(
                    #[trigger] sets@[i].key(),
                    #[trigger] sets@[j].key(),
                ) by {
                    assert(sets@[i].key() == before[i].key());
                    assert(sets@[j].key() == before[j].key());
                    assert(key_less(before[i].key(), before[j].key()));
                }
                assert forall|i: int| 0 <= i < sets@.len() implies holds_its_maps(
                    #[trigger] sets@[i],
                    now,
                ) by {
                    assert(holds_its_maps(before[i], earlier));
                    if i != at {
                        lemma_key_less_irreflexive(key);
                        if i < at {
                            assert(key_less(before[i].key(), before[at as int].key()));
                        } else {
                            assert(key_less(before[at as int].key(), before[i].key()));
                        }
                    }
                }
                assert forall|i: int| 0 <= i < now.len() implies has_key(
                    sets@,
                    (#[trigger] now[i]).set_key(),
                ) by {
                    if i < n {
                        assert(earlier[i] == now[i]);
                        assert(has_key(before, earlier[i].set_key()));
                        let k = choose|k: int|
                            0 <= k < before.len() && (#[trigger] before[k]).key()
                                == earlier[i].set_key();
                        assert(sets@[k].key() == before[k].key());
                    } else {
                        assert(sets@[at as int].key() == key);
                    }
                }
            }
        } else {
            proof {
                assert(!has_key(before, key)) by {
                    lemma_key_less_irreflexive(key);
                    if has_key(before, key) {
                        let k = choose|k: int|
                            0 <= k < before.len() && (#[trigger] before[k]).key() == key;
                        if k < at {
                            assert(key_less(before[k].key(), key));
                        } else {
                            assert(key_less(key, before[k].key()));
                        }
                    }
                }
                lemma_new_key(before, earlier, key);
            }
            let mut members: Vec<LocalBeatmap> = Vec::new();
            members.push(map.clone());
            let set = LocalBeatmapSet {
                beatmapset_id: map.beatmapset_id,
                folder: map.folder.clone(),
                maps: members,
            };
            sets.insert(at, set);
            proof {
                assert(sets@[at as int] == set);
                assert(set.key() == key);
                assert(set.maps@ =~= maps_with_key(earlier, key).push(*map));
                assert forall|i: int, j: int| 0 <= i < j < sets@.len() implies key_less(
                    #[trigger] sets@[i].key(),
                    #[trigger] sets@[j].key(),
                ) by {
                    let a = if i < at { i } else { i - 1 };
                    let b = if j < at { j } else { j - 1 };
                    if i == at {
                        assert(sets@[j] == before[b]);
                        assert(key_less(key, before[b].key()));
                    } else if j == at {
                        assert(sets@[i] == before[a]);
                        assert(key_less(before[a].key(), key));
                    } else {
                        assert(sets@[i] == before[a]);
                        assert(sets@[j] == before[b]);
                        assert(key_less(before[a].key(), before[b].key()));
                    }
                }
                assert forall|i: int| 0 <= i < sets@.len() implies holds_its_maps(
                    #[trigger] sets@[i],
                    now,
                ) by {
                    if i != at {
                        let a = if i < at { i } else { i - 1 };
                        assert(sets@[i] == before[a]);
                        assert(holds_its_maps(before[a], earlier));
                    }
                }
                assert forall|i: int| 0 <= i < now.len() implies has_key(
                    sets@,
                    (#[trigger] now[i]).set_key(),
                ) by {
                    if i < n {
                        assert(earlier[i] == now[i]);
                        assert(has_key(before, earlier[i].set_key()));
                        let a = choose|a: int|
                            0 <= a < before.len() && (#[trigger] before[a]).key()
                                == earlier[i].set_key();
                        let k = if a < at { a } else { a + 1 };
                        assert(sets@[k] == before[a]);
                    } else {
                        assert(sets@[at as int].key() == key);
                    }
                }
            }
        }
        n = n + 1;
    }
    assert(maps@.take(maps@.len() as int) == maps@);
    sets
}

/// Every map is in one set and in no other.
pub proof fn law_each_map_in_one_set(sets: Seq<LocalBeatmapSet>, maps: Seq<LocalBeatmap>, m: int)
    requires
        is_grouping(sets, maps),
        0 <= m < maps.len(),
    ensures
        exists|i: int| 0 <= i < sets.len() && (#[trigger] sets[i]).maps@.contains(maps[m]),
        forall|i: int, j: int|
            0 <= i < sets.len() && 0 <= j < sets.len() && (#[trigger] sets[i]).maps@.contains(
                maps[m],
            ) && (#[trigger] sets[j]).maps@.contains(maps[m]) ==> i == j,
{
    let key = maps[m].set_key();
    assert(has_key(sets, key));
    let i = choose|i: int| 0 <= i < sets.len() && (#[trigger] sets[i]).key() == key;
    assert(holds_its_maps(sets[i], maps));
    lemma_in_its_group(maps, m);
    assert(sets[i].maps@.contains(maps[m]));
    assert forall|i: int, j: int|
        0 <= i < sets.len() && 0 <= j < sets.len() && (#[trigger] sets[i]).maps@.contains(maps[m])
            && (#[trigger] sets[j]).maps@.contains(maps[m]) implies i == j by {
        assert(holds_its_maps(sets[i], maps));
        assert(holds_its_maps(sets[j], maps));
        let a = choose|a: int| 0 <= a < sets[i].maps@.len() && sets[i].maps@[a] == maps[m];
        let b = choose|b: int| 0 <= b < sets[j].maps@.len() && sets[j].maps@[b] == maps[m];
        lemma_group_members(maps, sets[i].key(), a);
        lemma_group_members(maps, sets[j].key(), b);
        lemma_key_less_irreflexive(key);
        if i < j {
            assert(key_less(sets[i].key(), sets[j].key()));
        } else if j < i {
            assert(key_less(sets[j].key(), sets[i].key()));
        }
    }
}

/// The sets hold maps of the library only.
pub proof fn law_sets_hold_only_the_maps(
    sets: Seq<LocalBeatmapSet>,
    maps: Seq<LocalBeatmap>,
    i: int,
    k: int,
)
    requires
        is_grouping(sets, maps),
        0 <= i < sets.len(),
        0 <= k < sets[i].maps@.len(),
    ensures
        maps.contains(sets[i].maps@[k]),
        sets[i].maps@[k].set_key() == sets[i].key(),
{
    assert(holds_its_maps(sets[i], maps));
    lemma_group_members(maps, sets[i].key(), k);
}

/// A map that names no background has no issue about one.
pub proof fn law_no_background_no_issue(
    map: MapView,
    audio_exists: bool,
    background_exists: bool,
)
    requires
        map.background_filename is None,
    ensures
        issues_of(map, audio_exists, background_exists) == missing_file(
            map.path,
            "Missing audio file: "@,
            map.audio_filename,
            audio_exists,
        ),
{
    assert(issues_of(map, audio_exists, background_exists) =~= missing_file(
        map.path,
        "Missing audio file: "@,
        map.audio_filename,
        audio_exists,
    ));
}

} // verus!
