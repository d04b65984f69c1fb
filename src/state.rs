//! Configuration, cache, and how both are reconciled with what was read from
//! disk.
use vstd::prelude::*;

use crate::monitors::{texts, Monitors};
use crate::table::{text_eq, Table};
use crate::time::{all_day, ValidTime};

verus! {

/// The cache format that this library reads and writes.
pub const CACHE_VERSION: usize = 0;

/// How often the daemon wakes by default: five minutes.
pub const DEFAULT_CHECK_INTERVAL: u128 = 300_000_000_000;

/// How often the daemon swaps images by default: one hour.
pub const DEFAULT_UPDATE_INTERVAL: u128 = 3_600_000_000_000;

/// Transition frame rate by default.
pub const DEFAULT_FPS: u8 = 30;

/// Settings of the daemon, as read from the configuration file.
#[derive(Debug)]
pub struct Config {
    /// How often to wake, in nanoseconds.
    pub check_interval: u128,
    /// How often to swap images, in nanoseconds.
    pub update_interval: u128,
    /// Names of transition effects to draw from.
    pub transitions: Vec<String>,
    /// Images, relative to `image_dir`, with the windows of the day they may
    /// be shown in.
    pub images: Table<Vec<ValidTime>>,
    pub image_dir: String,
    pub fps: u8,
    pub monitors: Monitors,
}

/// A configuration as plain values; two configurations with equal views are
/// the same configuration.
pub ghost struct ConfigView {
    pub check_interval: u128,
    pub update_interval: u128,
    pub transitions: Seq<Seq<char>>,
    pub images: Map<Seq<char>, Seq<ValidTime>>,
    pub image_dir: Seq<char>,
    pub fps: u8,
    pub monitors: Option<Seq<Seq<char>>>,
}

impl View for Config {
    type V = ConfigView;

    open spec fn view(&self) -> ConfigView {
        ConfigView {
            check_interval: self.check_interval,
            update_interval: self.update_interval,
            transitions: texts(self.transitions@),
            images: self.images@,
            image_dir: self.image_dir@,
            fps: self.fps,
            monitors: self.monitors.deep(),
        }
    }
}

/// Last state of the daemon, as kept in the cache file.
#[derive(Debug)]
pub struct Cache {
    pub version: usize,
    /// When images were last swapped, in nanoseconds since the Unix epoch.
    pub last_update: u128,
    /// Last transition used on each monitor.
    pub last_transitions: Table<String>,
    /// Last image shown on each monitor.
    pub last_images: Table<String>,
}

pub ghost struct CacheView {
    pub version: usize,
    pub last_update: u128,
    pub last_transitions: Map<Seq<char>, Seq<char>>,
    pub last_images: Map<Seq<char>, Seq<char>>,
}

/// What a change of the cache is detected by: its format and its two maps,
/// leaving out the time of the last update.
pub type CacheFingerprint = (usize, Map<Seq<char>, Seq<char>>, Map<Seq<char>, Seq<char>>);

impl View for Cache {
    type V = CacheView;

    open spec fn view(&self) -> CacheView {
        CacheView {
            version: self.version,
            last_update: self.last_update,
            last_transitions: self.last_transitions@,
            last_images: self.last_images@,
        }
    }
}


/// Whether two lists of texts are equal, item by item.
fn texts_same(a: &Vec<String>, b: &Vec<String>) -> (r: bool)
    ensures
        r == (texts(a@) == texts(b@)),
{
    if a.len() != b.len() {
        assert(texts(a@).len() != texts(b@).len());
        return false;
    }
    let mut i: usize = 0;
    while i < a.len()
        invariant
            a@.len() == b@.len(),
            i <= a@.len(),
            forall|j: int| 0 <= j < i ==> a@[j]@ == b@[j]@,
        decreases a@.len() - i,
    {
        if !text_eq(a[i].as_str(), b[i].as_str()) {
            assert(texts(a@)[i as int] != texts(b@)[i as int]);
            return false;
        }
        i = i + 1;
    }
    assert(texts(a@) =~= texts(b@));
    true
}

/// Whether two lists of windows are equal.
fn times_same(a: &Vec<ValidTime>, b: &Vec<ValidTime>) -> (r: bool)
    ensures
        r == (a@ == b@),
{
    if a.len() != b.len() {
        return false;
    }
    let mut i: usize = 0;
    while i < a.len()
        invariant
            a@.len() == b@.len(),
            i <= a@.len(),
            forall|j: int| 0 <= j < i ==> a@[j] == b@[j],
        decreases a@.len() - i,
    {
        if a[i] != b[i] {
            return false;
        }
        i = i + 1;
    }
    assert(a@ =~= b@);
    true
}

/// Whether every entry of `a` stands in `b` with the same text.
fn text_table_within(a: &Table<String>, b: &Table<String>) -> (r: bool)
    requires
        a.wf(),
        b.wf(),
    ensures
        r == forall|k: Seq<char>|
            #[trigger] a@.contains_key(k) ==> b@.contains_key(k) && b@[k] == a@[k],
{
    let mut i: usize = 0;
    while i < a.entries.len()
        invariant
            a.wf(),
            b.wf(),
            i <= a.entries@.len(),
            forall|j: int|
                0 <= j < i ==> b@.contains_key(#[trigger] a.entries@[j].0@) && b@[a.entries@[j].0@]
                    == a.entries@[j].1@,
        decreases a.entries@.len() - i,
    {
        proof {
            a.lemma_view_at(i as int);
        }
        let same = match b.get(a.entries[i].0.as_str()) {
            Some(v) => text_eq(v.as_str(), a.entries[i].1.as_str()),
            None => false,
        };
        if !same {
            return false;
        }
        i = i + 1;
    }
    assert forall|k: Seq<char>| #[trigger] a@.contains_key(k) implies b@.contains_key(k) && b@[k]
        == a@[k] by {
        let j = a.index_of(k);
        a.lemma_view_at(j);
    }
    true
}

/// Whether every entry of `a` stands in `b` with the same windows.
fn image_table_within(a: &Table<Vec<ValidTime>>, b: &Table<Vec<ValidTime>>) -> (r: bool)
    requires
        a.wf(),
        b.wf(),
    ensures
        r == forall|k: Seq<char>|
            #[trigger] a@.contains_key(k) ==> b@.contains_key(k) && b@[k] == a@[k],
{
    let mut i: usize = 0;
    while i < a.entries.len()
        invariant
            a.wf(),
            b.wf(),
            i <= a.entries@.len(),
            forall|j: int|
                0 <= j < i ==> b@.contains_key(#[trigger] a.entries@[j].0@) && b@[a.entries@[j].0@]
                    == a.entries@[j].1@,
        decreases a.entries@.len() - i,
    {
        proof {
            a.lemma_view_at(i as int);
        }
        let same = match b.get(a.entries[i].0.as_str()) {
            Some(v) => times_same(v, &a.entries[i].1),
            None => false,
        };
        if !same {
            return false;
        }
        i = i + 1;
    }
    assert forall|k: Seq<char>| #[trigger] a@.contains_key(k) implies b@.contains_key(k) && b@[k]
        == a@[k] by {
        let j = a.index_of(k);
        a.lemma_view_at(j);
    }
    true
}

/// Whether two tables of texts are the same map.
fn text_tables_same(a: &Table<String>, b: &Table<String>) -> (r: bool)
    requires
        a.wf(),
        b.wf(),
    ensures
        r == (a@ == b@),
{
    let r = text_table_within(a, b) && text_table_within(b, a);
    if r {
        assert(a@ =~= b@);
    }
    r
}

/// Whether two image tables are the same map.
fn image_tables_same(a: &Table<Vec<ValidTime>>, b: &Table<Vec<ValidTime>>) -> (r: bool)
    requires
        a.wf(),
        b.wf(),
    ensures
        r == (a@ == b@),
{
    let r = image_table_within(a, b) && image_table_within(b, a);
    if r {
        assert(a@ =~= b@);
    }
    r
}

/// A copy of a list of texts.
fn copy_texts(v: &Vec<String>) -> (r: Vec<String>)
    ensures
        texts(r@) == texts(v@),
{
    let mut r: Vec<String> = Vec::new();
    let mut i: usize = 0;
    while i < v.len()
        invariant
            i <= v@.len(),
            texts(r@) == texts(v@).take(i as int),
        decreases v@.len() - i,
    {
        let c = v[i].clone();
        let ghost before = r@;
        r.push(c);
        assert(r@ == before.push(c));
        assert(texts(r@) =~= texts(before).push(c@));
        assert(texts(r@) =~= texts(v@).take(i + 1));
        i = i + 1;
    }
    assert(texts(v@).take(v@.len() as int) =~= texts(v@));
    r
}

/// A copy of a list of windows.
fn copy_times(v: &Vec<ValidTime>) -> (r: Vec<ValidTime>)
    ensures
        r@ == v@,
{
    let mut r: Vec<ValidTime> = Vec::new();
    let mut i: usize = 0;
    while i < v.len()
        invariant
            i <= v@.len(),
            r@ == v@.take(i as int),
        decreases v@.len() - i,
    {
        r.push(v[i]);
        assert(r@ =~= v@.take(i + 1));
        i = i + 1;
    }
    assert(v@.take(v@.len() as int) =~= v@);
    r
}

pub open spec fn image_views(s: Seq<(String, Vec<ValidTime>)>) -> Seq<(Seq<char>, Seq<ValidTime>)> {
    s.map_values(|e: (String, Vec<ValidTime>)| (e.0@, e.1@))
}

/// A copy of an image table.
fn copy_images(t: &Table<Vec<ValidTime>>) -> (r: Table<Vec<ValidTime>>)
    requires
        t.wf(),
    ensures
        r.entry_views() == t.entry_views(),
        r.wf(),
        r@ == t@,
{
    let mut entries: Vec<(String, Vec<ValidTime>)> = Vec::new();
    let mut i: usize = 0;
    while i < t.entries.len()
        invariant
            i <= t.entries@.len(),
            image_views(entries@) == t.entry_views().take(i as int),
        decreases t.entries@.len() - i,
    {
        let k = t.entries[i].0.clone();
        let v = copy_times(&t.entries[i].1);
        let ghost before = entries@;
        entries.push((k, v));
        assert(entries@ == before.push((k, v)));
        assert(image_views(entries@) =~= image_views(before).push((k@, v@)));
        assert(image_views(entries@) =~= t.entry_views().take(i + 1));
        i = i + 1;
    }
    let r = Table { entries };
    assert(r.entry_views() =~= t.entry_views());
    proof {
        Table::lemma_same_entries(r, *t);
    }
    r
}

/// Five-minute checks, hourly swaps, no transitions or images, 30 frames per
/// second, all monitors.
pub open spec fn default_config() -> ConfigView {
    ConfigView {
        check_interval: DEFAULT_CHECK_INTERVAL,
        update_interval: DEFAULT_UPDATE_INTERVAL,
        transitions: Seq::empty(),
        images: Map::empty(),
        image_dir: Seq::empty(),
        fps: DEFAULT_FPS,
        monitors: None,
    }
}

/// The current format, the Unix epoch as last update, and no entries.
pub open spec fn default_cache() -> CacheView {
    CacheView {
        version: CACHE_VERSION,
        last_update: 0,
        last_transitions: Map::empty(),
        last_images: Map::empty(),
    }
}

/// The images after a selection of `paths`: each maps to the whole-day
/// window, over the old images when they are kept.
pub open spec fn selected(
    images: Map<Seq<char>, Seq<ValidTime>>,
    paths: Seq<Seq<char>>,
    keep_old: bool,
) -> Map<Seq<char>, Seq<ValidTime>> {
    let base = if keep_old {
        images
    } else {
        Map::empty()
    };
    Map::new(
        |k: Seq<char>| base.contains_key(k) || paths.contains(k),
        |k: Seq<char>|
            if paths.contains(k) {
                seq![all_day()]
            } else {
                base[k]
            },
    )
}

impl Config {
    pub open spec fn wf(self) -> bool {
        self.images.wf()
    }

    /// Five-minute checks, hourly swaps, no transitions or images, 30 frames
    /// per second, all monitors.
    pub fn default() -> (r: Config)
        ensures
            r.wf(),
            r@ == default_config(),
            r.images@ == Map::<Seq<char>, Seq<ValidTime>>::empty(),
    {
        let r = Config {
            check_interval: DEFAULT_CHECK_INTERVAL,
            update_interval: DEFAULT_UPDATE_INTERVAL,
            transitions: Vec::new(),
            images: Table::new(),
            image_dir: String::new(),
            fps: DEFAULT_FPS,
            monitors: Monitors::default(),
        };
        assert(texts(r.transitions@) =~= Seq::empty());
        r
    }

    /// Whether two configurations are the same.
    pub fn same(&self, other: &Config) -> (r: bool)
        requires
            self.wf(),
            other.wf(),
        ensures
            r == (self@ == other@),
    {
        let m = match (&self.monitors, &other.monitors) {
            (Monitors::All, Monitors::All) => true,
            (Monitors::Listed(a), Monitors::Listed(b)) => texts_same(a, b),
            _ => false,
        };
        self.check_interval == other.check_interval && self.update_interval
            == other.update_interval && self.fps == other.fps && m && texts_same(
            &self.transitions,
            &other.transitions,
        ) && image_tables_same(&self.images, &other.images) && text_eq(
            self.image_dir.as_str(),
            other.image_dir.as_str(),
        )
    }

    /// Makes the given files the images, or adds them to the images when
    /// `keep_old`; each may be shown all day.
    pub fn select_images(&mut self, paths: &Vec<String>, keep_old: bool)
        requires
            old(self).wf(),
        ensures
            final(self).wf(),
            final(self).images@ == selected(old(self).images@, texts(paths@), keep_old),
            final(self).check_interval == old(self).check_interval,
            final(self).update_interval == old(self).update_interval,
            final(self).transitions == old(self).transitions,
            final(self).image_dir == old(self).image_dir,
            final(self).fps == old(self).fps,
            final(self).monitors == old(self).monitors,
    {
        if !keep_old {
            self.images = Table::new();
        }
        let ghost base = self.images@;
        assert(base == (if keep_old { old(self).images@ } else { Map::empty() }));
        let mut i: usize = 0;
        while i < paths.len()
            invariant
                self.images.wf(),
                i <= paths@.len(),
                self.images@ == selected(base, texts(paths@).take(i as int), true),
                self.check_interval == old(self).check_interval,
                self.update_interval == old(self).update_interval,
                self.transitions == old(self).transitions,
                self.image_dir == old(self).image_dir,
                self.fps == old(self).fps,
                self.monitors == old(self).monitors,
            decreases paths@.len() - i,
        {
            let mut times: Vec<ValidTime> = Vec::new();
            times.push(ValidTime::all());
            assert(times@ =~= seq![all_day()]);
            self.images.insert(paths[i].clone(), times);
            proof {
                let before = texts(paths@).take(i as int);
                let after = texts(paths@).take(i + 1);
                assert(after =~= before.push(paths@[i as int]@));
                assert forall|k: Seq<char>| #[trigger] after.contains(k) == (before.contains(k) || k
                    == paths@[i as int]@) by {
                    if after.contains(k) {
                        let j = choose|j: int| 0 <= j < after.len() && after[j] == k;
                        if j < i {
                            assert(before[j] == k);
                        }
                    }
                    if before.contains(k) {
                        let j = choose|j: int| 0 <= j < before.len() && before[j] == k;
                        assert(after[j] == k);
                    }
                    if k == paths@[i as int]@ {
                        assert(after[i as int] == k);
                    }
                }
            }
            assert(self.images@ =~= selected(base, texts(paths@).take(i + 1), true));
            i = i + 1;
        }
        assert(texts(paths@).take(paths@.len() as int) =~= texts(paths@));
        assert(self.images@ =~= selected(old(self).images@, texts(paths@), keep_old));
    }

    /// A copy of the configuration.
    pub fn duplicate(&self) -> (r: Config)
        requires
            self.wf(),
        ensures
            r.wf(),
            r@ == self@,
            r.images@ == self.images@,
    {
        Config {
            check_interval: self.check_interval,
            update_interval: self.update_interval,
            transitions: copy_texts(&self.transitions),
            images: copy_images(&self.images),
            image_dir: self.image_dir.clone(),
            fps: self.fps,
            monitors: self.monitors.duplicate(),
        }
    }
}

impl Cache {
    pub open spec fn wf(self) -> bool {
        self.last_transitions.wf() && self.last_images.wf()
    }

    pub open spec fn fingerprint(self) -> CacheFingerprint {
        (self.version, self.last_transitions@, self.last_images@)
    }

    /// The current format, the Unix epoch as last update, and no entries.
    pub fn default() -> (r: Cache)
        ensures
            r.wf(),
            r@ == default_cache(),
    {
        let r = Cache {
            version: CACHE_VERSION,
            last_update: 0,
            last_transitions: Table::new(),
            last_images: Table::new(),
        };
        r
    }

    /// A cache of the given format with no entries.
    pub fn with_version(version: usize, last_update: u128) -> (r: Cache)
        ensures
            r.wf(),
            r@ == (CacheView {
                version,
                last_update,
                last_transitions: Map::empty(),
                last_images: Map::empty(),
            }),
    {
        let r = Cache {
            version,
            last_update,
            last_transitions: Table::new(),
            last_images: Table::new(),
        };
        r
    }

    /// Records that `monitor` now shows `image` after `transition`, at `now`
    /// (nanoseconds since the Unix epoch).
    pub fn update(&mut self, monitor: String, image: String, transition: String, now: u128)
        requires
            old(self).wf(),
        ensures
            final(self).wf(),
            final(self)@ == (CacheView {
                version: old(self)@.version,
                last_update: now,
                last_transitions: old(self)@.last_transitions.insert(monitor@, transition@),
                last_images: old(self)@.last_images.insert(monitor@, image@),
            }),
    {
        self.last_update = now;
        self.last_images.insert(monitor.clone(), image);
        self.last_transitions.insert(monitor, transition);
    }

    /// Records the choice for `monitor` at `now`, and says whether the image
    /// has to be handed to the presenter: not when the monitor already shows
    /// it. The record is made either way.
    pub fn record(&mut self, monitor: String, image: String, transition: String, now: u128) -> (r:
        bool)
        requires
            old(self).wf(),
        ensures
            r == !(old(self)@.last_images.contains_key(monitor@) && old(self)@.last_images[monitor@]
                == image@),
            final(self).wf(),
            final(self)@ == (CacheView {
                version: old(self)@.version,
                last_update: now,
                last_transitions: old(self)@.last_transitions.insert(monitor@, transition@),
                last_images: old(self)@.last_images.insert(monitor@, image@),
            }),
    {
        let present = match self.last_images.get(monitor.as_str()) {
            Some(last) => !text_eq(last.as_str(), image.as_str()),
            None => true,
        };
        self.update(monitor, image, transition, now);
        present
    }

    /// Whether two caches have the same fingerprint.
    pub fn same_fingerprint(&self, other: &Cache) -> (r: bool)
        requires
            self.wf(),
            other.wf(),
        ensures
            r == (self.fingerprint() == other.fingerprint()),
    {
        self.version == other.version && text_tables_same(
            &self.last_transitions,
            &other.last_transitions,
        ) && text_tables_same(
            &self.last_images,
            &other.last_images,
        )
    }
}


/// Whether a choice of monitors takes in `monitor`.
pub open spec fn chosen(choice: Option<Seq<Seq<char>>>, monitor: Seq<char>) -> bool {
    match choice {
        None => true,
        Some(names) => names.contains(monitor),
    }
}

/// `mine` with the entries of `loaded` for the chosen monitors laid over it.
pub open spec fn merged(
    mine: Map<Seq<char>, Seq<char>>,
    loaded: Map<Seq<char>, Seq<char>>,
    choice: Option<Seq<Seq<char>>>,
) -> Map<Seq<char>, Seq<char>> {
    Map::new(
        |k: Seq<char>| mine.contains_key(k) || (loaded.contains_key(k) && chosen(choice, k)),
        |k: Seq<char>|
            if loaded.contains_key(k) && chosen(choice, k) {
                loaded[k]
            } else {
                mine[k]
            },
    )
}

/// The in-memory cache after a loaded one of the right format is merged in.
pub open spec fn merge_cache(mine: CacheView, loaded: CacheView, choice: Option<Seq<Seq<char>>>) -> CacheView {
    CacheView {
        version: mine.version,
        last_update: loaded.last_update,
        last_transitions: merged(mine.last_transitions, loaded.last_transitions, choice),
        last_images: merged(mine.last_images, loaded.last_images, choice),
    }
}

/// Whether one of the first `n` entries of `t` has the key `k`.
pub open spec fn among_first(t: Table<String>, n: int, k: Seq<char>) -> bool {
    exists|j: int| 0 <= j < n && t.entries@[j].0@ == k
}

/// Lays the entries of `loaded` for the chosen monitors over `mine`.
fn merge_table(mine: &mut Table<String>, loaded: &Table<String>, choice: &Monitors)
    requires
        old(mine).wf(),
        loaded.wf(),
    ensures
        final(mine).wf(),
        final(mine)@ == merged(old(mine)@, loaded@, choice.deep()),
{
    let ghost start = mine@;
    let mut i: usize = 0;
    while i < loaded.entries.len()
        invariant
            mine.wf(),
            loaded.wf(),
            i <= loaded.entries@.len(),
            forall|k: Seq<char>|
                #[trigger] mine@.contains_key(k) == (start.contains_key(k) || (among_first(
                    *loaded,
                    i as int,
                    k,
                ) && chosen(choice.deep(), k))),
            forall|k: Seq<char>|
                #[trigger] mine@.contains_key(k) ==> mine@[k] == if among_first(*loaded, i as int, k)
                    && chosen(choice.deep(), k) {
                    loaded@[k]
                } else {
                    start[k]
                },
        decreases loaded.entries@.len() - i,
    {
        let ghost ki = loaded.entries@[i as int].0@;
        proof {
            loaded.lemma_view_at(i as int);
            assert forall|k: Seq<char>| #[trigger] among_first(*loaded, i + 1, k) == (among_first(*loaded, i as int, k) || k == ki) by {
                if among_first(*loaded, i + 1, k) {
                    let j = choose|j: int| 0 <= j < i + 1 && loaded.entries@[j].0@ == k;
                    if j < i {
                        assert(among_first(*loaded, i as int, k));
                    }
                }
                if k == ki {
                    assert(loaded.entries@[i as int].0@ == k);
                }
                if among_first(*loaded, i as int, k) {
                    let j = choose|j: int| 0 <= j < i && loaded.entries@[j].0@ == k;
                    assert(loaded.entries@[j].0@ == k);
                }
            }
        }
        let included = choice.includes(&loaded.entries[i].0);
        assert(included == chosen(choice.deep(), ki));
        if included {
            let k = loaded.entries[i].0.clone();
            let v = loaded.entries[i].1.clone();
            mine.insert(k, v);
        }
        i = i + 1;
    }
    proof {
        assert forall|k: Seq<char>| among_first(*loaded, loaded.entries@.len() as int, k) == loaded@.contains_key(k) by {
            if among_first(*loaded, loaded.entries@.len() as int, k) {
                let j = choose|j: int| 0 <= j < loaded.entries@.len() && loaded.entries@[j].0@ == k;
                assert(loaded.has(k));
            }
        }
    }
    assert(mine@ =~= merged(start, loaded@, choice.deep()));
}

/// What became of a cache read from disk.
#[derive(Clone, Copy, Debug, PartialEq, Eq, Structural)]
pub enum CacheOutcome {
    /// No cache file was there.
    Absent,
    /// Its fingerprint was the one last seen: it was left aside.
    Unchanged,
    /// It has another format, given here: it was not merged.
    VersionMismatch(usize),
    /// It was merged in.
    Merged,
}

/// What became of a configuration read from disk.
#[derive(Clone, Copy, Debug, PartialEq, Eq, Structural)]
pub enum ConfigOutcome {
    /// No configuration file was there.
    Absent,
    /// It was the one last seen: it was left aside.
    Unchanged,
    /// It replaced the configuration in memory.
    Replaced,
}

/// The daemon's state: configuration and cache in memory, and the
/// fingerprints of the ones last read from disk.
#[derive(Debug)]
pub struct State {
    pub cache: Cache,
    pub config: Config,
    /// The cache last read from disk, whose fingerprint is compared; none
    /// before the first read.
    pub seen_cache: Option<Cache>,
    /// The configuration last read from disk; none before the first read.
    pub seen_config: Option<Config>,
}

pub ghost struct StateView {
    pub cache: CacheView,
    pub config: ConfigView,
    pub seen_cache: Option<CacheFingerprint>,
    pub seen_config: Option<ConfigView>,
}

impl View for State {
    type V = StateView;

    open spec fn view(&self) -> StateView {
        StateView {
            cache: self.cache@,
            config: self.config@,
            seen_cache: match self.seen_cache {
                Some(c) => Some(c.fingerprint()),
                None => None,
            },
            seen_config: match self.seen_config {
                Some(g) => Some(g@),
                None => None,
            },
        }
    }
}

/// The state after a cache read from disk is taken into account.
pub open spec fn after_cache(s: StateView, c: CacheView, fp: CacheFingerprint, forced: bool) -> StateView {
    if !forced && s.seen_cache == Some(fp) {
        s
    } else if c.version != CACHE_VERSION {
        if forced {
            s
        } else {
            StateView {
                cache: s.cache,
                config: s.config,
                seen_cache: Some(fp),
                seen_config: s.seen_config,
            }
        }
    } else {
        StateView {
            cache: merge_cache(s.cache, c, s.config.monitors),
            config: s.config,
            seen_cache: Some(fp),
            seen_config: s.seen_config,
        }
    }
}

/// The state after a configuration read from disk is taken into account.
pub open spec fn after_config(s: StateView, g: ConfigView, forced: bool) -> StateView {
    if !forced && s.seen_config == Some(g) {
        s
    } else {
        StateView { cache: s.cache, config: g, seen_cache: s.seen_cache, seen_config: Some(g) }
    }
}

/// The state after what was read from disk is taken into account: first the
/// cache, filtered by the monitors of the configuration in memory, then the
/// configuration.
pub open spec fn reloaded(s: StateView, c: Option<Cache>, g: Option<Config>, forced: bool) -> StateView {
    let s1 = match c {
        Some(c) => after_cache(s, c@, c.fingerprint(), forced),
        None => s,
    };
    match g {
        Some(g) => after_config(s1, g@, forced),
        None => s1,
    }
}

impl State {
    pub open spec fn wf(self) -> bool {
        &&& self.cache.wf()
        &&& self.config.wf()
        &&& self.seen_cache matches Some(c) ==> c.wf()
        &&& self.seen_config matches Some(g) ==> g.wf()
    }

    /// The default configuration and cache, each also taken as the one last
    /// read.
    pub fn new() -> (r: State)
        ensures
            r.wf(),
            r@ == (StateView {
                cache: default_cache(),
                config: default_config(),
                seen_cache: None,
                seen_config: None,
            }),
    {
        let config = Config::default();
        let cache = Cache::default();
        State { cache, config, seen_cache: None, seen_config: None }
    }

    fn take_cache(&mut self, cache: Cache, forced: bool) -> (r: CacheOutcome)
        requires
            old(self).wf(),
            cache.wf(),
        ensures
            final(self).wf(),
            final(self)@ == after_cache(old(self)@, cache@, cache.fingerprint(), forced),
            r == (if !forced && old(self)@.seen_cache == Some(cache.fingerprint()) {
                CacheOutcome::Unchanged
            } else if cache.version != CACHE_VERSION {
                CacheOutcome::VersionMismatch(cache.version)
            } else {
                CacheOutcome::Merged
            }),
    {
        if !forced {
            if let Some(seen) = &self.seen_cache {
                if cache.same_fingerprint(seen) {
                    return CacheOutcome::Unchanged;
                }
            }
        }
        if cache.version != CACHE_VERSION {
            let found = cache.version;
            if !forced {
                self.seen_cache = Some(cache);
            }
            return CacheOutcome::VersionMismatch(found);
        }
        merge_table(&mut self.cache.last_images, &cache.last_images, &self.config.monitors);
        merge_table(&mut self.cache.last_transitions, &cache.last_transitions, &self.config.monitors);
        self.cache.last_update = cache.last_update;
        self.seen_cache = Some(cache);
        CacheOutcome::Merged
    }

    fn take_config(&mut self, config: Config, forced: bool) -> (r: ConfigOutcome)
        requires
            old(self).wf(),
            config.wf(),
        ensures
            final(self).wf(),
            final(self)@ == after_config(old(self)@, config@, forced),
            final(self).config.images@ == (if r == ConfigOutcome::Unchanged {
                old(self).config.images@
            } else {
                config.images@
            }),
            r == (if !forced && old(self)@.seen_config == Some(config@) {
                ConfigOutcome::Unchanged
            } else {
                ConfigOutcome::Replaced
            }),
    {
        if !forced {
            if let Some(seen) = &self.seen_config {
                if config.same(seen) {
                    return ConfigOutcome::Unchanged;
                }
            }
        }
        self.seen_config = Some(config.duplicate());
        self.config = config;
        ConfigOutcome::Replaced
    }

    /// Takes in what was read from disk unless it is what was read last time:
    /// a cache of the current format is merged in for the monitors that the
    /// configuration chooses, and a configuration replaces the one in memory.
    pub fn reload(&mut self, cache: Option<Cache>, config: Option<Config>) -> (r: (
        CacheOutcome,
        ConfigOutcome,
    ))
        requires
            old(self).wf(),
            cache matches Some(c) ==> c.wf(),
            config matches Some(g) ==> g.wf(),
        ensures
            final(self).wf(),
            final(self)@ == reloaded(old(self)@, cache, config, false),
            r.0 == match cache {
                None => CacheOutcome::Absent,
                Some(c) => if old(self)@.seen_cache == Some(c.fingerprint()) {
                    CacheOutcome::Unchanged
                } else if c.version != CACHE_VERSION {
                    CacheOutcome::VersionMismatch(c.version)
                } else {
                    CacheOutcome::Merged
                },
            },
            r.1 == match config {
                None => ConfigOutcome::Absent,
                Some(g) => if reloaded(old(self)@, cache, None, false).seen_config == Some(g@) {
                    ConfigOutcome::Unchanged
                } else {
                    ConfigOutcome::Replaced
                },
            },
    {
        self.reconcile(cache, config, false)
    }

    /// Takes in what was read from disk, whether or not it was read before: a
    /// cache of the current format is merged in for the monitors that the
    /// configuration chooses, and a configuration replaces the one in memory.
    pub fn force_reload(&mut self, cache: Option<Cache>, config: Option<Config>) -> (r: (
        CacheOutcome,
        ConfigOutcome,
    ))
        requires
            old(self).wf(),
            cache matches Some(c) ==> c.wf(),
            config matches Some(g) ==> g.wf(),
        ensures
            final(self).wf(),
            final(self)@ == reloaded(old(self)@, cache, config, true),
            r.0 == match cache {
                None => CacheOutcome::Absent,
                Some(c) => if c.version != CACHE_VERSION {
                    CacheOutcome::VersionMismatch(c.version)
                } else {
                    CacheOutcome::Merged
                },
            },
            r.1 == match config {
                None => ConfigOutcome::Absent,
                Some(_) => ConfigOutcome::Replaced,
            },
    {
        self.reconcile(cache, config, true)
    }

    /// Reconciles the state with what was read from disk; unless `forced`, a
    /// value whose fingerprint is the one last seen is left aside.
    pub fn reconcile(&mut self, cache: Option<Cache>, config: Option<Config>, forced: bool) -> (r: (
        CacheOutcome,
        ConfigOutcome,
    ))
        requires
            old(self).wf(),
            cache matches Some(c) ==> c.wf(),
            config matches Some(g) ==> g.wf(),
        ensures
            final(self).wf(),
            final(self)@ == reloaded(old(self)@, cache, config, forced),
            r.0 == match cache {
                None => CacheOutcome::Absent,
                Some(c) => if !forced && old(self)@.seen_cache == Some(c.fingerprint()) {
                    CacheOutcome::Unchanged
                } else if c.version != CACHE_VERSION {
                    CacheOutcome::VersionMismatch(c.version)
                } else {
                    CacheOutcome::Merged
                },
            },
            r.1 == match config {
                None => ConfigOutcome::Absent,
                Some(g) => if !forced && reloaded(old(self)@, cache, None, forced).seen_config == Some(
                    g@,
                ) {
                    ConfigOutcome::Unchanged
                } else {
                    ConfigOutcome::Replaced
                },
            },
    {
        let c = match cache {
            Some(c) => self.take_cache(c, forced),
            None => CacheOutcome::Absent,
        };
        let g = match config {
            Some(g) => self.take_config(g, forced),
            None => ConfigOutcome::Absent,
        };
        (c, g)
    }
}


/// Reloading a second time with the same files changes nothing: both values
/// match the fingerprints that the first reload recorded.
pub proof fn lemma_reload_idempotent(s: StateView, cache: Option<Cache>, config: Option<Config>)
    ensures
        reloaded(reloaded(s, cache, config, false), cache, config, false) == reloaded(
            s,
            cache,
            config,
            false,
        ),
{
}

/// A cache of another format is never merged: the cache in memory, its maps
/// and its time of last update, stay as they were.
pub proof fn lemma_version_mismatch_keeps_cache(
    s: StateView,
    cache: Cache,
    config: Option<Config>,
    forced: bool,
)
    requires
        cache.version != CACHE_VERSION,
    ensures
        reloaded(s, Some(cache), config, forced).cache == s.cache,
{
}

/// Entries for a monitor that the configuration does not choose are never
/// taken from a loaded cache; one already in memory stays as it is.
pub proof fn lemma_unchosen_monitor_untouched(
    s: StateView,
    cache: Option<Cache>,
    config: Option<Config>,
    forced: bool,
    monitor: Seq<char>,
)
    requires
        !chosen(s.config.monitors, monitor),
    ensures
        ({
            let after = reloaded(s, cache, config, forced).cache;
            &&& after.last_images.contains_key(monitor) == s.cache.last_images.contains_key(monitor)
            &&& after.last_images.contains_key(monitor) ==> after.last_images[monitor]
                == s.cache.last_images[monitor]
            &&& after.last_transitions.contains_key(monitor)
                == s.cache.last_transitions.contains_key(monitor)
            &&& after.last_transitions.contains_key(monitor) ==> after.last_transitions[monitor]
                == s.cache.last_transitions[monitor]
        }),
{
}

} // verus!
