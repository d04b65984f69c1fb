//! Choice of the next image and transition, tier by tier.
use vstd::prelude::*;

use rand::Rng;

use crate::monitors::{contains_text, pass_targets, target_monitors, texts, Monitors, PassError};
use crate::state::{Cache, Config};
use crate::time::{TimeOfDay, ValidTime};

verus! {

/// The image shown when no configured image can be.
pub const FALLBACK_IMAGE: &'static str = "/usr/share/backgrounds/sway/Sway_Wallpaper_Blue_1920x1080.png";

/// The transition used when none is configured.
pub const DEFAULT_TRANSITION: &'static str = "simple";

/// A path under a directory, as `Path::join` makes it on Unix: an absolute
/// path stands for itself, and a relative one follows the directory after a
/// `/` where the directory is not empty and does not end in one.
pub open spec fn joined(dir: Seq<char>, path: Seq<char>) -> Seq<char> {
    if path.len() > 0 && path[0] == '/' {
        path
    } else if dir.len() == 0 {
        path
    } else if dir.last() == '/' {
        dir + path
    } else {
        dir + seq!['/'] + path
    }
}

/// Relies on `Path::join` on Unix, read back with `to_string_lossy`, which
/// keeps the text since both parts are UTF-8.
#[verifier::external_body]
fn join_path(dir: &str, path: &str) -> (r: String)
    ensures
        r@ == joined(dir@, path@),
{
    std::path::Path::new(dir).join(path).to_string_lossy().into_owned()
}

/// Relies on rand's `thread_rng().gen_range(0..n)`, which returns a number
/// below `n` and panics only on an empty range.
#[verifier::external_body]
fn random_below(n: usize) -> (r: usize)
    requires
        n > 0,
    ensures
        r < n,
{
    rand::thread_rng().gen_range(0..n)
}

/// Whether one of the windows takes in `now`.
pub open spec fn valid_at(times: Seq<ValidTime>, now: TimeOfDay) -> bool {
    exists|i: int| 0 <= i < times.len() && times[i].matches_spec(now)
}

/// The images valid at `now`, as paths under `dir`, in the order of the table.
pub open spec fn valid_paths(
    entries: Seq<(Seq<char>, Seq<ValidTime>)>,
    dir: Seq<char>,
    now: TimeOfDay,
) -> Seq<Seq<char>>
    decreases entries.len(),
{
    if entries.len() == 0 {
        Seq::empty()
    } else {
        let rest = valid_paths(entries.drop_last(), dir, now);
        if valid_at(entries.last().1, now) {
            rest.push(joined(dir, entries.last().0))
        } else {
            rest
        }
    }
}

/// Every image, as a path under `dir`, in the order of the table.
pub open spec fn all_paths(entries: Seq<(Seq<char>, Seq<ValidTime>)>, dir: Seq<char>) -> Seq<
    Seq<char>,
> {
    entries.map_values(|e: (Seq<char>, Seq<ValidTime>)| joined(dir, e.0))
}

/// The paths that are not among `shown`, in order.
pub open spec fn not_shown(paths: Seq<Seq<char>>, shown: Seq<Seq<char>>) -> Seq<Seq<char>>
    decreases paths.len(),
{
    if paths.len() == 0 {
        Seq::empty()
    } else {
        let rest = not_shown(paths.drop_last(), shown);
        if shown.contains(paths.last()) {
            rest
        } else {
            rest.push(paths.last())
        }
    }
}

/// Whether one of the windows takes in `now`.
fn any_matches(times: &Vec<ValidTime>, now: &TimeOfDay) -> (r: bool)
    ensures
        r == valid_at(times@, *now),
{
    let mut i: usize = 0;
    while i < times.len()
        invariant
            i <= times@.len(),
            forall|j: int| 0 <= j < i ==> !times@[j].matches_spec(*now),
        decreases times@.len() - i,
    {
        if times[i].matches(now) {
            return true;
        }
        i = i + 1;
    }
    false
}

/// The images of the configuration valid at `now`, as paths under its image
/// directory.
pub fn valid_images(config: &Config, now: &TimeOfDay) -> (r: Vec<String>)
    ensures
        texts(r@) == valid_paths(config.images.entry_views(), config.image_dir@, *now),
{
    let entries = &config.images.entries;
    let mut r: Vec<String> = Vec::new();
    let mut i: usize = 0;
    while i < entries.len()
        invariant
            entries == &config.images.entries,
            i <= entries@.len(),
            texts(r@) == valid_paths(
                config.images.entry_views().take(i as int),
                config.image_dir@,
                *now,
            ),
        decreases entries@.len() - i,
    {
        proof {
            assert(config.images.entry_views().take(i + 1).drop_last()
                =~= config.images.entry_views().take(i as int));
        }
        if any_matches(&entries[i].1, now) {
            let p = join_path(config.image_dir.as_str(), entries[i].0.as_str());
            let ghost before = r@;
            r.push(p);
            assert(texts(r@) =~= texts(before).push(p@));
        }
        i = i + 1;
    }
    assert(config.images.entry_views().take(entries@.len() as int)
        =~= config.images.entry_views());
    r
}

/// Every image of the configuration, as a path under its image directory.
pub fn all_images(config: &Config) -> (r: Vec<String>)
    ensures
        texts(r@) == all_paths(config.images.entry_views(), config.image_dir@),
{
    let entries = &config.images.entries;
    let mut r: Vec<String> = Vec::new();
    let mut i: usize = 0;
    while i < entries.len()
        invariant
            entries == &config.images.entries,
            i <= entries@.len(),
            texts(r@) == all_paths(config.images.entry_views(), config.image_dir@).take(i as int),
        decreases entries@.len() - i,
    {
        let p = join_path(config.image_dir.as_str(), entries[i].0.as_str());
        let ghost before = r@;
        r.push(p);
        assert(texts(r@) =~= texts(before).push(p@));
        assert(texts(r@) =~= all_paths(config.images.entry_views(), config.image_dir@).take(
            i + 1,
        ));
        i = i + 1;
    }
    assert(all_paths(config.images.entry_views(), config.image_dir@).take(entries@.len() as int)
        =~= all_paths(config.images.entry_views(), config.image_dir@));
    r
}

/// The paths that are not among `shown`, in order.
pub fn without_shown(paths: &Vec<String>, shown: &Vec<String>) -> (r: Vec<String>)
    ensures
        texts(r@) == not_shown(texts(paths@), texts(shown@)),
{
    let mut r: Vec<String> = Vec::new();
    let mut i: usize = 0;
    while i < paths.len()
        invariant
            i <= paths@.len(),
            texts(r@) == not_shown(texts(paths@).take(i as int), texts(shown@)),
        decreases paths@.len() - i,
    {
        proof {
            assert(texts(paths@).take(i + 1).drop_last() =~= texts(paths@).take(i as int));
            assert(texts(paths@).take(i + 1).last() == paths@[i as int]@);
        }
        if !contains_text(shown, &paths[i]) {
            let p = paths[i].clone();
            let ghost before = r@;
            r.push(p);
            assert(texts(r@) =~= texts(before).push(p@));
        }
        i = i + 1;
    }
    assert(texts(paths@).take(paths@.len() as int) =~= texts(paths@));
    r
}

/// The images last shown on any monitor.
pub fn shown_images(cache: &Cache) -> (r: Vec<String>)
    ensures
        texts(r@) == shown_paths(*cache),
{
    let entries = &cache.last_images.entries;
    let mut r: Vec<String> = Vec::new();
    let mut i: usize = 0;
    while i < entries.len()
        invariant
            entries == &cache.last_images.entries,
            i <= entries@.len(),
            texts(r@) == cache.last_images.entry_views().map_values(
                |e: (Seq<char>, Seq<char>)| e.1,
            ).take(i as int),
        decreases entries@.len() - i,
    {
        let p = entries[i].1.clone();
        let ghost before = r@;
        r.push(p);
        assert(texts(r@) =~= texts(before).push(p@));
        assert(texts(r@) =~= cache.last_images.entry_views().map_values(
            |e: (Seq<char>, Seq<char>)| e.1,
        ).take(i + 1));
        i = i + 1;
    }
    assert(cache.last_images.entry_views().map_values(|e: (Seq<char>, Seq<char>)| e.1).take(
        entries@.len() as int,
    ) =~= cache.last_images.entry_views().map_values(|e: (Seq<char>, Seq<char>)| e.1));
    r
}


/// A search for an image that exists, tier by tier: first the images valid
/// now that no monitor shows, then all images valid now, then every image,
/// then the fallback. Each proposal is a uniform draw, without replacement,
/// from the current tier; a tier is left only once it has nothing left.
#[derive(Debug)]
pub struct ImageSearch {
    /// The tier of the candidates in `current`, counted from one.
    pub tier: usize,
    /// Untried candidates of the current tier.
    pub current: Vec<String>,
    /// Candidates of the tiers still to come, in order.
    pub later: Vec<Vec<String>>,
}

/// Untried candidates of the current tier and of those to come.
pub open spec fn pending_of(current: Seq<String>, later: Seq<Vec<String>>) -> Seq<Seq<Seq<char>>> {
    seq![texts(current)] + later.map_values(|v: Vec<String>| texts(v@))
}

impl ImageSearch {
    /// The current tier and those to come make up the four tiers.
    pub open spec fn wf(self) -> bool {
        self.tier + self.later@.len() == 4
    }

    pub open spec fn pending(self) -> Seq<Seq<Seq<char>>> {
        pending_of(self.current@, self.later@)
    }

    /// The search for one monitor at `now`; `shown` holds the images last
    /// shown on any monitor.
    pub fn new(config: &Config, shown: &Vec<String>, now: &TimeOfDay) -> (r: ImageSearch)
        ensures
            r.wf(),
            r.tier == 1,
            r.pending() == seq![
                not_shown(
                    valid_paths(config.images.entry_views(), config.image_dir@, *now),
                    texts(shown@),
                ),
                valid_paths(config.images.entry_views(), config.image_dir@, *now),
                all_paths(config.images.entry_views(), config.image_dir@),
                seq![FALLBACK_IMAGE@],
            ],
    {
        let valid = valid_images(config, now);
        let fresh = without_shown(&valid, shown);
        let all = all_images(config);
        let mut fallback: Vec<String> = Vec::new();
        fallback.push(String::from_str(FALLBACK_IMAGE));
        let mut later: Vec<Vec<String>> = Vec::new();
        later.push(valid);
        later.push(all);
        later.push(fallback);
        let r = ImageSearch { tier: 1, current: fresh, later };
        assert(texts(fallback@) =~= seq![FALLBACK_IMAGE@]);
        assert(r.pending() =~= seq![
            not_shown(
                valid_paths(config.images.entry_views(), config.image_dir@, *now),
                texts(shown@),
            ),
            valid_paths(config.images.entry_views(), config.image_dir@, *now),
            all_paths(config.images.entry_views(), config.image_dir@),
            seq![FALLBACK_IMAGE@],
        ]);
        r
    }

    /// The tier of the candidates now drawn from.
    pub fn tier(&self) -> (r: usize)
        ensures
            r == self.tier,
    {
        self.tier
    }

    /// The untried candidates of the current tier.
    pub fn candidates(&self) -> (r: &Vec<String>)
        ensures
            r == &self.current,
    {
        &self.current
    }

    /// The next candidate to check for existence, drawn from the first tier
    /// that has untried candidates left and taken out of it; `None` once no
    /// tier has any. A candidate is never drawn from a tier while an earlier
    /// one has untried candidates.
    pub fn propose(&mut self) -> (r: Option<String>)
        requires
            old(self).wf(),
        ensures
            final(self).wf(),
            match r {
                None => forall|j: int|
                    0 <= j < old(self).pending().len() ==> #[trigger] old(self).pending()[j].len()
                        == 0,
                Some(p) => {
                    let d = final(self).tier - old(self).tier;
                    &&& 0 <= d < old(self).pending().len()
                    &&& forall|j: int| 0 <= j < d ==> #[trigger] old(self).pending()[j].len() == 0
                    &&& exists|i: int|
                        0 <= i < old(self).pending()[d].len() && old(self).pending()[d][i] == p@
                            && final(self).pending() == seq![old(self).pending()[d].remove(i)]
                            + old(self).pending().skip(d + 1)
                },
            },
    {
        let ghost start = self.pending();
        let ghost t0 = self.tier;
        while self.current.len() == 0 && self.later.len() > 0
            invariant
                self.tier + self.later@.len() == t0 + old(self).later@.len(),
                t0 + old(self).later@.len() == 4,
                t0 <= self.tier,
                self.tier - t0 < start.len(),
                self.pending() == start.skip(self.tier - t0),
                forall|j: int| 0 <= j < self.tier - t0 ==> #[trigger] start[j].len() == 0,
            decreases self.later@.len(),
        {
            let ghost d = self.tier - t0;
            proof {
                assert(start[d] == self.pending()[0]);
                assert(self.pending()[0] == texts(self.current@));
            }
            let ghost old_later = self.later@;
            let ghost old_pending = self.pending();
            let next = self.later.remove(0);
            self.current = next;
            self.tier = self.tier + 1;
            proof {
                assert(self.later@ =~= old_later.subrange(1, old_later.len() as int));
                assert(self.pending() =~= old_pending.skip(1));
                assert(start.skip(d).skip(1) =~= start.skip(d + 1));
            }
        }
        let ghost d = self.tier - t0;
        assert(self.pending()[0] == texts(self.current@));
        assert(start[d] == self.pending()[0]);
        if self.current.len() == 0 {
            assert forall|j: int| 0 <= j < start.len() implies #[trigger] start[j].len() == 0 by {
                if j >= d {
                    assert(start[j] == self.pending()[j - d]);
                    if j > d {
                        assert(self.pending()[j - d] == texts(self.later@[j - d - 1]@));
                    }
                }
            }
            return None;
        }
        let n = self.current.len();
        let i = random_below(n);
        let ghost before = self.current@;
        let ghost before_pending = self.pending();
        let p = self.current.remove(i);
        proof {
            assert(start.skip(d).skip(1) =~= start.skip(d + 1));
            assert(before_pending.skip(1) =~= self.later@.map_values(|v: Vec<String>| texts(v@)));
            assert(texts(self.current@) =~= texts(before).remove(i as int));
            assert(start[d][i as int] == p@);
            assert(self.pending() =~= seq![start[d].remove(i as int)] + start.skip(d + 1));
        }
        Some(p)
    }
}

/// The transition to use: a uniform draw from those configured, or the
/// default one when none is.
pub fn pick_transition(transitions: &Vec<String>) -> (r: String)
    ensures
        transitions@.len() == 0 ==> r@ == DEFAULT_TRANSITION@,
        transitions@.len() > 0 ==> texts(transitions@).contains(r@),
{
    if transitions.len() == 0 {
        String::from_str(DEFAULT_TRANSITION)
    } else {
        let i = random_below(transitions.len());
        let r = transitions[i].clone();
        assert(texts(transitions@)[i as int] == r@);
        r
    }
}


/// The images last shown on any monitor, in the order of the cache.
pub open spec fn shown_paths(cache: Cache) -> Seq<Seq<char>> {
    cache.last_images.entry_views().map_values(|e: (Seq<char>, Seq<char>)| e.1)
}

/// One pass over the monitors: they are served in order, and the images
/// shown before the pass are what the first tier of every search leaves out,
/// whatever the pass assigns on the way.
#[derive(Debug)]
pub struct Pass {
    /// The monitors of the pass, in order.
    pub monitors: Vec<String>,
    /// How many of them are served.
    pub done: usize,
    /// The images shown on any monitor before the pass.
    pub shown: Vec<String>,
}

impl Pass {
    /// A pass over the monitors of `choice` that are connected, or why there
    /// is none.
    pub fn start(cache: &Cache, choice: &Monitors, connected: &Vec<String>) -> (r: Result<
        Pass,
        PassError,
    >)
        ensures
            match pass_targets(choice.deep(), texts(connected@)) {
                Ok(t) => r matches Ok(p) && texts(p.monitors@) == t && p.done == 0 && texts(
                    p.shown@,
                ) == shown_paths(*cache),
                Err(e) => r matches Err(f) && f == e,
            },
    {
        match target_monitors(choice, connected) {
            Ok(monitors) => Ok(Pass { monitors, done: 0, shown: shown_images(cache) }),
            Err(e) => Err(e),
        }
    }

    /// The monitor to serve next, if any is left.
    pub fn current(&self) -> (r: Option<String>)
        ensures
            self.done < self.monitors@.len() ==> (r matches Some(m) && m@ == self.monitors@[self.done as int]@),
            self.done >= self.monitors@.len() ==> r is None,
    {
        if self.done < self.monitors.len() {
            Some(self.monitors[self.done].clone())
        } else {
            None
        }
    }

    /// The search for an image for the current monitor at `now`.
    pub fn search(&self, config: &Config, now: &TimeOfDay) -> (r: ImageSearch)
        ensures
            r.wf(),
            r.tier == 1,
            r.pending() == seq![
                not_shown(
                    valid_paths(config.images.entry_views(), config.image_dir@, *now),
                    texts(self.shown@),
                ),
                valid_paths(config.images.entry_views(), config.image_dir@, *now),
                all_paths(config.images.entry_views(), config.image_dir@),
                seq![FALLBACK_IMAGE@],
            ],
    {
        ImageSearch::new(config, &self.shown, now)
    }

    /// Records `image` and `transition` for the current monitor at `now` and
    /// moves on to the next; says whether the image has to be handed to the
    /// presenter. The images left out of first tiers stay as they were.
    pub fn serve(&mut self, cache: &mut Cache, image: String, transition: String, now: u128) -> (r:
        bool)
        requires
            old(self).done < old(self).monitors@.len(),
            old(cache).wf(),
        ensures
            final(self).done == old(self).done + 1,
            final(self).monitors == old(self).monitors,
            final(self).shown == old(self).shown,
            final(cache).wf(),
            ({
                let m = old(self).monitors@[old(self).done as int]@;
                &&& r == !(old(cache)@.last_images.contains_key(m) && old(cache)@.last_images[m]
                    == image@)
                &&& final(cache)@.version == old(cache)@.version
                &&& final(cache)@.last_update == now
                &&& final(cache)@.last_images == old(cache)@.last_images.insert(m, image@)
                &&& final(cache)@.last_transitions == old(cache)@.last_transitions.insert(
                    m,
                    transition@,
                )
            }),
    {
        let monitor = self.monitors[self.done].clone();
        let present = cache.record(monitor, image, transition, now);
        if self.done < self.monitors.len() {
            self.done = self.done + 1;
        }
        present
    }
}

} // verus!
