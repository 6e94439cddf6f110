//! The folder watcher's decisions: which file events to follow, and when a
//! followed file has settled and is handed over for compression.
//!
//! The watcher itself (file-system notifications, the one-second tick, the
//! size lookups) runs outside; it feeds events and observations in here and
//! gets back what to compress.
use vstd::prelude::*;
use vstd::string::*;
use crate::jobs::{records_path, ProducedLog};
use crate::path::{file_name, path_file_name};
use crate::probe::{kind_from_ext, kind_of_ext, MediaKind};
use crate::path::ext_lower;
use crate::text::{ends_with, has_prefix, has_suffix, starts_with, text_eq, texts};

verus! {

/// What the watcher follows, and how long a file must stay unchanged.
#[derive(Debug, Clone, Copy)]
pub struct WatchRules {
    pub settle_secs: u32,
    pub videos: bool,
    pub images: bool,
    pub gifs: bool,
    pub pdfs: bool,
}

/// Whether files of a kind are followed.
pub open spec fn follows(r: WatchRules, k: MediaKind) -> bool {
    match k {
        MediaKind::Video => r.videos,
        MediaKind::Image => r.images,
        MediaKind::Gif => r.gifs,
        MediaKind::Pdf => r.pdfs,
        MediaKind::Unknown => false,
    }
}

/// Whether files of a kind are followed.
pub fn allowed(r: &WatchRules, k: MediaKind) -> (b: bool)
    ensures
        b == follows(*r, k),
{
    match k {
        MediaKind::Video => r.videos,
        MediaKind::Image => r.images,
        MediaKind::Gif => r.gifs,
        MediaKind::Pdf => r.pdfs,
        MediaKind::Unknown => false,
    }
}

/// Each media kind is followed by its own switch and by no other: videos by
/// `videos`, images by `images`, GIFs by `gifs`, PDFs by `pdfs`; files of an
/// unknown kind never. Turning one switch leaves the other kinds as they were.
pub proof fn law_each_kind_has_its_own_switch(r: WatchRules, r2: WatchRules)
    ensures
        follows(r, MediaKind::Video) == r.videos,
        follows(r, MediaKind::Image) == r.images,
        follows(r, MediaKind::Gif) == r.gifs,
        follows(r, MediaKind::Pdf) == r.pdfs,
        !follows(r, MediaKind::Unknown),
        r.gifs == r2.gifs ==> follows(r, MediaKind::Gif) == follows(r2, MediaKind::Gif),
        r.images == r2.images ==> follows(r, MediaKind::Image) == follows(r2, MediaKind::Image),
        r.videos == r2.videos ==> follows(r, MediaKind::Video) == follows(r2, MediaKind::Video),
        r.pdfs == r2.pdfs ==> follows(r, MediaKind::Pdf) == follows(r2, MediaKind::Pdf),
{
}

/// The settle time in milliseconds; at least one second.
pub open spec fn settle_ms(r: WatchRules) -> int {
    (if r.settle_secs >= 1 { r.settle_secs as int } else { 1 }) * 1000
}

/// The name a path is judged by; empty when it has none.
pub open spec fn event_name(path: Seq<char>) -> Seq<char> {
    match file_name(path) {
        Some(n) => n,
        None => Seq::empty(),
    }
}

/// A name that browsers give a download still in progress.
pub open spec fn partial_download(name: Seq<char>) -> bool {
    has_suffix(name, ".crdownload"@) || has_suffix(name, ".part"@) || has_suffix(name, ".download"@)
}

/// Whether an event on `path` starts (or restarts) following it: not hidden,
/// a regular file, of a followed kind, not a download in progress, and not a
/// file that Feather wrote itself.
pub open spec fn admits(r: WatchRules, path: Seq<char>, is_file: bool, produced: bool) -> bool {
    let name = event_name(path);
    &&& !has_prefix(name, "."@)
    &&& is_file
    &&& follows(r, kind_of_ext(ext_lower(path)))
    &&& !partial_download(name)
    &&& !produced
}

/// A followed file: when it last changed, and its size then.
#[derive(Debug, Clone)]
pub struct Pending {
    pub path: String,
    pub since_ms: u64,
    pub size: u64,
}

/// What one tick observed of a followed file.
#[derive(Debug, Clone, Copy)]
pub struct Seen {
    /// Its size, where it could be read.
    pub size: Option<u64>,
    /// Whether it still exists.
    pub exists: bool,
}

/// The first position of `p` among the entries; their length where it is absent.
pub open spec fn position(s: Seq<Pending>, p: Seq<char>) -> int
    decreases s.len(),
{
    if s.len() == 0 {
        0
    } else if s[0].path@ == p {
        0
    } else {
        1 + position(s.drop_first(), p)
    }
}

/// The entries after following `e`: its earlier entry is replaced in place,
/// or it is added at the end.
pub open spec fn followed(s: Seq<Pending>, e: Pending) -> Seq<Pending> {
    let i = position(s, e.path@);
    if i < s.len() {
        s.update(i, e)
    } else {
        s.push(e)
    }
}

/// No path is followed twice.
pub open spec fn distinct_paths(s: Seq<Pending>) -> bool {
    forall|i: int, j: int| 0 <= i < j < s.len() ==> (#[trigger] s[i]).path@ != (#[trigger] s[j]).path@
}

/// The time from `t` to `now`, zero when `now` is earlier.
pub open spec fn elapsed(now: u64, t: u64) -> int {
    if now >= t { now - t } else { 0 }
}

/// A followed file is ready when it has kept a nonzero size for the settle time.
pub open spec fn ready(e: Pending, seen: Seen, now: u64, settle: int) -> bool {
    &&& elapsed(now, e.since_ms) >= settle
    &&& seen.size matches Some(n)
    &&& n == e.size
    &&& n > 0
}

/// A followed file whose size moved restarts its settle time.
pub open spec fn refreshed(e: Pending, seen: Seen, now: u64) -> Pending {
    match seen.size {
        Some(n) => if n != e.size { Pending { path: e.path, since_ms: now, size: n } } else { e },
        None => e,
    }
}

/// The entries still followed after a tick: the ones that are neither ready
/// nor gone, each refreshed, in their order.
pub open spec fn kept_after(s: Seq<Pending>, seen: Seq<Seen>, now: u64, settle: int) -> Seq<Pending>
    decreases s.len(),
{
    if s.len() == 0 {
        Seq::empty()
    } else {
        let init = kept_after(s.drop_last(), seen.take(s.len() - 1), now, settle);
        let e = s.last();
        let o = seen[s.len() - 1];
        if ready(e, o, now, settle) || !o.exists {
            init
        } else {
            init.push(refreshed(e, o, now))
        }
    }
}

/// The paths handed over by a tick: the ready ones that Feather did not write
/// itself, in their order.
pub open spec fn handed_after(s: Seq<Pending>, seen: Seq<Seen>, now: u64, settle: int, log: Seq<crate::jobs::Produced>) -> Seq<Seq<char>>
    decreases s.len(),
{
    if s.len() == 0 {
        Seq::empty()
    } else {
        let init = handed_after(s.drop_last(), seen.take(s.len() - 1), now, settle, log);
        let e = s.last();
        if ready(e, seen[s.len() - 1], now, settle) && !records_path(log, e.path@) {
            init.push(e.path@)
        } else {
            init
        }
    }
}

/// Every path still followed after a tick was followed before it.
proof fn lemma_kept_paths(s: Seq<Pending>, seen: Seq<Seen>, now: u64, settle: int)
    requires
        seen.len() == s.len(),
    ensures
        forall|k: int| 0 <= k < kept_after(s, seen, now, settle).len() ==>
            exists|j: int| 0 <= j < s.len() && (#[trigger] kept_after(s, seen, now, settle)[k]).path@ == s[j].path@,
        kept_after(s, seen, now, settle).len() <= s.len(),
    decreases s.len(),
{
    if s.len() > 0 {
        let t = seen.take(s.len() - 1);
        lemma_kept_paths(s.drop_last(), t, now, settle);
        let init = kept_after(s.drop_last(), t, now, settle);
        let k_all = kept_after(s, seen, now, settle);
        assert forall|k: int| 0 <= k < k_all.len() implies
            exists|j: int| 0 <= j < s.len() && (#[trigger] k_all[k]).path@ == s[j].path@ by {
            if k < init.len() {
                assert(k_all[k] == init[k]);
                let j = choose|j: int| 0 <= j < s.drop_last().len() && init[k].path@ == s.drop_last()[j].path@;
                assert(s.drop_last()[j] == s[j]);
            } else {
                assert(k_all[k].path@ == s[s.len() - 1].path@);
            }
        }
    }
}

/// Following keeps the entries' paths distinct.
proof fn lemma_kept_distinct(s: Seq<Pending>, seen: Seq<Seen>, now: u64, settle: int)
    requires
        seen.len() == s.len(),
        distinct_paths(s),
    ensures
        distinct_paths(kept_after(s, seen, now, settle)),
    decreases s.len(),
{
    if s.len() > 0 {
        let t = seen.take(s.len() - 1);
        let d = s.drop_last();
        assert(distinct_paths(d)) by {
            assert forall|i: int, j: int| 0 <= i < j < d.len() implies (#[trigger] d[i]).path@ != (#[trigger] d[j]).path@ by {
                assert(d[i] == s[i]);
                assert(d[j] == s[j]);
            }
        }
        lemma_kept_distinct(d, t, now, settle);
        lemma_kept_paths(d, t, now, settle);
        let init = kept_after(d, t, now, settle);
        let k_all = kept_after(s, seen, now, settle);
        let last = s[s.len() - 1];
        assert forall|i: int, j: int| 0 <= i < j < k_all.len() implies (#[trigger] k_all[i]).path@ != (#[trigger] k_all[j]).path@ by {
            if j < init.len() {
                assert(k_all[i] == init[i]);
                assert(k_all[j] == init[j]);
            } else {
                assert(k_all[i] == init[i]);
                assert(k_all[j].path@ == last.path@);
                let w = choose|w: int| 0 <= w < d.len() && (#[trigger] init[i]).path@ == d[w].path@;
                assert(d[w] == s[w]);
            }
        }
    }
}

/// Every path handed over by a tick was followed before it.
proof fn lemma_handed_paths(s: Seq<Pending>, seen: Seq<Seen>, now: u64, settle: int, log: Seq<crate::jobs::Produced>)
    requires
        seen.len() == s.len(),
    ensures
        forall|k: int| 0 <= k < handed_after(s, seen, now, settle, log).len() ==>
            exists|j: int| 0 <= j < s.len() && #[trigger] handed_after(s, seen, now, settle, log)[k] == s[j].path@,
    decreases s.len(),
{
    if s.len() > 0 {
        let t = seen.take(s.len() - 1);
        lemma_handed_paths(s.drop_last(), t, now, settle, log);
        let init = handed_after(s.drop_last(), t, now, settle, log);
        let all = handed_after(s, seen, now, settle, log);
        assert forall|k: int| 0 <= k < all.len() implies
            exists|j: int| 0 <= j < s.len() && #[trigger] all[k] == s[j].path@ by {
            if k < init.len() {
                assert(all[k] == init[k]);
                let j = choose|j: int| 0 <= j < s.drop_last().len() && init[k] == s.drop_last()[j].path@;
                assert(s.drop_last()[j] == s[j]);
            } else {
                assert(all[k] == s[s.len() - 1].path@);
            }
        }
    }
}

/// A tick never hands over a file that the log records as written by Feather
/// itself: each path it hands over was followed, had kept a nonzero size for
/// the settle time, and is absent from the log.
pub proof fn law_handed_not_produced(s: Seq<Pending>, seen: Seq<Seen>, now: u64, settle: int, log: Seq<crate::jobs::Produced>)
    requires
        seen.len() == s.len(),
    ensures
        forall|k: int| 0 <= k < handed_after(s, seen, now, settle, log).len() ==> {
            let p = #[trigger] handed_after(s, seen, now, settle, log)[k];
            &&& !records_path(log, p)
            &&& exists|j: int| 0 <= j < s.len() && p == s[j].path@ && ready(s[j], seen[j], now, settle)
        },
    decreases s.len(),
{
    if s.len() > 0 {
        let t = seen.take(s.len() - 1);
        let d = s.drop_last();
        law_handed_not_produced(d, t, now, settle, log);
        let init = handed_after(d, t, now, settle, log);
        let all = handed_after(s, seen, now, settle, log);
        assert forall|k: int| 0 <= k < all.len() implies {
            &&& !records_path(log, #[trigger] all[k])
            &&& exists|j: int| 0 <= j < s.len() && all[k] == s[j].path@ && ready(s[j], seen[j], now, settle)
        } by {
            if k < init.len() {
                assert(all[k] == init[k]);
                let j = choose|j: int| 0 <= j < d.len() && init[k] == d[j].path@ && ready(d[j], t[j], now, settle);
                assert(d[j] == s[j]);
                assert(t[j] == seen[j]);
            } else {
                let j = s.len() - 1;
                assert(all[k] == s[j].path@);
                assert(ready(s[j], seen[j], now, settle));
            }
        }
    }
}

/// A file handed over by a tick is no longer followed after it.
pub proof fn law_handed_not_followed(s: Seq<Pending>, seen: Seq<Seen>, now: u64, settle: int, log: Seq<crate::jobs::Produced>)
    requires
        distinct_paths(s),
        seen.len() == s.len(),
    ensures
        forall|k: int, m: int|
            0 <= k < handed_after(s, seen, now, settle, log).len() && 0 <= m < kept_after(s, seen, now, settle).len()
                ==> #[trigger] handed_after(s, seen, now, settle, log)[k] != (#[trigger] kept_after(s, seen, now, settle)[m]).path@,
    decreases s.len(),
{
    if s.len() > 0 {
        let t = seen.take(s.len() - 1);
        let d = s.drop_last();
        assert(distinct_paths(d)) by {
            assert forall|i: int, j: int| 0 <= i < j < d.len() implies (#[trigger] d[i]).path@ != (#[trigger] d[j]).path@ by {
                assert(d[i] == s[i]);
                assert(d[j] == s[j]);
            }
        }
        law_handed_not_followed(d, t, now, settle, log);
        lemma_kept_paths(d, t, now, settle);
        lemma_handed_paths(d, t, now, settle, log);
        let hi = handed_after(d, t, now, settle, log);
        let ki = kept_after(d, t, now, settle);
        let ha = handed_after(s, seen, now, settle, log);
        let ka = kept_after(s, seen, now, settle);
        let last = s[s.len() - 1];
        assert forall|k: int, m: int| 0 <= k < ha.len() && 0 <= m < ka.len() implies #[trigger] ha[k] != (#[trigger] ka[m]).path@ by {
            if k < hi.len() && m < ki.len() {
                assert(ha[k] == hi[k]);
                assert(ka[m] == ki[m]);
            } else if k >= hi.len() {
                assert(ha[k] == last.path@);
                assert(ka[m] == ki[m]);
                let w = choose|w: int| 0 <= w < d.len() && (#[trigger] ki[m]).path@ == d[w].path@;
                assert(d[w] == s[w]);
            } else {
                assert(ha[k] == hi[k]);
                assert(ka[m].path@ == last.path@);
                let w = choose|w: int| 0 <= w < d.len() && #[trigger] hi[k] == d[w].path@;
                assert(d[w] == s[w]);
            }
        }
    }
}

proof fn lemma_position(s: Seq<Pending>, p: Seq<char>)
    ensures
        0 <= position(s, p) <= s.len(),
        position(s, p) < s.len() ==> s[position(s, p)].path@ == p,
        forall|k: int| 0 <= k < position(s, p) ==> (#[trigger] s[k]).path@ != p,
    decreases s.len(),
{
    if s.len() > 0 && s[0].path@ != p {
        lemma_position(s.drop_first(), p);
        assert forall|k: int| 0 <= k < position(s, p) implies (#[trigger] s[k]).path@ != p by {
            if k > 0 {
                assert(s[k] == s.drop_first()[k - 1]);
            }
        }
    }
}

/// The files being followed, each once.
pub struct WatchQueue {
    pub entries: Vec<Pending>,
    /// Every path that an event has admitted so far.
    pub admitted: Ghost<Set<Seq<char>>>,
}

impl WatchQueue {
    /// The queue's invariant: no path is followed twice, and each followed
    /// path was admitted by an event.
    pub open spec fn wf(&self) -> bool {
        &&& distinct_paths(self.entries@)
        &&& forall|i: int| 0 <= i < self.entries@.len() ==> self.admitted@.contains(#[trigger] self.entries@[i].path@)
    }

    /// An empty queue.
    pub fn new() -> (q: WatchQueue)
        ensures
            q.wf(),
            q.entries@ == Seq::<Pending>::empty(),
            q.admitted@ == Set::<Seq<char>>::empty(),
    {
        WatchQueue { entries: Vec::new(), admitted: Ghost(Set::empty()) }
    }

    fn find(&self, p: &str) -> (i: usize)
        ensures
            i == position(self.entries@, p@),
    {
        proof {
            lemma_position(self.entries@, p@);
        }
        let mut i: usize = 0;
        while i < self.entries.len()
            invariant
                i <= self.entries@.len(),
                forall|k: int| 0 <= k < i ==> (#[trigger] self.entries@[k]).path@ != p@,
                0 <= position(self.entries@, p@) <= self.entries@.len(),
                position(self.entries@, p@) < self.entries@.len() ==> self.entries@[position(self.entries@, p@)].path@ == p@,
                forall|k: int| 0 <= k < position(self.entries@, p@) ==> (#[trigger] self.entries@[k]).path@ != p@,
            decreases self.entries@.len() - i,
        {
            if text_eq(self.entries[i].path.as_str(), p) {
                return i;
            }
            i = i + 1;
        }
        i
    }

    /// Handles a create or modify event on `path`: where the rules admit it,
    /// the file is followed from `now_ms` at size `size` (replacing an earlier
    /// entry for the same path), and `true` is returned; otherwise nothing
    /// changes and `false` is returned.
    pub fn on_event(&mut self, rules: &WatchRules, log: &ProducedLog, path: String, is_file: bool, size: u64, now_ms: u64) -> (r: bool)
        requires
            old(self).wf(),
        ensures
            final(self).wf(),
            r == admits(*rules, path@, is_file, records_path(log.records@, path@)),
            r ==> final(self).entries@ == followed(old(self).entries@, Pending { path, since_ms: now_ms, size }),
            r ==> final(self).admitted@ == old(self).admitted@.insert(path@),
            !r ==> final(self).entries@ == old(self).entries@,
            !r ==> final(self).admitted@ == old(self).admitted@,
    {
        let name = match path_file_name(path.as_str()) {
            Some(n) => n,
            None => String::new(),
        };
        assert(name@ == event_name(path@));
        if starts_with(name.as_str(), ".") || !is_file {
            return false;
        }
        if !allowed(rules, kind_from_ext(path.as_str())) {
            return false;
        }
        if ends_with(name.as_str(), ".crdownload") || ends_with(name.as_str(), ".part") || ends_with(name.as_str(), ".download") {
            return false;
        }
        if log.was_produced(path.as_str()) {
            return false;
        }
        let i = self.find(path.as_str());
        let ghost before = self.entries@;
        let ghost e = Pending { path, since_ms: now_ms, size };
        proof {
            lemma_position(before, path@);
            self.admitted@ = self.admitted@.insert(path@);
        }
        if i < self.entries.len() {
            self.entries.set(i, Pending { path, since_ms: now_ms, size });
            assert(self.entries@ == before.update(i as int, e));
            assert forall|a: int, b: int| 0 <= a < b < self.entries@.len() implies
                (#[trigger] self.entries@[a]).path@ != (#[trigger] self.entries@[b]).path@ by {
                if a == i {
                    assert(before[b].path@ != before[i as int].path@);
                } else if b == i {
                    assert(before[a].path@ != before[i as int].path@);
                }
            }
        } else {
            self.entries.push(Pending { path, since_ms: now_ms, size });
            assert(self.entries@ == before.push(e));
            assert forall|a: int, b: int| 0 <= a < b < self.entries@.len() implies
                (#[trigger] self.entries@[a]).path@ != (#[trigger] self.entries@[b]).path@ by {
                if b == before.len() {
                    assert(before[a].path@ != e.path@);
                }
            }
        }
        true
    }

    /// Handles the periodic tick at `now_ms`, given what was observed of each
    /// followed file (`seen[i]` for the `i`-th entry). Files that kept a
    /// nonzero size for the settle time leave the queue and, unless Feather
    /// wrote them itself, are returned for compression; files that are gone
    /// leave the queue; files whose size moved restart their settle time.
    pub fn on_tick(&mut self, rules: &WatchRules, log: &ProducedLog, seen: &Vec<Seen>, now_ms: u64) -> (handed: Vec<String>)
        requires
            old(self).wf(),
            seen@.len() == old(self).entries@.len(),
        ensures
            final(self).wf(),
            final(self).entries@ == kept_after(old(self).entries@, seen@, now_ms, settle_ms(*rules)),
            texts(handed@) == handed_after(old(self).entries@, seen@, now_ms, settle_ms(*rules), log.records@),
            final(self).admitted@ == old(self).admitted@,
            forall|k: int| 0 <= k < handed@.len() ==> old(self).admitted@.contains(#[trigger] handed@[k]@),
    {
        let settle: u64 = if rules.settle_secs >= 1 { rules.settle_secs as u64 * 1000 } else { 1000 };
        assert(settle == settle_ms(*rules));
        let ghost s = self.entries@;
        let mut kept: Vec<Pending> = Vec::new();
        let mut handed: Vec<String> = Vec::new();
        let mut i: usize = 0;
        while i < self.entries.len()
            invariant
                s == self.entries@,
                seen@.len() == s.len(),
                i <= s.len(),
                settle == settle_ms(*rules),
                kept@ == kept_after(s.take(i as int), seen@.take(i as int), now_ms, settle as int),
                texts(handed@) == handed_after(s.take(i as int), seen@.take(i as int), now_ms, settle as int, log.records@),
            decreases s.len() - i,
        {
            let e = &self.entries[i];
            let o = seen[i];
            proof {
                assert(s.take(i + 1).drop_last() =~= s.take(i as int));
                assert(seen@.take(i + 1).take(i as int) =~= seen@.take(i as int));
                assert(s.take(i + 1).last() == s[i as int]);
                assert(seen@.take(i + 1)[i as int] == seen@[i as int]);
            }
            let el: u64 = if now_ms >= e.since_ms { now_ms - e.since_ms } else { 0 };
            let is_ready = el >= settle && match o.size {
                Some(n) => n == e.size && n > 0,
                None => false,
            };
            if is_ready {
                if !log.was_produced(e.path.as_str()) {
                    let ghost before = handed@;
                    handed.push(e.path.clone());
                    assert(texts(handed@) =~= texts(before).push(e.path@));
                }
            } else if o.exists {
                let r = match o.size {
                    Some(n) => if n != e.size {
                        Pending { path: e.path.clone(), since_ms: now_ms, size: n }
                    } else {
                        Pending { path: e.path.clone(), since_ms: e.since_ms, size: e.size }
                    },
                    None => Pending { path: e.path.clone(), since_ms: e.since_ms, size: e.size },
                };
                assert(r.path@ == e.path@);
                kept.push(r);
                assert(kept@.last() == refreshed(s[i as int], o, now_ms));
            }
            i = i + 1;
        }
        proof {
            assert(s.take(s.len() as int) =~= s);
            assert(seen@.take(s.len() as int) =~= seen@);
            lemma_kept_distinct(s, seen@, now_ms, settle as int);
            lemma_kept_paths(s, seen@, now_ms, settle as int);
            law_handed_not_produced(s, seen@, now_ms, settle as int, log.records@);
            let ka = kept_after(s, seen@, now_ms, settle as int);
            let ha = handed_after(s, seen@, now_ms, settle as int, log.records@);
            assert forall|i: int| 0 <= i < kept@.len() implies self.admitted@.contains(#[trigger] kept@[i].path@) by {
                assert(kept@[i] == ka[i]);
                let j = choose|j: int| 0 <= j < s.len() && ka[i].path@ == s[j].path@;
                assert(self.admitted@.contains(s[j].path@));
            }
            assert forall|k: int| 0 <= k < handed@.len() implies self.admitted@.contains(#[trigger] handed@[k]@) by {
                assert(texts(handed@)[k] == handed@[k]@);
                assert(ha[k] == handed@[k]@);
                let j = choose|j: int| 0 <= j < s.len() && ha[k] == s[j].path@ && ready(s[j], seen@[j], now_ms, settle as int);
                assert(self.admitted@.contains(s[j].path@));
            }
        }
        self.entries = kept;
        handed
    }
}

} // verus!
