//! The preview pipeline: previews, the bounded caches that hold them, and the
//! non-blocking scheduler that decides when a background job may run.
//!
//! The scheduler itself never blocks and never runs a subprocess: `preview`
//! answers every poll at once and says whether a background job should be
//! started; `try_preview` takes that job's outcome and folds it back into the
//! state. The caller runs the loop and the subprocess in between.

use vstd::prelude::*;
use vstd::string::StringExecFns;
use crate::channel::PreviewCommand;
use crate::entry::Entry;
use crate::formatter::{format_ok, spec_format, format_command};
use crate::ringset::RingSet;
use crate::strings::{bytes_to_string_lossy, str_chars, utf8_lossy};

verus! {

pub const PREVIEW_NOT_SUPPORTED_MSG: &'static str =
    "Preview for this file type is not supported";

pub const FILE_TOO_LARGE_MSG: &'static str = "File too large";

/// How many background preview jobs may run at once.
pub const MAX_CONCURRENT_PREVIEW_TASKS: u8 = 3;

/// Default capacity of the raw preview cache.
pub const DEFAULT_PREVIEW_CACHE_SIZE: usize = 100;

/// Default capacity of the rendered preview cache.
pub const DEFAULT_RENDERED_PREVIEW_CACHE_SIZE: usize = 25;

/// What a preview shows.
#[derive(Debug)]
pub enum PreviewContent {
    Empty,
    FileTooLarge,
    Loading,
    NotSupported,
    /// Raw command output, to be run through the ANSI parser when drawn.
    AnsiText(String),
}

/// The mathematical value of a `PreviewContent`.
pub enum PreviewContentModel {
    Empty,
    FileTooLarge,
    Loading,
    NotSupported,
    AnsiText(Seq<char>),
}

impl View for PreviewContent {
    type V = PreviewContentModel;

    open spec fn view(&self) -> PreviewContentModel {
        match self {
            PreviewContent::Empty => PreviewContentModel::Empty,
            PreviewContent::FileTooLarge => PreviewContentModel::FileTooLarge,
            PreviewContent::Loading => PreviewContentModel::Loading,
            PreviewContent::NotSupported => PreviewContentModel::NotSupported,
            PreviewContent::AnsiText(s) => PreviewContentModel::AnsiText(s@),
        }
    }
}

impl PreviewContent {
    /// An equal copy of the content.
    pub fn duplicate(&self) -> (r: Self)
        ensures
            r@ == self@,
    {
        match self {
            PreviewContent::Empty => PreviewContent::Empty,
            PreviewContent::FileTooLarge => PreviewContent::FileTooLarge,
            PreviewContent::Loading => PreviewContent::Loading,
            PreviewContent::NotSupported => PreviewContent::NotSupported,
            PreviewContent::AnsiText(s) => PreviewContent::AnsiText(s.clone()),
        }
    }
}

/// One computed preview: what the pane shows for one entry.
#[derive(Debug)]
pub struct Preview {
    pub title: String,
    pub content: PreviewContent,
    pub icon: Option<devicons::FileIcon>,
    /// A stale preview is known to be superseded by a still-running
    /// recomputation but safe to display meanwhile.
    pub stale: bool,
}

/// The mathematical value of a `Preview`.
pub struct PreviewModel {
    pub title: Seq<char>,
    pub content: PreviewContentModel,
    pub icon: Option<devicons::FileIcon>,
    pub stale: bool,
}

impl View for Preview {
    type V = PreviewModel;

    open spec fn view(&self) -> PreviewModel {
        PreviewModel { title: self.title@, content: self.content@, icon: self.icon, stale: self.stale }
    }
}

impl Default for Preview {
    /// An empty, non-stale preview.
    fn default() -> (r: Self)
        ensures
            r@ == (PreviewModel {
                title: Seq::<char>::empty(),
                content: PreviewContentModel::Empty,
                icon: None,
                stale: false,
            }),
    {
        Preview { title: String::new(), content: PreviewContent::Empty, icon: None, stale: false }
    }
}

/// The number of lines `str::lines` sees in `s`: one per text line, a
/// trailing newline opening no further line.
pub open spec fn line_count(s: Seq<char>) -> int {
    if s.len() == 0 {
        0
    } else {
        count_char(s.take(s.len() - 1), '\n') + 1
    }
}

/// How many times `c` occurs in `s`.
pub open spec fn count_char(s: Seq<char>, c: char) -> int
    decreases s.len(),
{
    if s.len() == 0 {
        0
    } else {
        count_char(s.drop_last(), c) + if s.last() == c {
            1int
        } else {
            0int
        }
    }
}

impl Preview {
    pub fn new(title: String, content: PreviewContent, icon: Option<devicons::FileIcon>, stale: bool) -> (r: Self)
        ensures
            r@ == (PreviewModel { title: title@, content: content@, icon, stale }),
    {
        Preview { title, content, icon, stale }
    }

    /// An equal copy of the preview.
    pub fn duplicate(&self) -> (r: Self)
        ensures
            r@ == self@,
    {
        Preview {
            title: self.title.clone(),
            content: self.content.duplicate(),
            icon: match &self.icon {
                Some(i) => Some(*i),
                None => None,
            },
            stale: self.stale,
        }
    }

    /// The same preview, marked stale.
    pub fn stale(&self) -> (r: Self)
        ensures
            r@ == (PreviewModel { stale: true, ..self@ }),
    {
        let mut r = self.duplicate();
        r.stale = true;
        r
    }

    /// The number of lines of an `AnsiText` preview (saturating at `u16::MAX`);
    /// zero for every other content.
    pub fn total_lines(&self) -> (r: u16)
        ensures
            (self.content@ matches PreviewContentModel::AnsiText(t) ==> r == if line_count(t)
                > u16::MAX as int {
                u16::MAX as int
            } else {
                line_count(t)
            }),
            !(self.content@ is AnsiText) ==> r == 0,
    {
        match &self.content {
            PreviewContent::AnsiText(text) => {
                let chars = str_chars(text.as_str());
                let n = chars.len();
                if n == 0 {
                    return 0;
                }
                let mut cnt: usize = 0;
                let ghost t = text@;
                proof {
                    assert(t.take(0) =~= Seq::<char>::empty());
                }
                for i in 0..(n - 1)
                    invariant
                        n == t.len(),
                        n >= 1,
                        chars@ == t,
                        cnt <= i,
                        cnt == count_char(t.take(i as int), '\n'),
                {
                    if chars[i] == '\n' {
                        cnt = cnt + 1;
                    }
                    proof {
                        assert(t.take(i + 1).drop_last() =~= t.take(i as int));
                        assert(t.take(i + 1).last() == t[i as int]);
                    }
                }
                let lines = cnt + 1;
                if lines > 65535 {
                    65535u16
                } else {
                    lines as u16
                }
            },
            _ => 0,
        }
    }
}

/// A preview that says the file type cannot be previewed.
pub fn not_supported(title: &str) -> (r: Preview)
    ensures
        r@ == (PreviewModel {
            title: title@,
            content: PreviewContentModel::NotSupported,
            icon: None,
            stale: false,
        }),
{
    Preview::new(title.to_owned(), PreviewContent::NotSupported, None, false)
}

/// A preview that says the file is too large to preview.
pub fn file_too_large(title: &str) -> (r: Preview)
    ensures
        r@ == (PreviewModel {
            title: title@,
            content: PreviewContentModel::FileTooLarge,
            icon: None,
            stale: false,
        }),
{
    Preview::new(title.to_owned(), PreviewContent::FileTooLarge, None, false)
}

/// A preview that says the real one is still being computed.
pub fn loading(title: &str) -> (r: Preview)
    ensures
        r@ == (PreviewModel {
            title: title@,
            content: PreviewContentModel::Loading,
            icon: None,
            stale: false,
        }),
{
    Preview::new(title.to_owned(), PreviewContent::Loading, None, false)
}

/// The mathematical value of a `PreviewCache`: its key-value pairs in
/// insertion order, and its capacity.
pub struct CacheModel {
    pub entries: Seq<(Seq<char>, PreviewModel)>,
    pub cap: int,
}

/// How many pairs the cache may hold: its capacity, except that a capacity of
/// zero still admits one pair (inserting first evicts, then stores).
pub open spec fn cache_bound(cap: int) -> int {
    if cap == 0 {
        1int
    } else {
        cap
    }
}

/// The value stored under `k`, scanning from the most recent pair.
pub open spec fn cache_lookup<V>(m: Seq<(Seq<char>, V)>, k: Seq<char>) -> Option<V>
    decreases m.len(),
{
    if m.len() == 0 {
        None
    } else if m.last().0 == k {
        Some(m.last().1)
    } else {
        cache_lookup(m.drop_last(), k)
    }
}

pub open spec fn cache_contains<V>(m: Seq<(Seq<char>, V)>, k: Seq<char>) -> bool {
    cache_lookup(m, k) is Some
}

/// The pairs with the value under `k` replaced, positions kept.
pub open spec fn cache_update<V>(m: Seq<(Seq<char>, V)>, k: Seq<char>, v: V) -> Seq<
    (Seq<char>, V),
>
    decreases m.len(),
{
    if m.len() == 0 {
        m
    } else if m.last().0 == k {
        m.drop_last().push((k, v))
    } else {
        cache_update(m.drop_last(), k, v).push(m.last())
    }
}

/// No two pairs share a key.
pub open spec fn cache_distinct<V>(m: Seq<(Seq<char>, V)>) -> bool {
    forall|i: int, j: int| 0 <= i < j < m.len() ==> m[i].0 != m[j].0
}

/// What inserting does to a cache: overwrite in place when the key is known;
/// append when there is room; otherwise evict the oldest pair and append.
pub open spec fn cache_insert(m: CacheModel, k: Seq<char>, v: PreviewModel) -> CacheModel {
    if cache_contains(m.entries, k) {
        CacheModel { entries: cache_update(m.entries, k, v), cap: m.cap }
    } else if m.entries.len() < cache_bound(m.cap) {
        CacheModel { entries: m.entries.push((k, v)), cap: m.cap }
    } else {
        CacheModel { entries: m.entries.drop_first().push((k, v)), cap: m.cap }
    }
}

/// A bounded key-to-preview store: a map of at most `capacity` previews,
/// whose eviction order is kept by a ring-set of the same keys.
#[derive(Debug)]
pub struct PreviewCache {
    entries: Vec<(String, Preview)>,
    ring_set: RingSet<String>,
}

impl View for PreviewCache {
    type V = CacheModel;

    closed spec fn view(&self) -> CacheModel {
        CacheModel {
            entries: self.entries@.map_values(|p: (String, Preview)| (p.0@, p.1@)),
            cap: self.ring_set.spec_capacity() as int,
        }
    }
}

impl PreviewCache {
    /// The keys of the ring mirror the keys of the map, in order.
    pub closed spec fn aligned(&self) -> bool {
        &&& self.ring_set.wf()
        &&& self.ring_set.keys() == self.entries@.map_values(|p: (String, Preview)| p.0@)
    }

    /// Well-formed: keys are unique and the size stays within the capacity.
    pub open spec fn wf(&self) -> bool {
        &&& cache_distinct(self@.entries)
        &&& self@.entries.len() <= cache_bound(self@.cap)
        &&& self.aligned()
    }

    /// An empty cache that will hold at most `capacity` previews.
    pub fn new(capacity: usize) -> (r: Self)
        ensures
            r.wf(),
            r@.entries == Seq::<(Seq<char>, PreviewModel)>::empty(),
            r@.cap == capacity as int,
    {
        let r = PreviewCache { entries: Vec::new(), ring_set: RingSet::with_capacity(capacity) };
        proof {
            assert(r@.entries =~= Seq::<(Seq<char>, PreviewModel)>::empty());
            assert(r.ring_set.keys() =~= r.entries@.map_values(|p: (String, Preview)| p.0@));
        }
        r
    }

    /// The preview stored under `key`, if any.
    pub fn get(&self, key: &String) -> (r: Option<Preview>)
        requires
            self.wf(),
        ensures
            (r matches Some(p) ==> cache_lookup(self@.entries, key@) == Some(p@)),
            r is None ==> cache_lookup(self@.entries, key@) is None,
    {
        let n = self.entries.len();
        let mut i: usize = n;
        proof {
            assert(self@.entries.take(n as int) =~= self@.entries);
        }
        while i > 0
            invariant
                n == self.entries@.len(),
                i <= n,
                self@.entries.len() == n,
                cache_lookup(self@.entries, key@) == cache_lookup(
                    self@.entries.take(i as int),
                    key@,
                ),
            decreases i,
        {
            i = i - 1;
            if self.entries[i].0.eq(key) {
                let p = self.entries[i].1.duplicate();
                proof {
                    assert(self@.entries.take(i + 1).last() == self@.entries[i as int]);
                    assert(self@.entries[i as int].0 == key@);
                }
                return Some(p);
            }
            proof {
                assert(self@.entries.take(i + 1).last() == self@.entries[i as int]);
                assert(self@.entries.take(i + 1).drop_last() =~= self@.entries.take(i as int));
            }
        }
        proof {
            assert(self@.entries.take(0) =~= Seq::<(Seq<char>, PreviewModel)>::empty());
        }
        None
    }

    /// Store `preview` under `key`: overwrite an existing pair in place, or
    /// append, evicting the oldest pair once the cache is full.
    pub fn insert(&mut self, key: String, preview: &Preview)
        requires
            old(self).wf(),
        ensures
            final(self).wf(),
            final(self)@ == cache_insert(old(self)@, key@, preview@),
    {
        let ghost m0 = self@.entries;
        let n = self.entries.len();
        // overwrite in place when the key is already present
        for i in 0..n
            invariant
                n == self.entries@.len(),
                self.wf(),
                self@ == old(self)@,
                m0 == self@.entries,
                m0.len() == n as int,
                forall|j: int| 0 <= j < i ==> self@.entries[j].0 != key@,
        {
            if self.entries[i].0.eq(&key) {
                proof {
                    assert(m0.len() == n as int);
                    assert(m0[i as int].0 == key@);
                    assert(cache_distinct(m0));
                    lemma_contains_at(m0, key@, i as int);
                    lemma_update_at(m0, key@, preview@, i as int);
                }
                let dup = preview.duplicate();
                self.entries[i] = (key, dup);
                proof {
                    assert(self@.entries =~= m0.update(i as int, (key@, preview@)));
                    assert(self.ring_set.keys() =~= self.entries@.map_values(
                        |p: (String, Preview)| p.0@,
                    ));
                }
                return ;
            }
        }
        proof {
            assert(m0.len() == n as int);
            lemma_no_key_no_contains(m0, key@);
        }
        // append, letting the ring evict the oldest key when full
        let dup = preview.duplicate();
        let ring_key = key.clone();
        self.entries.push((key, dup));
        proof {
            assert(self.entries@.map_values(|p: (String, Preview)| p.0@) =~= self.ring_set.keys()
                .push(ring_key@));
            assert(self@.entries =~= m0.push((ring_key@, preview@)));
            assert(!self.ring_set.keys().contains(ring_key@)) by {
                if self.ring_set.keys().contains(ring_key@) {
                    let idx = choose|idx: int|
                        0 <= idx < self.ring_set.keys().len() && self.ring_set.keys()[idx]
                            == ring_key@;
                    assert(m0[idx].0 == key@);
                }
            }
        }
        let evicted = self.ring_set.push(ring_key);
        match evicted {
            Some(_oldest) => {
                let ghost m1 = self@.entries;
                let _ = self.entries.remove(0);
                proof {
                    assert(self@.entries =~= m1.drop_first());
                    assert(self@.entries =~= m0.drop_first().push((key@, preview@)));
                    assert(self.ring_set.keys() =~= self.entries@.map_values(
                        |p: (String, Preview)| p.0@,
                    ));
                }
            },
            None => {
                proof {
                    assert(self.ring_set.keys() =~= self.entries@.map_values(
                        |p: (String, Preview)| p.0@,
                    ));
                }
            },
        }
    }
}

/// A bounded key-to-value store for rendered previews: the same map plus
/// ring-set shape as `PreviewCache`, holding whatever the rendering layer
/// caches (the values are carried, never inspected).
pub struct RenderedPreviewCache<V> {
    previews: Vec<(String, V)>,
    ring_set: RingSet<String>,
}

impl<V> RenderedPreviewCache<V> {
    /// The key-value pairs held, in insertion order.
    pub closed spec fn entries(&self) -> Seq<(Seq<char>, V)> {
        self.previews@.map_values(|p: (String, V)| (p.0@, p.1))
    }

    pub closed spec fn spec_capacity(&self) -> usize {
        self.ring_set.spec_capacity()
    }

    /// The keys of the ring mirror the keys of the map, in order.
    pub closed spec fn aligned(&self) -> bool {
        &&& self.ring_set.wf()
        &&& self.ring_set.keys() == self.previews@.map_values(|p: (String, V)| p.0@)
    }

    /// Well-formed: keys are unique and the size stays within the capacity.
    pub open spec fn wf(&self) -> bool {
        &&& cache_distinct(self.entries())
        &&& self.entries().len() <= cache_bound(self.spec_capacity() as int)
        &&& self.aligned()
    }

    /// An empty cache that will hold at most `capacity` values.
    pub fn new(capacity: usize) -> (r: Self)
        ensures
            r.wf(),
            r.entries() == Seq::<(Seq<char>, V)>::empty(),
            r.spec_capacity() == capacity,
    {
        let r = RenderedPreviewCache {
            previews: Vec::new(),
            ring_set: RingSet::with_capacity(capacity),
        };
        proof {
            assert(r.entries() =~= Seq::<(Seq<char>, V)>::empty());
            assert(r.ring_set.keys() =~= r.previews@.map_values(|p: (String, V)| p.0@));
        }
        r
    }

    /// The value stored under `key`, if any.
    pub fn get(&self, key: &String) -> (r: Option<&V>)
        requires
            self.wf(),
        ensures
            (r matches Some(v) ==> cache_lookup(self.entries(), key@) == Some(*v)),
            r is None ==> cache_lookup(self.entries(), key@) is None,
    {
        let n = self.previews.len();
        let mut i: usize = n;
        proof {
            assert(self.entries().take(n as int) =~= self.entries());
        }
        while i > 0
            invariant
                n == self.previews@.len(),
                i <= n,
                self.entries().len() == n,
                cache_lookup(self.entries(), key@) == cache_lookup(
                    self.entries().take(i as int),
                    key@,
                ),
            decreases i,
        {
            i = i - 1;
            if self.previews[i].0.eq(key) {
                proof {
                    assert(self.entries().take(i + 1).last() == self.entries()[i as int]);
                    assert(self.entries()[i as int].0 == key@);
                }
                return Some(&self.previews[i].1);
            }
            proof {
                assert(self.entries().take(i + 1).last() == self.entries()[i as int]);
                assert(self.entries().take(i + 1).drop_last() =~= self.entries().take(i as int));
            }
        }
        proof {
            assert(self.entries().take(0) =~= Seq::<(Seq<char>, V)>::empty());
        }
        None
    }

    /// Store `preview` under `key`: overwrite an existing pair in place, or
    /// append, evicting the oldest pair once the cache is full.
    pub fn insert(&mut self, key: String, preview: V)
        requires
            old(self).wf(),
        ensures
            final(self).wf(),
            final(self).spec_capacity() == old(self).spec_capacity(),
            cache_contains(old(self).entries(), key@) ==> final(self).entries() == cache_update(
                old(self).entries(),
                key@,
                preview,
            ),
            !cache_contains(old(self).entries(), key@) && old(self).entries().len() < cache_bound(
                old(self).spec_capacity() as int,
            ) ==> final(self).entries() == old(self).entries().push((key@, preview)),
            !cache_contains(old(self).entries(), key@) && old(self).entries().len() >= cache_bound(
                old(self).spec_capacity() as int,
            ) ==> final(self).entries() == old(self).entries().drop_first().push((key@, preview)),
    {
        let ghost m0 = self.entries();
        let n = self.previews.len();
        // overwrite in place when the key is already present
        for i in 0..n
            invariant
                n == self.previews@.len(),
                self.wf(),
                self.entries() == old(self).entries(),
                self.spec_capacity() == old(self).spec_capacity(),
                self.aligned(),
                m0 == self.entries(),
                m0.len() == n as int,
                forall|j: int| 0 <= j < i ==> self.entries()[j].0 != key@,
        {
            if self.previews[i].0.eq(&key) {
                proof {
                    assert(m0[i as int].0 == key@);
                    assert(cache_distinct(m0));
                    lemma_contains_at(m0, key@, i as int);
                    lemma_update_at(m0, key@, preview, i as int);
                }
                self.previews[i] = (key, preview);
                proof {
                    assert(self.entries() =~= m0.update(i as int, (key@, preview)));
                    assert(self.ring_set.keys() =~= self.previews@.map_values(
                        |p: (String, V)| p.0@,
                    ));
                }
                return ;
            }
        }
        proof {
            assert(m0.len() == n as int);
            lemma_no_key_no_contains(m0, key@);
        }
        // append, letting the ring evict the oldest key when full
        let ring_key = key.clone();
        self.previews.push((key, preview));
        proof {
            assert(self.previews@.map_values(|p: (String, V)| p.0@) =~= self.ring_set.keys().push(
                ring_key@,
            ));
            assert(self.entries() =~= m0.push((ring_key@, preview)));
            assert(!self.ring_set.keys().contains(ring_key@)) by {
                if self.ring_set.keys().contains(ring_key@) {
                    let idx = choose|idx: int|
                        0 <= idx < self.ring_set.keys().len() && self.ring_set.keys()[idx]
                            == ring_key@;
                    assert(m0[idx].0 == key@);
                }
            }
        }
        let evicted = self.ring_set.push(ring_key);
        match evicted {
            Some(_oldest) => {
                let ghost m1 = self.entries();
                let _ = self.previews.remove(0);
                proof {
                    assert(self.entries() =~= m1.drop_first());
                    assert(self.entries() =~= m0.drop_first().push((key@, preview)));
                    assert(self.ring_set.keys() =~= self.previews@.map_values(
                        |p: (String, V)| p.0@,
                    ));
                }
            },
            None => {
                proof {
                    assert(self.ring_set.keys() =~= self.previews@.map_values(
                        |p: (String, V)| p.0@,
                    ));
                }
            },
        }
    }
}

/// Configuration of the command previewer: the delimiter handed to the
/// formatter when a channel names none of its own.
#[derive(Debug, Clone)]
pub struct CommandPreviewerConfig {
    pub delimiter: String,
}

impl CommandPreviewerConfig {
    pub fn new(delimiter: &str) -> (r: Self)
        ensures
            r.delimiter@ == delimiter@,
    {
        CommandPreviewerConfig { delimiter: delimiter.to_owned() }
    }
}

impl Default for CommandPreviewerConfig {
    /// The stock configuration: fields split on a colon.
    fn default() -> (r: Self)
        ensures
            r.delimiter@ == ":"@,
    {
        CommandPreviewerConfig { delimiter: ":".to_owned() }
    }
}

/// The mathematical state of a `Previewer`.
pub struct PreviewerModel {
    pub cache: CacheModel,
    pub tasks: int,
    pub last: PreviewModel,
    pub in_flight: Seq<Seq<char>>,
}

/// The key previews are cached under: the entry's name followed by the
/// command template.
pub open spec fn spec_cache_key(name: Seq<char>, template: Seq<char>) -> Seq<char> {
    name + template
}

fn cache_key(entry: &Entry, command: &PreviewCommand) -> (r: String)
    ensures
        r@ == spec_cache_key(entry.name@, command.command@),
{
    let mut k = entry.name.clone();
    k.append(command.command.as_str());
    k
}

/// A previewer state within bounds: the job counter stays in
/// `[0, MAX_CONCURRENT_PREVIEW_TASKS]`, cache keys are unique and bounded,
/// and no entry has more than one outstanding job.
pub open spec fn state_wf(s: PreviewerModel) -> bool {
    &&& 0 <= s.tasks <= MAX_CONCURRENT_PREVIEW_TASKS as int
    &&& cache_distinct(s.cache.entries)
    &&& s.cache.entries.len() <= cache_bound(s.cache.cap)
    &&& forall|i: int, j: int|
        0 <= i < j < s.in_flight.len() ==> s.in_flight[i] != s.in_flight[j]
}

/// What one non-blocking poll decides, given the current state and the
/// entry's name and command template: the state afterwards, the preview to
/// show at once, and whether a background job is to be started.
///
/// A cached preview is returned as is; an entry whose job is still in flight,
/// or a poll past the concurrency budget, gets the last known preview and no
/// new job; otherwise the job is admitted: the entry becomes in-flight and
/// the counter rises.
pub open spec fn preview_step(s: PreviewerModel, name: Seq<char>, template: Seq<char>) -> (
    PreviewerModel,
    PreviewModel,
    bool,
) {
    let key = spec_cache_key(name, template);
    if cache_contains(s.cache.entries, key) {
        (s, cache_lookup(s.cache.entries, key)->Some_0, false)
    } else if s.in_flight.contains(name) {
        (s, s.last, false)
    } else if s.tasks < MAX_CONCURRENT_PREVIEW_TASKS as int {
        (
            PreviewerModel {
                cache: s.cache,
                tasks: s.tasks + 1,
                last: s.last,
                in_flight: s.in_flight.push(name),
            },
            s.last,
            true,
        )
    } else {
        (s, s.last, false)
    }
}

/// The preview a successful run yields: the decoded standard output under
/// the entry's name.
pub open spec fn success_preview(name: Seq<char>, stdout: Seq<u8>) -> PreviewModel {
    PreviewModel {
        title: name,
        content: PreviewContentModel::AnsiText(utf8_lossy(stdout)),
        icon: None,
        stale: false,
    }
}

/// The preview a failed run yields: an inline error message around the
/// decoded standard error.
pub open spec fn failure_preview(name: Seq<char>, formatted: Seq<char>, stderr: Seq<u8>) -> PreviewModel {
    PreviewModel {
        title: name,
        content: PreviewContentModel::AnsiText(
            "error running command: "@ + formatted + "\n"@ + utf8_lossy(stderr),
        ),
        icon: None,
        stale: false,
    }
}

/// The first occurrence of `k` removed from `s`.
pub open spec fn remove_name(s: Seq<Seq<char>>, k: Seq<char>) -> Seq<Seq<char>>
    decreases s.len(),
{
    if s.len() == 0 {
        s
    } else if s[0] == k {
        s.drop_first()
    } else {
        seq![s[0]] + remove_name(s.drop_first(), k)
    }
}

/// What a finished background job does to the state. Whatever came of the
/// job, the entry stops being in flight and the counter falls (never below
/// zero). A job that had nothing to format changes nothing else. A
/// successful run caches the decoded output under the entry's key and leaves
/// a stale copy as the last known preview; a failed run caches an inline
/// error preview and leaves the last known preview alone.
pub open spec fn job_step(
    s: PreviewerModel,
    name: Seq<char>,
    template: Seq<char>,
    formatted: Option<Seq<char>>,
    success: bool,
    stdout: Seq<u8>,
    stderr: Seq<u8>,
) -> PreviewerModel {
    let key = spec_cache_key(name, template);
    let tasks2 = if s.tasks > 0 {
        s.tasks - 1
    } else {
        0int
    };
    let in_flight2 = remove_name(s.in_flight, name);
    match formatted {
        None => PreviewerModel { cache: s.cache, tasks: tasks2, last: s.last, in_flight: in_flight2 },
        Some(f) => {
            if success {
                let p = success_preview(name, stdout);
                PreviewerModel {
                    cache: cache_insert(s.cache, key, p),
                    tasks: tasks2,
                    last: PreviewModel { stale: true, ..p },
                    in_flight: in_flight2,
                }
            } else {
                PreviewerModel {
                    cache: cache_insert(s.cache, key, failure_preview(name, f, stderr)),
                    tasks: tasks2,
                    last: s.last,
                    in_flight: in_flight2,
                }
            }
        },
    }
}

/// What running the formatted command through the shell produced.
pub struct ShellOutput {
    pub status_success: bool,
    pub stdout: Vec<u8>,
    pub stderr: Vec<u8>,
}

/// The non-blocking preview scheduler: a bounded cache of computed previews,
/// the set of entries whose jobs are still running, the count of running
/// jobs, and the last preview worth showing while a fresh one is computed.
#[derive(Debug)]
pub struct Previewer {
    cache: PreviewCache,
    concurrent_preview_tasks: u8,
    last_previewed: Preview,
    in_flight_previews: Vec<String>,
}

impl View for Previewer {
    type V = PreviewerModel;

    closed spec fn view(&self) -> PreviewerModel {
        PreviewerModel {
            cache: self.cache@,
            tasks: self.concurrent_preview_tasks as int,
            last: self.last_previewed@,
            in_flight: self.in_flight_previews@.map_values(|s: String| s@),
        }
    }
}

impl Previewer {
    /// The cache's own well-formedness (its internal alignment included).
    pub closed spec fn cache_ok(&self) -> bool {
        self.cache.wf()
    }

    pub open spec fn wf(&self) -> bool {
        &&& state_wf(self@)
        &&& self.cache_ok()
    }

    /// A fresh previewer: empty cache of the default size, no jobs, and a
    /// stale empty preview as the placeholder.
    pub fn new() -> (r: Self)
        ensures
            r.wf(),
            r@.cache.entries == Seq::<(Seq<char>, PreviewModel)>::empty(),
            r@.cache.cap == DEFAULT_PREVIEW_CACHE_SIZE as int,
            r@.tasks == 0,
            r@.in_flight == Seq::<Seq<char>>::empty(),
            r@.last == (PreviewModel {
                title: Seq::<char>::empty(),
                content: PreviewContentModel::Empty,
                icon: None,
                stale: true,
            }),
    {
        let r = Previewer {
            cache: PreviewCache::new(DEFAULT_PREVIEW_CACHE_SIZE),
            concurrent_preview_tasks: 0,
            last_previewed: Preview::default().stale(),
            in_flight_previews: Vec::new(),
        };
        proof {
            assert(r@.in_flight =~= Seq::<Seq<char>>::empty());
        }
        r
    }

    fn in_flight_contains(&self, name: &String) -> (r: bool)
        ensures
            r == self@.in_flight.contains(name@),
    {
        let n = self.in_flight_previews.len();
        for i in 0..n
            invariant
                n == self.in_flight_previews@.len(),
                forall|j: int| 0 <= j < i ==> self@.in_flight[j] != name@,
        {
            if self.in_flight_previews[i].eq(name) {
                assert(self@.in_flight[i as int] == name@);
                return true;
            }
        }
        false
    }

    fn remove_in_flight(&mut self, name: &String)
        ensures
            final(self)@ == (PreviewerModel {
                in_flight: remove_name(old(self)@.in_flight, name@),
                ..old(self)@
            }),
            old(self).cache_ok() ==> final(self).cache_ok(),
    {
        let ghost full = self@.in_flight;
        proof {
            assert(full.take(0) =~= Seq::<Seq<char>>::empty());
            assert(full.skip(0) =~= full);
            assert(full.take(0) + remove_name(full.skip(0), name@) =~= remove_name(full, name@));
        }
        let n = self.in_flight_previews.len();
        for i in 0..n
            invariant
                n == self.in_flight_previews@.len(),
                self@ == old(self)@,
                self.cache == old(self).cache,
                full == self@.in_flight,
                forall|j: int| 0 <= j < i ==> full[j] != name@,
                remove_name(full, name@) == full.take(i as int) + remove_name(
                    full.skip(i as int),
                    name@,
                ),
        {
            proof {
                assert(full.skip(i as int)[0] == full[i as int]);
            }
            if self.in_flight_previews[i].eq(name) {
                self.in_flight_previews.remove(i);
                proof {
                    assert(full.skip(i as int).drop_first() =~= full.skip(i + 1));
                    assert(self@.in_flight =~= full.take(i as int) + full.skip(i + 1));
                    assert(self@.in_flight =~= remove_name(full, name@));
                    assert(self.cache == old(self).cache);
                }
                return ;
            }
            proof {
                assert(full.skip(i as int).drop_first() =~= full.skip(i + 1));
                assert(full.take(i + 1) =~= full.take(i as int).push(full[i as int]));
                assert(full.take(i as int) + (seq![full[i as int]] + remove_name(
                    full.skip(i + 1),
                    name@,
                )) =~= full.take(i + 1) + remove_name(full.skip(i + 1), name@));
            }
        }
        proof {
            assert(full.skip(n as int) =~= Seq::<Seq<char>>::empty());
            assert(full.take(n as int) + remove_name(full.skip(n as int), name@) =~= full);
        }
    }

    /// Poll the preview for `entry` under `command`. Never blocks: the
    /// returned preview is usable at once, and the flag says whether the
    /// caller is to start one background job for this entry now (see
    /// `preview_step` for the exact decision).
    pub fn preview(&mut self, entry: &Entry, command: &PreviewCommand) -> (r: (Preview, bool))
        requires
            old(self).wf(),
        ensures
            final(self).wf(),
            ({
                let (s2, shown, spawn) = preview_step(old(self)@, entry.name@, command.command@);
                final(self)@ == s2 && r.0@ == shown && r.1 == spawn
            }),
    {
        let key = cache_key(entry, command);
        match self.cache.get(&key) {
            Some(p) => {
                return (p, false);
            },
            None => {},
        }
        if self.in_flight_contains(&entry.name) {
            return (self.last_previewed.duplicate(), false);
        }
        if self.concurrent_preview_tasks < MAX_CONCURRENT_PREVIEW_TASKS {
            self.concurrent_preview_tasks = self.concurrent_preview_tasks + 1;
            let ghost pre = self@.in_flight;
            self.in_flight_previews.push(entry.name.clone());
            proof {
                assert(self@.in_flight =~= pre.push(entry.name@));
            }
            return (self.last_previewed.duplicate(), true);
        }
        (self.last_previewed.duplicate(), false)
    }
}

/// Fold a finished background job for `entry` back into the previewer: cache
/// what the job produced, then release the entry and the counter (see
/// `job_step` for the exact effect). `output` is what the shell run of the
/// formatted command produced; a job whose command formatted to nothing ran
/// no shell and passes `None`.
pub fn try_preview(
    previewer: &mut Previewer,
    command: &PreviewCommand,
    entry: &Entry,
    output: Option<&ShellOutput>,
)
    requires
        old(previewer).wf(),
        format_ok(command.command@, command.delimiter@, entry.name@),
        output is Some <==> spec_format(command.command@, command.delimiter@, entry.name@)
            is Some,
    ensures
        final(previewer).wf(),
        (output matches Some(o) ==> final(previewer)@ == job_step(
            old(previewer)@,
            entry.name@,
            command.command@,
            spec_format(command.command@, command.delimiter@, entry.name@),
            o.status_success,
            o.stdout@,
            o.stderr@,
        )),
        (output is None ==> final(previewer)@ == job_step(
            old(previewer)@,
            entry.name@,
            command.command@,
            None,
            true,
            Seq::<u8>::empty(),
            Seq::<u8>::empty(),
        )),
{
    let formatted = format_command(&command.command, &command.delimiter, entry);
    match (formatted, output) {
        (Some(f), Some(out)) => {
            let key = cache_key(entry, command);
            if out.status_success {
                let content = bytes_to_string_lossy(out.stdout.as_slice());
                let preview = Preview::new(
                    entry.name.clone(),
                    PreviewContent::AnsiText(content),
                    None,
                    false,
                );
                previewer.cache.insert(key, &preview);
                previewer.last_previewed = preview.stale();
            } else {
                let mut msg = "error running command: ".to_owned();
                msg.append(f.as_str());
                msg.append("\n");
                let err = bytes_to_string_lossy(out.stderr.as_slice());
                msg.append(err.as_str());
                let preview = Preview::new(
                    entry.name.clone(),
                    PreviewContent::AnsiText(msg),
                    None,
                    false,
                );
                previewer.cache.insert(key, &preview);
            }
        },
        (None, None) => {},
        _ => {
            proof {
                assert(false);
            }
        },
    }
    previewer.remove_in_flight(&entry.name);
    if previewer.concurrent_preview_tasks > 0 {
        previewer.concurrent_preview_tasks = previewer.concurrent_preview_tasks - 1;
    }
    proof {
        lemma_remove_name_distinct(old(previewer)@.in_flight, entry.name@);
    }
}

/// Removing a name keeps the remaining names distinct and never grows the
/// set.
proof fn lemma_remove_name_distinct(s: Seq<Seq<char>>, k: Seq<char>)
    requires
        forall|i: int, j: int| 0 <= i < j < s.len() ==> s[i] != s[j],
    ensures
        forall|i: int, j: int|
            0 <= i < j < remove_name(s, k).len() ==> remove_name(s, k)[i] != remove_name(s, k)[j],
        remove_name(s, k).len() <= s.len(),
        forall|i: int|
            0 <= i < remove_name(s, k).len() ==> s.contains(#[trigger] remove_name(s, k)[i]),
    decreases s.len(),
{
    if s.len() > 0 && s[0] != k {
        let rest = s.drop_first();
        lemma_remove_name_distinct(rest, k);
        assert forall|i: int|
            0 <= i < remove_name(s, k).len() implies s.contains(
            #[trigger] remove_name(s, k)[i],
        ) by {
            if i > 0 {
                assert(rest.contains(remove_name(rest, k)[i - 1]));
            }
        }
        assert forall|i: int, j: int|
            0 <= i < j < remove_name(s, k).len() implies remove_name(s, k)[i] != remove_name(
            s,
            k,
        )[j] by {
            if i > 0 {
            } else {
                assert(rest.contains(remove_name(rest, k)[j - 1]));
            }
        }
    }
}

/// Law: a poll never pushes the number of running jobs over the bound, and a
/// poll made with the budget exhausted starts nothing and changes nothing:
/// the extra request is dropped, not queued.
pub proof fn lemma_concurrency_bounded(s: PreviewerModel, name: Seq<char>, template: Seq<char>)
    requires
        0 <= s.tasks <= MAX_CONCURRENT_PREVIEW_TASKS as int,
    ensures
        0 <= preview_step(s, name, template).0.tasks <= MAX_CONCURRENT_PREVIEW_TASKS as int,
        s.tasks == MAX_CONCURRENT_PREVIEW_TASKS as int ==> !preview_step(s, name, template).2
            && preview_step(s, name, template).0 == s,
{
}

/// Law: a poll that starts a background job guards its entry. A second poll
/// for the same entry and command, made before that job finishes, starts no
/// second job and leaves the state untouched, returning the last known
/// preview: at most one subprocess ever runs per entry.
pub proof fn lemma_in_flight_deduplicates(s: PreviewerModel, name: Seq<char>, template: Seq<char>)
    requires
        preview_step(s, name, template).2,
    ensures
        ({
            let s1 = preview_step(s, name, template).0;
            let (s2, shown, spawn) = preview_step(s1, name, template);
            &&& !spawn
            &&& s2 == s1
            &&& shown == s1.last
        }),
{
    let s1 = preview_step(s, name, template).0;
    assert(s1.in_flight[s.in_flight.len() as int] == name);
    assert(s1.in_flight.contains(name));
}

/// Inserting previews under `keys.take(k)` (distinct, within capacity) into
/// an empty cache stores them pairwise, in order.
proof fn lemma_cache_fill(keys: Seq<Seq<char>>, vals: Seq<PreviewModel>, cap: int, k: int)
    requires
        cap >= 1,
        keys.len() == vals.len(),
        forall|i: int, j: int| 0 <= i < j < keys.len() ==> keys[i] != keys[j],
        0 <= k <= keys.len(),
        k <= cap,
    ensures
        insert_seq(CacheModel { entries: Seq::empty(), cap }, keys.take(k), vals.take(k)).entries
            =~= Seq::new(k as nat, |i: int| (keys[i], vals[i])),
        insert_seq(CacheModel { entries: Seq::empty(), cap }, keys.take(k), vals.take(k)).cap
            == cap,
    decreases k,
{
    if k > 0 {
        lemma_cache_fill(keys, vals, cap, k - 1);
        let prev = insert_seq(
            CacheModel { entries: Seq::empty(), cap },
            keys.take(k - 1),
            vals.take(k - 1),
        );
        assert(keys.take(k).drop_last() =~= keys.take(k - 1));
        assert(vals.take(k).drop_last() =~= vals.take(k - 1));
        assert(forall|j: int| 0 <= j < prev.entries.len() ==> prev.entries[j].0 != keys[k - 1]);
        lemma_no_key_no_contains(prev.entries, keys[k - 1]);
        assert(insert_seq(CacheModel { entries: Seq::empty(), cap }, keys.take(k), vals.take(k))
            == cache_insert(prev, keys[k - 1], vals[k - 1]));
        assert(prev.entries.push((keys[k - 1], vals[k - 1])) =~= Seq::new(
            k as nat,
            |i: int| (keys[i], vals[i]),
        ));
    } else {
        assert(keys.take(0) =~= Seq::<Seq<char>>::empty());
        assert(vals.take(0) =~= Seq::<PreviewModel>::empty());
    }
}

/// The cache after inserting previews under each of the keys in turn,
/// starting from `m`.
pub open spec fn insert_seq(m: CacheModel, keys: Seq<Seq<char>>, vals: Seq<PreviewModel>) -> CacheModel
    decreases keys.len(),
{
    if keys.len() == 0 || keys.len() != vals.len() {
        m
    } else {
        cache_insert(insert_seq(m, keys.drop_last(), vals.drop_last()), keys.last(), vals.last())
    }
}

/// Law: a cache of capacity `cap`, fed `cap + 1` previews under distinct
/// keys, holds exactly `cap` of them: every key but the first is still
/// retrievable, and the first-inserted key is the one no longer retrievable.
pub proof fn lemma_cache_eviction(keys: Seq<Seq<char>>, vals: Seq<PreviewModel>, cap: int)
    requires
        cap >= 1,
        keys.len() == cap + 1,
        vals.len() == cap + 1,
        forall|i: int, j: int| 0 <= i < j < keys.len() ==> keys[i] != keys[j],
    ensures
        ({
            let m = insert_seq(CacheModel { entries: Seq::empty(), cap }, keys, vals);
            &&& m.entries.len() == cap
            &&& !cache_contains(m.entries, keys[0])
            &&& forall|i: int| 1 <= i <= cap ==> cache_contains(m.entries, #[trigger] keys[i])
        }),
{
    lemma_cache_fill(keys, vals, cap, cap);
    let full = insert_seq(CacheModel { entries: Seq::empty(), cap }, keys.take(cap), vals.take(cap));
    assert(keys.drop_last() =~= keys.take(cap));
    assert(vals.drop_last() =~= vals.take(cap));
    let m = insert_seq(CacheModel { entries: Seq::empty(), cap }, keys, vals);
    assert(m == cache_insert(full, keys[cap], vals[cap]));
    assert(forall|j: int| 0 <= j < full.entries.len() ==> full.entries[j].0 != keys[cap]);
    lemma_no_key_no_contains(full.entries, keys[cap]);
    assert(m.entries =~= full.entries.drop_first().push((keys[cap], vals[cap])));
    assert(forall|j: int| 0 <= j < m.entries.len() ==> m.entries[j].0 == keys[j + 1]);
    lemma_no_key_no_contains(m.entries, keys[0]);
    assert forall|i: int| 1 <= i <= cap implies cache_contains(m.entries, #[trigger] keys[i]) by {
        lemma_contains_at(m.entries, keys[i], i - 1);
    }
}

/// A pair at index `i` makes the lookup find its value... or at least makes
/// the key present.
proof fn lemma_contains_at<V>(m: Seq<(Seq<char>, V)>, k: Seq<char>, i: int)
    requires
        0 <= i < m.len(),
        m[i].0 == k,
    ensures
        cache_contains(m, k),
    decreases m.len(),
{
    if i == m.len() - 1 {
    } else {
        if m.last().0 != k {
            lemma_contains_at(m.drop_last(), k, i);
        }
    }
}

/// When no pair carries the key, the lookup finds nothing.
proof fn lemma_no_key_no_contains<V>(m: Seq<(Seq<char>, V)>, k: Seq<char>)
    requires
        forall|j: int| 0 <= j < m.len() ==> m[j].0 != k,
    ensures
        !cache_contains(m, k),
    decreases m.len(),
{
    if m.len() > 0 {
        lemma_no_key_no_contains(m.drop_last(), k);
    }
}

/// With unique keys, updating the key at index `i` is a pointwise update.
proof fn lemma_update_at<V>(m: Seq<(Seq<char>, V)>, k: Seq<char>, v: V, i: int)
    requires
        cache_distinct(m),
        0 <= i < m.len(),
        m[i].0 == k,
    ensures
        cache_update(m, k, v) == m.update(i, (k, v)),
    decreases m.len(),
{
    if i == m.len() - 1 {
        assert(cache_update(m, k, v) =~= m.update(i, (k, v)));
    } else {
        assert(m.last().0 != k);
        lemma_update_at(m.drop_last(), k, v, i);
        assert(m.drop_last().update(i, (k, v)).push(m.last()) =~= m.update(i, (k, v)));
    }
}

} // verus!
