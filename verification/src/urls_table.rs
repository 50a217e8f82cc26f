//! The resolution table: the lazily populated mapping from canonical URLs
//! to filesystem paths and cached content. The table itself never touches
//! the filesystem or the clock; callers stat and scan directories and hand
//! the results in as plain values, and every operation on the table is a
//! pure function of those values.
use vstd::prelude::*;
use vstd::string::StrSliceExecFns;
use vstd::string::StringExecFns;

verus! {

use crate::utils::str_eq;
use crate::utils::spec_join;
use crate::utils::spec_parent_of;
use crate::utils::spec_trim_leading_slashes;
use crate::utils::spec_trim_trailing_slashes;
use crate::utils::lemma_trim_leading_at;
use crate::utils::lemma_trim_trailing_at;
use crate::utils::join_path;
use crate::utils::parent_of;
use crate::common::ChildView;
use crate::common::DirChild;
use crate::common::child_views;
use crate::common::lemma_child_url_of_root;
use crate::common::spec_fs_path_to_url;
use crate::common::spec_listing_page;

/// Time is handed to the table as a plain number of seconds; the caller
/// picks the clock and the epoch.
pub type Seconds = u64;

/// The cache time-to-live used when the caller does not configure one.
pub const DEFAULT_CACHE_EXPIRATION_TIME: u64 = 60;

/// Elapsed time between a creation instant and `now`, saturating at zero
/// when `now` lies before `created_at`.
pub open spec fn spec_elapsed(created_at: u64, now: u64) -> int {
    if now >= created_at {
        now - created_at
    } else {
        0
    }
}

/// Cached response bytes with their content type and an expiry clock.
pub struct EntryCache {
    pub content: Vec<u8>,
    pub content_type: String,
    created_time: u64,
    expiration_time: u64,
}

/// The mathematical image of an [`EntryCache`].
pub struct EntryCacheView {
    pub content: Seq<u8>,
    pub content_type: Seq<char>,
    pub created_time: u64,
    pub expiration_time: u64,
}

impl EntryCacheView {
    /// A cache is expired once the elapsed time reaches its time-to-live.
    pub open spec fn is_expired_at(self, now: u64) -> bool {
        spec_elapsed(self.created_time, now) >= self.expiration_time
    }
}

impl View for EntryCache {
    type V = EntryCacheView;

    closed spec fn view(&self) -> EntryCacheView {
        EntryCacheView {
            content: self.content@,
            content_type: self.content_type@,
            created_time: self.created_time,
            expiration_time: self.expiration_time,
        }
    }
}

impl EntryCache {
    /// A cache created at `now` holding `content` under `content_type`,
    /// expiring `expiration_time` seconds later.
    pub fn new(content: Vec<u8>, content_type: String, expiration_time: u64, now: u64) -> (r:
        EntryCache)
        ensures
            r@ == (EntryCacheView {
                content: content@,
                content_type: content_type@,
                created_time: now,
                expiration_time,
            }),
    {
        EntryCache { content, content_type, created_time: now, expiration_time }
    }

    /// Has the time-to-live elapsed at `now`?
    pub fn is_expired(&self, now: u64) -> (r: bool)
        ensures
            r == self@.is_expired_at(now),
    {
        let elapsed = if now >= self.created_time {
            now - self.created_time
        } else {
            0
        };
        elapsed >= self.expiration_time
    }
}

/// A cache is never expired at the instant it was created (for a non-zero
/// time-to-live) and always expired once the elapsed time reaches the
/// time-to-live.
pub proof fn lemma_cache_expiry(c: EntryCacheView, now: u64)
    ensures
        c.expiration_time > 0 ==> !c.is_expired_at(c.created_time),
        spec_elapsed(c.created_time, now) >= c.expiration_time ==> c.is_expired_at(now),
{
}

/// One table record: the filesystem path a canonical URL resolves to,
/// whether that path was a directory when it was discovered, and the
/// optional cached response.
pub struct UrlEntry {
    pub fs_path: String,
    pub is_dir: bool,
    pub cache: Option<EntryCache>,
}

/// The mathematical image of a [`UrlEntry`].
pub struct UrlEntryView {
    pub fs_path: Seq<char>,
    pub is_dir: bool,
    pub cache: Option<EntryCacheView>,
}

impl View for UrlEntry {
    type V = UrlEntryView;

    open spec fn view(&self) -> UrlEntryView {
        UrlEntryView {
            fs_path: self.fs_path@,
            is_dir: self.is_dir,
            cache: match self.cache {
                Option::Some(c) => Option::Some(c@),
                Option::None => Option::None,
            },
        }
    }
}

impl UrlEntryView {
    /// An entry can be served without touching the filesystem: it is
    /// file-backed, or it carries an unexpired cache.
    pub open spec fn is_fresh_at(self, now: u64) -> bool {
        !self.is_dir || (match self.cache {
            Option::Some(c) => !c.is_expired_at(now),
            Option::None => false,
        })
    }
}

impl UrlEntry {
    /// An entry for `fs_path`, recorded as a directory or a file, with an
    /// optional pre-rendered cache.
    pub fn new(fs_path: String, is_dir: bool, cache: Option<EntryCache>) -> (r: UrlEntry)
        ensures
            r@ == (UrlEntryView {
                fs_path: fs_path@,
                is_dir,
                cache: match cache {
                    Option::Some(c) => Option::Some(c@),
                    Option::None => Option::None,
                },
            }),
    {
        UrlEntry { fs_path, is_dir, cache }
    }
}

/// What a caller's stat of a filesystem path reported.
pub enum PathKind {
    Missing,
    File,
    Dir,
}

/// What the table asks of its caller before an entry can be served: nothing
/// (`UpToDate`), a rescan of a known directory, a stat of a not yet known
/// path, or nothing because the URL tries to climb out of the root.
pub enum UpdateStep {
    UpToDate,
    Rescan { dir: String },
    Probe { fs_path: String },
    Reject,
}

/// The map denoted by an association list, later pairs shadowing earlier
/// ones (the table keeps its keys unique, so no shadowing ever happens).
pub open spec fn assoc_map(s: Seq<(String, UrlEntry)>) -> Map<Seq<char>, UrlEntryView>
    decreases s.len(),
{
    if s.len() == 0 {
        Map::empty()
    } else {
        assoc_map(s.drop_last()).insert(s.last().0@, s.last().1@)
    }
}

/// No two pairs bind the same key.
pub open spec fn keys_unique(s: Seq<(String, UrlEntry)>) -> bool {
    forall|i: int, j: int| 0 <= i < j < s.len() ==> s[i].0@ != s[j].0@
}

/// A key is in the denoted map exactly when some pair binds it.
pub proof fn lemma_assoc_contains(s: Seq<(String, UrlEntry)>, k: Seq<char>)
    ensures
        assoc_map(s).dom().contains(k) <==> exists|i: int| 0 <= i < s.len() && s[i].0@ == k,
    decreases s.len(),
{
    if s.len() > 0 {
        lemma_assoc_contains(s.drop_last(), k);
        if assoc_map(s).dom().contains(k) {
            if s.last().0@ != k {
                let i = choose|i: int| 0 <= i < s.drop_last().len() && s.drop_last()[i].0@ == k;
                assert(s[i].0@ == k);
            }
        }
        if exists|i: int| 0 <= i < s.len() && s[i].0@ == k {
            let i = choose|i: int| 0 <= i < s.len() && s[i].0@ == k;
            if i < s.len() - 1 {
                assert(s.drop_last()[i].0@ == k);
            }
        }
    }
}

/// With unique keys, the pair at any index gives the map's value there.
pub proof fn lemma_assoc_get(s: Seq<(String, UrlEntry)>, i: int)
    requires
        keys_unique(s),
        0 <= i < s.len(),
    ensures
        assoc_map(s).dom().contains(s[i].0@),
        assoc_map(s)[s[i].0@] == s[i].1@,
    decreases s.len(),
{
    if i < s.len() - 1 {
        assert(s.drop_last()[i] == s[i]);
        lemma_assoc_get(s.drop_last(), i);
        assert(s[i].0@ != s.last().0@);
    }
}

/// With unique keys, rebinding the pair at an index that already binds the
/// same key denotes a plain map insert.
pub proof fn lemma_assoc_update(s: Seq<(String, UrlEntry)>, i: int, p: (String, UrlEntry))
    requires
        keys_unique(s),
        0 <= i < s.len(),
        s[i].0@ == p.0@,
    ensures
        keys_unique(s.update(i, p)),
        assoc_map(s.update(i, p)) == assoc_map(s).insert(p.0@, p.1@),
    decreases s.len(),
{
    let su = s.update(i, p);
    assert(forall|a: int, b: int| 0 <= a < b < su.len() ==> su[a].0@ != su[b].0@) by {
        assert(forall|a: int| 0 <= a < su.len() ==> su[a].0@ == s[a].0@);
    }
    if i == s.len() - 1 {
        assert(su.drop_last() =~= s.drop_last());
        assert(assoc_map(s.drop_last()).insert(s.last().0@, s.last().1@).insert(p.0@, p.1@)
            =~= assoc_map(s.drop_last()).insert(p.0@, p.1@));
    } else {
        assert(su.drop_last() =~= s.drop_last().update(i, p));
        lemma_assoc_update(s.drop_last(), i, p);
        assert(s.last().0@ != p.0@);
        assert(assoc_map(s.drop_last()).insert(p.0@, p.1@).insert(s.last().0@, s.last().1@)
            =~= assoc_map(s.drop_last()).insert(s.last().0@, s.last().1@).insert(p.0@, p.1@));
    }
}

/// The root path in canonical form: trailing slashes dropped, `/` kept for
/// the filesystem root itself.
pub open spec fn spec_canon_root(r: Seq<char>) -> Seq<char> {
    let t = spec_trim_trailing_slashes(r);
    if t.len() == 0 {
        seq!['/']
    } else {
        t
    }
}

/// The relative portion of a URL: its leading and trailing slashes gone.
pub open spec fn spec_url_rel(u: Seq<char>) -> Seq<char> {
    spec_trim_trailing_slashes(spec_trim_leading_slashes(u))
}

/// The filesystem path a URL falls back to when the table does not know
/// it: the root joined with the URL's relative portion.
pub open spec fn spec_url_to_fs_path(root: Seq<char>, u: Seq<char>) -> Seq<char> {
    let rel = spec_url_rel(u);
    if rel.len() == 0 {
        root
    } else {
        spec_join(root, rel)
    }
}

/// A `..` path segment starts at index `i` of `u`.
pub open spec fn spec_escape_at(u: Seq<char>, i: int) -> bool {
    &&& 0 <= i
    &&& i + 2 <= u.len()
    &&& u[i] == '.'
    &&& u[i + 1] == '.'
    &&& (i == 0 || u[i - 1] == '/')
    &&& (i + 2 == u.len() || u[i + 2] == '/')
}

/// The URL holds a `..` segment, so resolving it under the root could
/// escape the root; such a URL is rejected as not found.
pub open spec fn spec_url_escapes(u: Seq<char>) -> bool {
    exists|i: int| spec_escape_at(u, i)
}

/// Does `url` hold a `..` path segment?
pub fn url_escapes(url: &str) -> (r: bool)
    ensures
        r == spec_url_escapes(url@),
{
    let len = url.unicode_len();
    if len < 2 {
        proof {
            assert(forall|k: int| !spec_escape_at(url@, k));
        }
        return false;
    }
    let mut i: usize = 0;
    while i + 1 < len
        invariant
            len >= 2,
            len == url@.len(),
            i + 1 <= len,
            forall|k: int| 0 <= k < i ==> !spec_escape_at(url@, k),
        decreases len - i,
    {
        if url.get_char(i) == '.' && url.get_char(i + 1) == '.' {
            let left_ok = i == 0 || url.get_char(i - 1) == '/';
            let right_ok = i + 2 == len || url.get_char(i + 2) == '/';
            if left_ok && right_ok {
                proof {
                    assert(spec_escape_at(url@, i as int));
                }
                return true;
            }
        }
        i += 1;
    }
    proof {
        assert(forall|k: int| !spec_escape_at(url@, k)) by {
            assert(forall|k: int| #[trigger] spec_escape_at(url@, k) ==> 0 <= k < i);
        }
    }
    false
}

/// Is `e` the entry of `dir` itself, or of something directly inside it?
pub open spec fn covers(e: UrlEntryView, dir: Seq<char>) -> bool {
    e.fs_path == dir || spec_parent_of(e.fs_path) == dir
}

/// `m` with every entry of `dir` and of its immediate children removed.
pub open spec fn purge(m: Map<Seq<char>, UrlEntryView>, dir: Seq<char>) -> Map<
    Seq<char>,
    UrlEntryView,
> {
    Map::new(|k: Seq<char>| m.dom().contains(k) && !covers(m[k], dir), |k: Seq<char>| m[k])
}

/// The URL a just-scanned child of `dir` is served under.
pub open spec fn child_url(root: Seq<char>, dir: Seq<char>, c: ChildView) -> Seq<char> {
    spec_fs_path_to_url(root, spec_join(dir, c.name), c.is_dir)
}

/// The fresh, uncached entry a just-scanned child of `dir` gets.
pub open spec fn child_entry(dir: Seq<char>, c: ChildView) -> UrlEntryView {
    UrlEntryView { fs_path: spec_join(dir, c.name), is_dir: c.is_dir, cache: Option::None }
}

/// Insert the children of `dir` left to right, never displacing an entry
/// already present.
pub open spec fn insert_children(
    m: Map<Seq<char>, UrlEntryView>,
    root: Seq<char>,
    dir: Seq<char>,
    cs: Seq<ChildView>,
) -> Map<Seq<char>, UrlEntryView>
    decreases cs.len(),
{
    if cs.len() == 0 {
        m
    } else {
        let u = child_url(root, dir, cs[0]);
        let m1 = if m.dom().contains(u) {
            m
        } else {
            m.insert(u, child_entry(dir, cs[0]))
        };
        insert_children(m1, root, dir, cs.drop_first())
    }
}

/// `insert_children` peels one child off the right end.
pub proof fn lemma_insert_children_snoc(
    m: Map<Seq<char>, UrlEntryView>,
    root: Seq<char>,
    dir: Seq<char>,
    cs: Seq<ChildView>,
    c: ChildView,
)
    ensures
        insert_children(m, root, dir, cs.push(c)) == ({
            let m1 = insert_children(m, root, dir, cs);
            let u = child_url(root, dir, c);
            if m1.dom().contains(u) {
                m1
            } else {
                m1.insert(u, child_entry(dir, c))
            }
        }),
    decreases cs.len(),
{
    reveal_with_fuel(insert_children, 3);
    if cs.len() == 0 {
        assert(cs.push(c)[0] == c);
        assert(cs.push(c).drop_first() =~= Seq::<ChildView>::empty());
    } else {
        assert(cs.push(c)[0] == cs[0]);
        assert(cs.push(c).drop_first() =~= cs.drop_first().push(c));
        let u0 = child_url(root, dir, cs[0]);
        let m1 = if m.dom().contains(u0) {
            m
        } else {
            m.insert(u0, child_entry(dir, cs[0]))
        };
        lemma_insert_children_snoc(m1, root, dir, cs.drop_first(), c);
    }
}

/// Some child is named `index.html`, so the directory needs no listing.
pub open spec fn has_index_child(cs: Seq<ChildView>) -> bool {
    exists|i: int| 0 <= i < cs.len() && cs[i].name == "index.html"@
}

/// `has_index_child` over one more child.
pub proof fn lemma_has_index_push(cs: Seq<ChildView>, c: ChildView)
    ensures
        has_index_child(cs.push(c)) == (has_index_child(cs) || c.name == "index.html"@),
{
    let cs1 = cs.push(c);
    if has_index_child(cs1) {
        let w = choose|w: int| 0 <= w < cs1.len() && cs1[w].name == "index.html"@;
        if w < cs.len() {
            assert(cs[w].name == "index.html"@);
        }
    }
    if has_index_child(cs) {
        let w = choose|w: int| 0 <= w < cs.len() && cs[w].name == "index.html"@;
        assert(cs1[w].name == "index.html"@);
    }
    if c.name == "index.html"@ {
        assert(cs1[cs.len() as int].name == "index.html"@);
    }
}

/// The cache a directory without an index file gets at scan time: the
/// rendered listing of exactly the scanned children.
pub open spec fn listing_cache(
    root: Seq<char>,
    dir: Seq<char>,
    cs: Seq<ChildView>,
    ttl: u64,
    now: u64,
) -> EntryCacheView {
    EntryCacheView {
        content: vstd::utf8::encode_utf8(
            spec_listing_page(root, dir, spec_fs_path_to_url(root, dir, true), cs),
        ),
        content_type: "Content-Type: text/html"@,
        created_time: now,
        expiration_time: ttl,
    }
}

/// One repopulation pass over `dir`: the old entries of `dir` and its
/// immediate children are dropped, every scanned child is inserted, and,
/// when no child is named `index.html`, the directory's own URL gets a
/// freshly rendered listing cache.
pub open spec fn scan_result(
    m: Map<Seq<char>, UrlEntryView>,
    root: Seq<char>,
    ttl: u64,
    dir: Seq<char>,
    cs: Seq<ChildView>,
    now: u64,
) -> Map<Seq<char>, UrlEntryView> {
    let m1 = insert_children(purge(m, dir), root, dir, cs);
    if has_index_child(cs) {
        m1
    } else {
        m1.insert(
            spec_fs_path_to_url(root, dir, true),
            UrlEntryView {
                fs_path: dir,
                is_dir: true,
                cache: Option::Some(listing_cache(root, dir, cs, ttl, now)),
            },
        )
    }
}

/// After a repopulation pass over a directory none of whose children is
/// named `index.html`, the directory's own URL carries a cached listing
/// rendered from exactly the scanned children.
pub proof fn lemma_scan_caches_listing(
    m: Map<Seq<char>, UrlEntryView>,
    root: Seq<char>,
    ttl: u64,
    dir: Seq<char>,
    cs: Seq<ChildView>,
    now: u64,
)
    requires
        !has_index_child(cs),
    ensures
        ({
            let r = scan_result(m, root, ttl, dir, cs, now);
            let du = spec_fs_path_to_url(root, dir, true);
            &&& r.dom().contains(du)
            &&& r[du].fs_path == dir
            &&& r[du].is_dir
            &&& r[du].cache == Option::Some(listing_cache(root, dir, cs, ttl, now))
        }),
{
}

/// `insert_children` never displaces an existing binding.
pub proof fn lemma_insert_children_preserves(
    m: Map<Seq<char>, UrlEntryView>,
    root: Seq<char>,
    dir: Seq<char>,
    cs: Seq<ChildView>,
    u: Seq<char>,
)
    requires
        m.dom().contains(u),
    ensures
        insert_children(m, root, dir, cs).dom().contains(u),
        insert_children(m, root, dir, cs)[u] == m[u],
    decreases cs.len(),
{
    if cs.len() > 0 {
        let u0 = child_url(root, dir, cs[0]);
        let m1 = if m.dom().contains(u0) {
            m
        } else {
            m.insert(u0, child_entry(dir, cs[0]))
        };
        lemma_insert_children_preserves(m1, root, dir, cs.drop_first(), u);
    }
}

/// `insert_children` binds a child's URL to that child's fresh entry when
/// the base map does not hold the URL and no earlier child claims it.
proof fn lemma_insert_children_binds(
    m: Map<Seq<char>, UrlEntryView>,
    root: Seq<char>,
    dir: Seq<char>,
    cs: Seq<ChildView>,
    i: int,
)
    requires
        0 <= i < cs.len(),
        !m.dom().contains(child_url(root, dir, cs[i])),
        forall|j: int|
            0 <= j < i ==> child_url(root, dir, cs[j]) != child_url(root, dir, cs[i]),
    ensures
        insert_children(m, root, dir, cs).dom().contains(child_url(root, dir, cs[i])),
        insert_children(m, root, dir, cs)[child_url(root, dir, cs[i])] == child_entry(dir, cs[i]),
    decreases cs.len(),
{
    let u = child_url(root, dir, cs[i]);
    let u0 = child_url(root, dir, cs[0]);
    let m1 = if m.dom().contains(u0) {
        m
    } else {
        m.insert(u0, child_entry(dir, cs[0]))
    };
    if i == 0 {
        lemma_insert_children_preserves(m1, root, dir, cs.drop_first(), u);
    } else {
        assert(forall|j: int|
            0 <= j < i - 1 ==> cs.drop_first()[j] == cs[j + 1]);
        assert(cs.drop_first()[i - 1] == cs[i]);
        lemma_insert_children_binds(m1, root, dir, cs.drop_first(), i - 1);
    }
}

/// A scanned child's URL resolves to an entry backed by exactly that
/// child's filesystem path, provided nothing else claims the same URL: no
/// surviving older entry, no earlier sibling, and — unless some child is an
/// index file — not the directory's own listing URL.
pub proof fn lemma_scan_resolves_child(
    m: Map<Seq<char>, UrlEntryView>,
    root: Seq<char>,
    ttl: u64,
    dir: Seq<char>,
    cs: Seq<ChildView>,
    now: u64,
    i: int,
)
    requires
        0 <= i < cs.len(),
        !purge(m, dir).dom().contains(child_url(root, dir, cs[i])),
        forall|j: int|
            0 <= j < i ==> child_url(root, dir, cs[j]) != child_url(root, dir, cs[i]),
        !has_index_child(cs) ==> child_url(root, dir, cs[i]) != spec_fs_path_to_url(
            root,
            dir,
            true,
        ),
    ensures
        ({
            let r = scan_result(m, root, ttl, dir, cs, now);
            let u = child_url(root, dir, cs[i]);
            &&& r.dom().contains(u)
            &&& r[u] == child_entry(dir, cs[i])
            &&& r[u].fs_path == spec_join(dir, cs[i].name)
        }),
{
    lemma_insert_children_binds(purge(m, dir), root, dir, cs, i);
}

/// The URL of a root child named `index.html`: the index segment is
/// dropped, so a file claims the root URL itself.
proof fn lemma_index_child_url_of_root(root: Seq<char>, c: ChildView)
    requires
        root.len() > 0,
        root[root.len() - 1] != '/' || root.len() == 1,
        c.name == "index.html"@,
    ensures
        child_url(root, root, c) == if c.is_dir {
            seq!['/', '/']
        } else {
            seq!['/']
        },
{
    reveal_strlit("/");
    reveal_strlit("index.html");
    reveal_strlit("index.html/");
    let p = spec_join(root, c.name);
    let n = c.name;
    assert(p != root) by {
        assert(p.len() > root.len());
    }
    let rel = if root.len() == 1 && root[0] == '/' {
        assert(p =~= root + n);
        assert(crate::common::spec_root_prefixed(root, p)) by {
            assert(p.take(1) =~= root);
        }
        assert(p.skip(1) =~= n);
        n
    } else {
        assert(p =~= root + seq!['/'] + n);
        assert(crate::common::spec_root_prefixed(root, p)) by {
            assert(p.take(root.len() as int) =~= root);
            assert(p[root.len() as int] == '/');
        }
        assert(p.skip(root.len() as int) =~= seq!['/'] + n);
        seq!['/'] + n
    };
    assert(forall|k: int| 0 <= k < rel.len() ==> rel[k] != '?');
    crate::lemma_strip_query_at(rel, rel.len() as int);
    assert(rel.take(rel.len() as int) =~= rel);
    if rel.len() == n.len() {
        assert(crate::first_slash_at(rel) == rel.len()) by {
            crate::lemma_first_slash_at(rel);
            if crate::first_slash_at(rel) < rel.len() {
                assert(rel[crate::first_slash_at(rel) as int] == '/');
            }
        }
        assert(!crate::keep_piece(rel));
        assert(crate::spec_normalize(rel) =~= seq!['/']);
    } else {
        assert(crate::first_slash_at(rel) == 0);
        assert(rel.take(1) =~= seq!['/']);
        assert(rel.skip(1) =~= n);
        assert(crate::first_slash_at(n) == n.len()) by {
            crate::lemma_first_slash_at(n);
            if crate::first_slash_at(n) < n.len() {
                assert(n[crate::first_slash_at(n) as int] == '/');
            }
        }
        assert(!crate::keep_piece(n));
        assert(crate::normalized_tail(n) =~= Seq::<char>::empty());
        assert(!crate::keep_piece(rel.take(1)));
        assert(crate::normalized_tail(rel) =~= Seq::<char>::empty() + crate::normalized_tail(n));
        assert(crate::normalized_tail(rel) =~= Seq::<char>::empty());
        assert(crate::spec_normalize(rel) =~= seq!['/']);
    }
    if c.is_dir {
        assert(seq!['/'] + seq!['/'] =~= seq!['/', '/']);
    }
}

/// A scan of the root directory resolves each cleanly named child to an
/// entry backed by exactly that child's path: distinct slash-free names
/// give distinct URLs, so only a stale binding of the same URL that
/// survived the purge could stand in the way.
pub proof fn lemma_root_scan_resolves_child(
    m: Map<Seq<char>, UrlEntryView>,
    root: Seq<char>,
    ttl: u64,
    cs: Seq<ChildView>,
    now: u64,
    i: int,
)
    requires
        root.len() > 0,
        root[root.len() - 1] != '/' || root.len() == 1,
        forall|j: int| 0 <= j < cs.len() ==> (#[trigger] cs[j].name).len() > 0,
        forall|j: int, k: int|
            0 <= j < cs.len() && 0 <= k < cs[j].name.len() ==> cs[j].name[k] != '/',
        forall|j: int, k: int|
            0 <= j < cs.len() && 0 <= k < cs[j].name.len() ==> cs[j].name[k] != '?',
        forall|j1: int, j2: int| 0 <= j1 < j2 < cs.len() ==> cs[j1].name != cs[j2].name,
        0 <= i < cs.len(),
        cs[i].name != "index.html"@,
        !purge(m, root).dom().contains(child_url(root, root, cs[i])),
    ensures
        ({
            let r = scan_result(m, root, ttl, root, cs, now);
            let u = child_url(root, root, cs[i]);
            &&& r.dom().contains(u)
            &&& r[u] == child_entry(root, cs[i])
            &&& r[u].fs_path == spec_join(root, cs[i].name)
        }),
{
    reveal_strlit("index.html");
    let u = child_url(root, root, cs[i]);
    let ni = cs[i].name;
    lemma_child_url_of_root(root, cs[i]);
    assert forall|j: int| 0 <= j < i implies child_url(root, root, cs[j]) != u by {
        let nj = cs[j].name;
        if nj == "index.html"@ {
            lemma_index_child_url_of_root(root, cs[j]);
            // the index child's URL is `/` or `//`; a clean name's URL ends
            // in the name or in the name and a slash, never in two slashes
            if cs[j].is_dir {
                if child_url(root, root, cs[j]) == u {
                    if cs[i].is_dir {
                        assert(u.len() == ni.len() + 2);
                        assert(u[1] == ni[0]);
                    } else {
                        assert(u.len() == ni.len() + 1);
                        assert(u[1] == ni[0]);
                    }
                }
            } else {
                assert(u.len() >= 2);
            }
        } else {
            lemma_child_url_of_root(root, cs[j]);
            if child_url(root, root, cs[j]) == u {
                if cs[j].is_dir == cs[i].is_dir {
                    assert(nj =~= ni) by {
                        assert(nj.len() == ni.len());
                        assert(forall|k: int| 0 <= k < nj.len() ==> nj[k] == u[k + 1]);
                        assert(forall|k: int| 0 <= k < ni.len() ==> ni[k] == u[k + 1]);
                    }
                } else if cs[j].is_dir {
                    // `/nj/` against `/ni`: the longer one ends in a slash
                    // that the clean name cannot hold
                    assert(ni.len() == nj.len() + 1);
                    assert(u[u.len() - 1] == '/');
                    assert(u[u.len() - 1] == ni[ni.len() - 1]);
                } else {
                    assert(nj.len() == ni.len() + 1);
                    assert(u[u.len() - 1] == '/');
                    assert(u[u.len() - 1] == nj[nj.len() - 1]);
                }
            }
        }
    }
    assert(spec_fs_path_to_url(root, root, true) == seq!['/']);
    assert(u != seq!['/']) by {
        assert(u.len() >= 2);
    }
    lemma_scan_resolves_child(m, root, ttl, root, cs, now, i);
}

/// No entry inserted by `insert_children` is backed by a path outside the
/// scanned child set.
proof fn lemma_insert_children_no_path(
    m: Map<Seq<char>, UrlEntryView>,
    root: Seq<char>,
    dir: Seq<char>,
    cs: Seq<ChildView>,
    bad: Seq<char>,
)
    requires
        forall|k: Seq<char>| m.dom().contains(k) ==> m[k].fs_path != bad,
        forall|j: int| 0 <= j < cs.len() ==> spec_join(dir, cs[j].name) != bad,
    ensures
        forall|k: Seq<char>|
            insert_children(m, root, dir, cs).dom().contains(k) ==> insert_children(
                m,
                root,
                dir,
                cs,
            )[k].fs_path != bad,
    decreases cs.len(),
{
    if cs.len() > 0 {
        let u0 = child_url(root, dir, cs[0]);
        let m1 = if m.dom().contains(u0) {
            m
        } else {
            m.insert(u0, child_entry(dir, cs[0]))
        };
        assert(forall|j: int|
            0 <= j < cs.drop_first().len() ==> cs.drop_first()[j] == cs[j + 1]);
        lemma_insert_children_no_path(m1, root, dir, cs.drop_first(), bad);
    }
}

/// Once a file has vanished from its directory, a repopulation pass leaves
/// no entry backed by its path, and the freshly rendered listing enumerates
/// no child of its name.
pub proof fn lemma_repopulation_drops_vanished(
    m: Map<Seq<char>, UrlEntryView>,
    root: Seq<char>,
    ttl: u64,
    dir: Seq<char>,
    cs: Seq<ChildView>,
    now: u64,
    gone: Seq<char>,
)
    requires
        dir.len() > 0,
        dir[dir.len() - 1] != '/' || (dir.len() == 1 && dir[0] == '/'),
        gone.len() > 0,
        forall|k: int| 0 <= k < gone.len() ==> gone[k] != '/',
        forall|j: int| 0 <= j < cs.len() ==> cs[j].name != gone,
    ensures
        ({
            let r = scan_result(m, root, ttl, dir, cs, now);
            let bad = spec_join(dir, gone);
            forall|k: Seq<char>| r.dom().contains(k) ==> r[k].fs_path != bad
        }),
        forall|i: int|
            0 <= i < crate::common::spec_dirs_first(cs).len() ==> crate::common::spec_dirs_first(
                cs,
            )[i].name != gone,
{
    let bad = spec_join(dir, gone);
    crate::utils::lemma_parent_of_join(dir, gone);
    let purged = purge(m, dir);
    assert(forall|k: Seq<char>| purged.dom().contains(k) ==> purged[k].fs_path != bad) by {
        assert(forall|k: Seq<char>|
            purged.dom().contains(k) && purged[k].fs_path == bad ==> covers(m[k], dir));
    }
    assert forall|j: int| 0 <= j < cs.len() implies spec_join(dir, #[trigger] cs[j].name)
        != bad by {
        if spec_join(dir, cs[j].name) == bad {
            crate::utils::lemma_join_cancel(dir, cs[j].name, gone);
        }
    }
    lemma_insert_children_no_path(purged, root, dir, cs, bad);
    assert(dir != bad) by {
        assert(bad.len() > dir.len());
    }
    crate::common::lemma_dirs_first_permutation(cs);
    let sorted = crate::common::spec_dirs_first(cs);
    assert(forall|i: int| 0 <= i < sorted.len() ==> sorted[i].name != gone) by {
        assert(forall|i: int| 0 <= i < sorted.len() ==> cs.contains(#[trigger] sorted[i]));
    }
}

/// Where a caller must scan after it stats a probed path: nowhere for a
/// vanished path, the file's parent directory, or the directory itself.
pub fn scan_target(fs_path: &str, kind: PathKind) -> (r: Option<String>)
    ensures
        match kind {
            PathKind::Missing => r is None,
            PathKind::File => r matches Option::Some(d) && d@ == spec_parent_of(fs_path@),
            PathKind::Dir => r matches Option::Some(d) && d@ == fs_path@,
        },
{
    match kind {
        PathKind::Missing => Option::None,
        PathKind::File => Option::Some(parent_of(fs_path)),
        PathKind::Dir => Option::Some(String::from_str(fs_path)),
    }
}

/// The resolution table: the root directory every served path must lie
/// under, the URL-to-entry records, and the shared cache time-to-live.
pub struct UrlsTable {
    root_path: String,
    table: Vec<(String, UrlEntry)>,
    cache_expiration_time: u64,
}

impl UrlsTable {
    /// The canonical root path, as stored.
    pub closed spec fn root(&self) -> Seq<char> {
        self.root_path@
    }

    /// The configured cache time-to-live.
    pub closed spec fn ttl(&self) -> u64 {
        self.cache_expiration_time
    }

    /// The URL-to-entry mapping the table currently denotes.
    pub closed spec fn urls(&self) -> Map<Seq<char>, UrlEntryView> {
        assoc_map(self.table@)
    }

    /// The table's invariant: its keys are unique, so it denotes a map.
    pub closed spec fn wf(&self) -> bool {
        keys_unique(self.table@)
    }

    /// An empty table over `root_path` (with trailing slashes dropped),
    /// using the given cache time-to-live or the default one.
    pub fn new(root_path: String, cache_expiration_time: Option<Seconds>) -> (r: UrlsTable)
        ensures
            r.wf(),
            r.root() == spec_canon_root(root_path@),
            r.urls() == Map::<Seq<char>, UrlEntryView>::empty(),
            r.ttl() == match cache_expiration_time {
                Option::Some(t) => t,
                Option::None => DEFAULT_CACHE_EXPIRATION_TIME,
            },
    {
        let len = root_path.as_str().unicode_len();
        let mut e: usize = len;
        while e > 0
            invariant
                e <= len,
                len == root_path@.len(),
                forall|k: int| e <= k < len ==> root_path@[k] == '/',
            ensures
                e <= len,
                forall|k: int| e <= k < len ==> root_path@[k] == '/',
                e > 0 ==> root_path@[e - 1] != '/',
            decreases e,
        {
            if root_path.as_str().get_char(e - 1) != '/' {
                break;
            }
            e -= 1;
        }
        proof {
            lemma_trim_trailing_at(root_path@, e as int);
            reveal_strlit("/");
        }
        let root = if e == 0 {
            String::from_str("/")
        } else if e == len {
            root_path
        } else {
            String::from_str(root_path.as_str().substring_char(0, e))
        };
        let ttl = match cache_expiration_time {
            Option::Some(t) => t,
            Option::None => DEFAULT_CACHE_EXPIRATION_TIME,
        };
        UrlsTable { root_path: root, table: Vec::new(), cache_expiration_time: ttl }
    }

    /// The filesystem path backing `url`: the stored path when the table
    /// knows the URL, the root joined with the URL's relative portion
    /// otherwise.
    pub fn url_to_fs_path(&self, url: &str) -> (r: String)
        requires
            self.wf(),
        ensures
            r@ == if self.urls().dom().contains(url@) {
                self.urls()[url@].fs_path
            } else {
                spec_url_to_fs_path(self.root(), url@)
            },
    {
        if let Option::Some(i) = self.find_index(url) {
            return self.table[i].1.fs_path.clone();
        }
        let len = url.unicode_len();
        let mut s: usize = 0;
        while s < len
            invariant
                s <= len,
                len == url@.len(),
                forall|k: int| 0 <= k < s ==> url@[k] == '/',
            ensures
                s <= len,
                forall|k: int| 0 <= k < s ==> url@[k] == '/',
                s < len ==> url@[s as int] != '/',
            decreases len - s,
        {
            if url.get_char(s) != '/' {
                break;
            }
            s += 1;
        }
        let mut e: usize = len;
        while e > s
            invariant
                s <= e <= len,
                len == url@.len(),
                forall|k: int| e <= k < len ==> url@[k] == '/',
            ensures
                s <= e <= len,
                forall|k: int| e <= k < len ==> url@[k] == '/',
                e > s ==> url@[e - 1] != '/',
            decreases e,
        {
            if url.get_char(e - 1) != '/' {
                break;
            }
            e -= 1;
        }
        proof {
            lemma_trim_leading_at(url@, s as int);
            let v = url@.skip(s as int);
            assert(forall|k: int| 0 <= k < v.len() ==> v[k] == url@[k + s]);
            if e == s {
                lemma_trim_trailing_at(v, 0);
                assert(v.take(0) =~= Seq::<char>::empty());
            } else {
                lemma_trim_trailing_at(v, e - s);
                assert(v.take(e - s) =~= url@.subrange(s as int, e as int));
            }
        }
        if e == s {
            self.root_path.clone()
        } else {
            join_path(self.root_path.as_str(), url.substring_char(s, e))
        }
    }

    /// The URL a filesystem path is served under, relative to this table's
    /// root.
    pub fn fs_path_to_url(&self, fs_path: &str, is_dir: bool) -> (r: String)
        ensures
            r@ == spec_fs_path_to_url(self.root(), fs_path@, is_dir),
    {
        crate::common::fs_path_to_url(self.root_path.as_str(), fs_path, is_dir)
    }

    /// What, if anything, must happen before the entry for `url` can be
    /// served at time `now`: nothing, a rescan of the stale backing
    /// directory, a stat of the path the URL falls back to, or a rejection
    /// of a URL that tries to climb out of the root.
    pub fn update_if_needed(&self, url: &str, now: u64) -> (step: UpdateStep)
        requires
            self.wf(),
        ensures
            match step {
                UpdateStep::UpToDate => self.urls().dom().contains(url@)
                    && self.urls()[url@].is_fresh_at(now),
                UpdateStep::Rescan { dir } => self.urls().dom().contains(url@) && !self.urls()[url@]
                    .is_fresh_at(now) && dir@ == self.urls()[url@].fs_path,
                UpdateStep::Reject => !self.urls().dom().contains(url@) && spec_url_escapes(url@),
                UpdateStep::Probe { fs_path } => !self.urls().dom().contains(url@)
                    && !spec_url_escapes(url@) && fs_path@ == spec_url_to_fs_path(
                    self.root(),
                    url@,
                ),
            },
    {
        match self.find_index(url) {
            Option::Some(i) => {
                let entry = &self.table[i].1;
                if !entry.is_dir {
                    return UpdateStep::UpToDate;
                }
                if let Option::Some(c) = &entry.cache {
                    if !c.is_expired(now) {
                        return UpdateStep::UpToDate;
                    }
                }
                UpdateStep::Rescan { dir: entry.fs_path.clone() }
            },
            Option::None => {
                if url_escapes(url) {
                    UpdateStep::Reject
                } else {
                    UpdateStep::Probe { fs_path: self.url_to_fs_path(url) }
                }
            },
        }
    }

    /// Install the bytes a caller read for `url` as its cache, stamped at
    /// `now` with this table's time-to-live; a URL the table does not know
    /// is left alone.
    pub fn update_or_set_cache_of(&mut self, url: &str, content: Vec<u8>, content_type: String, now: u64)
        requires
            old(self).wf(),
        ensures
            final(self).wf(),
            final(self).root() == old(self).root(),
            final(self).ttl() == old(self).ttl(),
            old(self).urls().dom().contains(url@) ==> final(self).urls() == old(self).urls().insert(
                url@,
                UrlEntryView {
                    fs_path: old(self).urls()[url@].fs_path,
                    is_dir: old(self).urls()[url@].is_dir,
                    cache: Option::Some(
                        EntryCacheView {
                            content: content@,
                            content_type: content_type@,
                            created_time: now,
                            expiration_time: old(self).ttl(),
                        },
                    ),
                },
            ),
            !old(self).urls().dom().contains(url@) ==> final(self).urls() == old(self).urls(),
    {
        if let Option::Some(i) = self.find_index(url) {
            let key = self.table[i].0.clone();
            let fs_path = self.table[i].1.fs_path.clone();
            let is_dir = self.table[i].1.is_dir;
            let cache = EntryCache::new(content, content_type, self.cache_expiration_time, now);
            let pair = (key, UrlEntry::new(fs_path, is_dir, Option::Some(cache)));
            proof {
                lemma_assoc_update(self.table@, i as int, pair);
            }
            self.table[i] = pair;
        }
    }

    /// The rendered listing page for `dir` served under `url`, as bytes:
    /// one hyperlink per child, directories first.
    pub fn build_directory_listing_page(&self, url: &str, dir: &str, children: &Vec<DirChild>) -> (r:
        Vec<u8>)
        ensures
            r@ == vstd::utf8::encode_utf8(
                spec_listing_page(self.root(), dir@, url@, child_views(children@)),
            ),
    {
        let page = crate::common::build_directory_listing_page(
            url,
            self.root_path.as_str(),
            dir,
            children,
        );
        page.as_str().as_bytes_vec()
    }

    /// Repopulate the table from one scan of `dir`: drop the entries of
    /// `dir` and of its immediate children, insert every scanned child as a
    /// fresh uncached entry, and, when no child is named `index.html`,
    /// cache a freshly rendered listing of exactly these children under the
    /// directory's own URL.
    pub fn map_urls_from(&mut self, dir: &str, children: &Vec<DirChild>, now: u64)
        requires
            old(self).wf(),
        ensures
            final(self).wf(),
            final(self).root() == old(self).root(),
            final(self).ttl() == old(self).ttl(),
            final(self).urls() == scan_result(
                old(self).urls(),
                old(self).root(),
                old(self).ttl(),
                dir@,
                child_views(children@),
                now,
            ),
    {
        let ghost m0 = self.urls();
        let ghost t0 = self.table@;
        let ghost root0 = self.root();
        let ghost ttl0 = self.ttl();
        // Drop every entry backed by `dir` itself or by a path directly
        // inside it.
        let mut kept: Vec<(String, UrlEntry)> = Vec::new();
        let ghost i: int = 0;
        proof {
            assert(t0.take(0) =~= Seq::<(String, UrlEntry)>::empty());
            assert(assoc_map(kept@) =~= purge(assoc_map(t0.take(0)), dir@));
            assert(t0.skip(0) =~= t0);
        }
        while self.table.len() > 0
            invariant
                0 <= i <= t0.len(),
                self.table@ == t0.skip(i),
                keys_unique(t0),
                self.root_path@ == root0,
                self.cache_expiration_time == ttl0,
                keys_unique(kept@),
                forall|a: int|
                    0 <= a < kept@.len() ==> exists|j: int|
                        0 <= j < i && #[trigger] kept@[a].0@ == #[trigger] t0[j].0@,
                assoc_map(kept@) == purge(assoc_map(t0.take(i)), dir@),
            decreases self.table@.len(),
        {
            let pair = self.table.remove(0);
            proof {
                assert(t0.skip(i)[0] == t0[i]);
                assert(t0.skip(i).remove(0) =~= t0.skip(i + 1));
            }
            let ghost tk = t0.take(i);
            let ghost tk1 = t0.take(i + 1);
            let ghost p = t0[i];
            proof {
                assert(tk1.drop_last() =~= tk);
                assert(tk1.last() == p);
                lemma_assoc_contains(tk, p.0@);
                assert(!assoc_map(tk).dom().contains(p.0@)) by {
                    if exists|j: int| 0 <= j < tk.len() && tk[j].0@ == p.0@ {
                        let j = choose|j: int| 0 <= j < tk.len() && tk[j].0@ == p.0@;
                        assert(t0[j].0@ == t0[i].0@);
                    }
                }
            }
            let keep_it = if str_eq(pair.1.fs_path.as_str(), dir) {
                false
            } else {
                let par = parent_of(pair.1.fs_path.as_str());
                !str_eq(par.as_str(), dir)
            };
            proof {
                assert(keep_it == !covers(p.1@, dir@));
                if keep_it {
                    assert(purge(assoc_map(tk1), dir@) =~= purge(assoc_map(tk), dir@).insert(
                        p.0@,
                        p.1@,
                    ));
                } else {
                    assert(purge(assoc_map(tk1), dir@) =~= purge(assoc_map(tk), dir@));
                }
            }
            if keep_it {
                proof {
                    assert(forall|a: int|
                        0 <= a < kept@.len() ==> kept@[a].0@ != p.0@) by {
                        assert(forall|j: int| 0 <= j < i ==> t0[j].0@ != t0[i].0@);
                    }
                    assert(kept@.push(pair).drop_last() =~= kept@);
                }
                kept.push(pair);
            }
            proof {
                i = i + 1;
            }
        }
        proof {
            assert(t0.take(i) =~= t0);
        }
        self.table = kept;
        // Insert each scanned child, first occurrence winning, and remember
        // whether one of them is an index file.
        let ghost purged = self.urls();
        let ghost cs = child_views(children@);
        let mut found_index_html_file = false;
        let mut n: usize = 0;
        proof {
            reveal_strlit("index.html");
            assert(child_views(children@.take(0)) =~= Seq::<ChildView>::empty());
            assert(insert_children(purged, root0, dir@, child_views(children@.take(0))) == purged);
        }
        while n < children.len()
            invariant
                n <= children@.len(),
                self.wf(),
                self.root_path@ == root0,
                self.root() == root0,
                self.cache_expiration_time == ttl0,
                self.urls() == insert_children(
                    purged,
                    root0,
                    dir@,
                    child_views(children@.take(n as int)),
                ),
                found_index_html_file == has_index_child(child_views(children@.take(n as int))),
            decreases children@.len() - n,
        {
            let child = &children[n];
            let ghost c = children@[n as int]@;
            let ghost prefix = child_views(children@.take(n as int));
            let ghost prefix1 = child_views(children@.take(n + 1));
            proof {
                assert(prefix1 =~= prefix.push(c));
                lemma_insert_children_snoc(purged, root0, dir@, prefix, c);
                lemma_has_index_push(prefix, c);
            }
            if !found_index_html_file && str_eq(child.name.as_str(), "index.html") {
                found_index_html_file = true;
            }
            let entry_fs_path = join_path(dir, child.name.as_str());
            let mapped_url = self.fs_path_to_url(entry_fs_path.as_str(), child.is_dir);
            proof {
                assert(mapped_url@ == child_url(root0, dir@, c));
            }
            if !self.contains_url_entry(mapped_url.as_str()) {
                proof {
                    lemma_assoc_contains(self.table@, mapped_url@);
                }
                let ghost tbl_before = self.table@;
                let ghost url_view = mapped_url@;
                let new_entry = UrlEntry::new(entry_fs_path, child.is_dir, Option::None);
                self.table.push((mapped_url, new_entry));
                proof {
                    assert(self.table@.drop_last() =~= tbl_before);
                    assert(self.table@.last().1@ == child_entry(dir@, c));
                    assert(keys_unique(self.table@)) by {
                        assert(forall|j: int|
                            0 <= j < tbl_before.len() ==> tbl_before[j].0@ != url_view);
                        assert(forall|a: int|
                            0 <= a < tbl_before.len() ==> self.table@[a] == tbl_before[a]);
                    }
                    assert(self.urls() == insert_children(purged, root0, dir@, prefix1));
                }
            } else {
                proof {
                    assert(self.urls() == insert_children(purged, root0, dir@, prefix1));
                }
            }
            n += 1;
        }
        proof {
            assert(children@.take(children@.len() as int) =~= children@);
        }
        if found_index_html_file {
            return ;
        }
        // No index file: synthesize the listing for exactly the children
        // just inserted and cache it under the directory's URL.
        let mapped_root_url = self.fs_path_to_url(dir, true);
        let listing = self.build_directory_listing_page(mapped_root_url.as_str(), dir, children);
        let entry_cache = EntryCache::new(
            listing,
            String::from_str("Content-Type: text/html"),
            self.cache_expiration_time,
            now,
        );
        let dir_entry = UrlEntry::new(String::from_str(dir), true, Option::Some(entry_cache));
        match self.find_index(mapped_root_url.as_str()) {
            Option::Some(j) => {
                let pair = (mapped_root_url, dir_entry);
                proof {
                    lemma_assoc_update(self.table@, j as int, pair);
                }
                self.table[j] = pair;
            },
            Option::None => {
                proof {
                    lemma_assoc_contains(self.table@, mapped_root_url@);
                }
                let ghost tbl_before = self.table@;
                let ghost url_view = mapped_root_url@;
                self.table.push((mapped_root_url, dir_entry));
                proof {
                    assert(self.table@.drop_last() =~= tbl_before);
                    assert(keys_unique(self.table@)) by {
                        assert(forall|j: int|
                            0 <= j < tbl_before.len() ==> tbl_before[j].0@ != url_view);
                        assert(forall|a: int|
                            0 <= a < tbl_before.len() ==> self.table@[a] == tbl_before[a]);
                    }
                }
            },
        }
    }

    /// Find the index binding `url`, if any.
    fn find_index(&self, url: &str) -> (r: Option<usize>)
        requires
            self.wf(),
        ensures
            match r {
                Option::Some(i) => i < self.table@.len() && self.table@[i as int].0@ == url@
                    && self.urls().dom().contains(url@) && self.urls()[url@]
                    == self.table@[i as int].1@,
                Option::None => !self.urls().dom().contains(url@),
            },
    {
        let mut i: usize = 0;
        while i < self.table.len()
            invariant
                self.wf(),
                i <= self.table@.len(),
                forall|k: int| 0 <= k < i ==> self.table@[k].0@ != url@,
            decreases self.table@.len() - i,
        {
            if str_eq(self.table[i].0.as_str(), url) {
                proof {
                    lemma_assoc_get(self.table@, i as int);
                }
                return Option::Some(i);
            }
            i += 1;
        }
        proof {
            lemma_assoc_contains(self.table@, url@);
        }
        Option::None
    }

    /// Look up the entry for a canonical URL; no population happens.
    pub fn get_url_entry(&self, url: &str) -> (r: Option<&UrlEntry>)
        requires
            self.wf(),
        ensures
            match r {
                Option::Some(e) => self.urls().dom().contains(url@) && e@ == self.urls()[url@],
                Option::None => !self.urls().dom().contains(url@),
            },
    {
        match self.find_index(url) {
            Option::Some(i) => Option::Some(&self.table[i].1),
            Option::None => Option::None,
        }
    }

    /// Is `url` known to the table? Never triggers population.
    pub fn contains_url_entry(&self, url: &str) -> (r: bool)
        requires
            self.wf(),
        ensures
            r == self.urls().dom().contains(url@),
    {
        match self.find_index(url) {
            Option::Some(_) => true,
            Option::None => false,
        }
    }

    /// The redirect rule: the exact URL is unknown but the URL with a
    /// trailing slash added is known, so the caller should answer with a
    /// redirect to the latter.
    pub fn should_redirect(&self, url: &str) -> (r: bool)
        requires
            self.wf(),
        ensures
            r == (!self.urls().dom().contains(url@) && self.urls().dom().contains(
                url@ + seq!['/'],
            )),
    {
        proof {
            reveal_strlit("/");
        }
        if self.contains_url_entry(url) {
            return false;
        }
        let mut with_slash = String::from_str(url);
        with_slash.append("/");
        proof {
            assert(with_slash@ =~= url@ + seq!['/']);
        }
        self.contains_url_entry(with_slash.as_str())
    }
}

} // verus!
