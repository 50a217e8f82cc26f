//! A small static-file server core: canonical URLs, a lazily populated
//! URL-to-filesystem resolution table, synthesized directory listings, and
//! time-based cache expiry. Filesystem reads, the clock and the HTTP
//! transport live outside; they hand the table plain values (directory
//! scans, timestamps) and take plain values back.
use vstd::prelude::*;

pub mod common;
pub mod config;
pub mod mime_types;
pub mod urls_table;
pub mod utils;

verus! {

use crate::utils::str_eq;
use vstd::string::StrSliceExecFns;
use vstd::string::StringExecFns;

/// Index of the first `/` in `s`, or `s.len()` when there is none.
pub open spec fn first_slash_at(s: Seq<char>) -> nat
    decreases s.len(),
{
    if s.len() == 0 {
        0
    } else if s[0] == '/' {
        0
    } else {
        1 + first_slash_at(s.drop_first())
    }
}

pub proof fn lemma_first_slash_at(s: Seq<char>)
    ensures
        first_slash_at(s) <= s.len(),
        first_slash_at(s) < s.len() ==> s[first_slash_at(s) as int] == '/',
        forall|k: int| 0 <= k < first_slash_at(s) ==> s[k] != '/',
    decreases s.len(),
{
    if s.len() > 0 && s[0] != '/' {
        lemma_first_slash_at(s.drop_first());
        assert(forall|k: int| 1 <= k < first_slash_at(s) ==> s[k] == s.drop_first()[k - 1]);
    }
}

/// The request target up to (and excluding) its first `?`: the query
/// string, if any, is stripped.
pub open spec fn strip_query(s: Seq<char>) -> Seq<char>
    decreases s.len(),
{
    if s.len() == 0 {
        s
    } else if s[0] == '?' {
        Seq::empty()
    } else {
        seq![s[0]] + strip_query(s.drop_first())
    }
}

/// `strip_query` cuts exactly at the first `?`.
pub proof fn lemma_strip_query_at(s: Seq<char>, i: int)
    requires
        0 <= i <= s.len(),
        forall|k: int| 0 <= k < i ==> s[k] != '?',
        i < s.len() ==> s[i] == '?',
    ensures
        strip_query(s) == s.take(i),
    decreases s.len(),
{
    if s.len() == 0 {
        assert(strip_query(s) =~= s.take(i));
    } else if s[0] == '?' {
        assert(strip_query(s) =~= s.take(i));
    } else {
        lemma_strip_query_at(s.drop_first(), i - 1);
        assert(seq![s[0]] + s.drop_first().take(i - 1) =~= s.take(i));
    }
}

pub proof fn lemma_strip_query_no_query(s: Seq<char>)
    ensures
        forall|k: int| 0 <= k < strip_query(s).len() ==> strip_query(s)[k] != '?',
    decreases s.len(),
{
    if s.len() > 0 && s[0] != '?' {
        lemma_strip_query_no_query(s.drop_first());
        assert(forall|k: int|
            1 <= k < strip_query(s).len() ==> strip_query(s)[k] == strip_query(s.drop_first())[k
                - 1]);
    }
}

/// A piece is a URL component as the normalizer sees it: either a run of
/// characters ending in `/`, or the final run without one. Dropped pieces
/// are the empty component `/` and the literal `index.html` segment with or
/// without its slash.
pub open spec fn keep_piece(p: Seq<char>) -> bool {
    p != seq!['/'] && p != "index.html"@ && p != "index.html/"@
}

/// The concatenation of the kept pieces of `s` (which must already have
/// its query stripped).
pub open spec fn normalized_tail(s: Seq<char>) -> Seq<char>
    decreases s.len(),
{
    if s.len() == 0 {
        Seq::empty()
    } else {
        let i = first_slash_at(s) as int;
        if i < s.len() {
            let piece = s.take(i + 1);
            let rest = s.skip(i + 1);
            (if keep_piece(piece) {
                piece
            } else {
                Seq::empty()
            }) + normalized_tail(rest)
        } else {
            if keep_piece(s) {
                s
            } else {
                Seq::empty()
            }
        }
    }
}

/// The canonical form of a raw request target: query stripped, a single
/// leading slash, empty and `index.html` segments dropped.
pub open spec fn spec_normalize(s: Seq<char>) -> Seq<char> {
    seq!['/'] + normalized_tail(strip_query(s))
}

/// The first slash of a concatenation lies in the left part whenever the
/// left part has one.
proof fn lemma_first_slash_append(a: Seq<char>, b: Seq<char>)
    requires
        first_slash_at(a) < a.len(),
    ensures
        first_slash_at(a + b) == first_slash_at(a),
    decreases a.len(),
{
    if a.len() > 0 && a[0] != '/' {
        lemma_first_slash_append(a.drop_first(), b);
        assert((a + b).drop_first() =~= a.drop_first() + b);
    }
}

/// `normalized_tail` distributes over a split at a piece boundary.
pub proof fn lemma_tail_append(a: Seq<char>, b: Seq<char>)
    requires
        a.len() == 0 || a[a.len() - 1] == '/',
    ensures
        normalized_tail(a + b) == normalized_tail(a) + normalized_tail(b),
    decreases a.len(),
{
    if a.len() == 0 {
        assert(a + b =~= b);
        assert(normalized_tail(a) + normalized_tail(b) =~= normalized_tail(b));
    } else {
        lemma_first_slash_at(a);
        let i = first_slash_at(a) as int;
        assert(i < a.len()) by {
            if i == a.len() {
                assert(a[a.len() - 1] != '/');
            }
        }
        lemma_first_slash_append(a, b);
        let ab = a + b;
        assert(ab.take(i + 1) =~= a.take(i + 1));
        assert(ab.skip(i + 1) =~= a.skip(i + 1) + b);
        let arest = a.skip(i + 1);
        assert(arest.len() == 0 || arest[arest.len() - 1] == '/') by {
            if arest.len() > 0 {
                assert(arest[arest.len() - 1] == a[a.len() - 1]);
            }
        }
        lemma_tail_append(arest, b);
    }
}

/// Normalized tails contain no `?`.
pub proof fn lemma_tail_no_query(s: Seq<char>)
    requires
        forall|k: int| 0 <= k < s.len() ==> s[k] != '?',
    ensures
        forall|k: int| 0 <= k < normalized_tail(s).len() ==> normalized_tail(s)[k] != '?',
    decreases s.len(),
{
    if s.len() > 0 {
        let i = first_slash_at(s) as int;
        lemma_first_slash_at(s);
        if i < s.len() {
            let piece = s.take(i + 1);
            let rest = s.skip(i + 1);
            assert(forall|k: int| 0 <= k < rest.len() ==> rest[k] == s[k + i + 1]);
            lemma_tail_no_query(rest);
            let kept = if keep_piece(piece) {
                piece
            } else {
                Seq::<char>::empty()
            };
            assert(forall|k: int| 0 <= k < kept.len() ==> kept[k] != '?');
            assert(normalized_tail(s) == kept + normalized_tail(rest));
            assert(forall|k: int|
                kept.len() <= k < normalized_tail(s).len() ==> normalized_tail(s)[k]
                    == normalized_tail(rest)[k - kept.len()]);
        }
    }
}

/// Running the normalizer over its own output changes nothing.
pub proof fn lemma_tail_idempotent(s: Seq<char>)
    ensures
        normalized_tail(normalized_tail(s)) == normalized_tail(s),
    decreases s.len(),
{
    if s.len() == 0 {
    } else {
        let i = first_slash_at(s) as int;
        lemma_first_slash_at(s);
        if i < s.len() {
            let piece = s.take(i + 1);
            let rest = s.skip(i + 1);
            lemma_tail_idempotent(rest);
            if keep_piece(piece) {
                // The kept piece has its only slash at the end, so it is the
                // first piece of the re-normalized string and is kept again.
                assert(piece[piece.len() - 1] == '/');
                lemma_tail_append(piece, normalized_tail(rest));
                assert(first_slash_at(piece) == piece.len() - 1) by {
                    lemma_first_slash_at(piece);
                    assert(forall|k: int| 0 <= k < i ==> piece[k] != '/');
                }
                assert(normalized_tail(piece) == piece) by {
                    assert(piece.take(i + 1) =~= piece);
                    assert(piece.skip(i + 1) =~= Seq::<char>::empty());
                    assert(piece + normalized_tail(piece.skip(i + 1)) =~= piece);
                }
            } else {
                assert(Seq::<char>::empty() + normalized_tail(rest) =~= normalized_tail(rest));
            }
        } else {
            if keep_piece(s) {
                assert(normalized_tail(s) == s);
            }
        }
    }
}

/// A piece whose only slash is its final character normalizes to itself or
/// to nothing.
proof fn lemma_slash_piece(b: Seq<char>)
    requires
        b.len() > 0,
        b[b.len() - 1] == '/',
        forall|k: int| 0 <= k < b.len() - 1 ==> b[k] != '/',
    ensures
        normalized_tail(b) == if keep_piece(b) {
            b
        } else {
            Seq::<char>::empty()
        },
{
    lemma_first_slash_at(b);
    let i = first_slash_at(b) as int;
    assert(i == b.len() - 1);
    assert(b.take(i + 1) =~= b);
    assert(b.skip(i + 1) =~= Seq::<char>::empty());
    let kept = if keep_piece(b) {
        b
    } else {
        Seq::<char>::empty()
    };
    assert(kept + normalized_tail(Seq::<char>::empty()) =~= kept);
}

/// A slashless final piece normalizes to itself or to nothing.
proof fn lemma_final_piece(b: Seq<char>)
    requires
        b.len() > 0,
        forall|k: int| 0 <= k < b.len() ==> b[k] != '/',
    ensures
        normalized_tail(b) == if keep_piece(b) {
            b
        } else {
            Seq::<char>::empty()
        },
{
    lemma_first_slash_at(b);
    assert(first_slash_at(b) == b.len());
}

/// Canonicalize a raw request target: strip the query string, force a
/// single leading slash, drop empty and literal `index.html` segments and
/// keep the trailing slash of the remaining directory segments.
pub fn normalize_url(url: &str) -> (r: String)
    ensures
        r@ == spec_normalize(url@),
{
    let len = url.unicode_len();
    proof {
        reveal_strlit("/");
        reveal_strlit("index.html");
        reveal_strlit("index.html/");
    }
    let mut out = String::from_str("/");
    proof {
        assert(url@.take(0) =~= Seq::<char>::empty());
        assert(out@ =~= seq!['/'] + normalized_tail(url@.take(0)));
    }
    let mut j: usize = 0;
    let mut i: usize = 0;
    while i < len
        invariant
            j <= i <= len,
            len == url@.len(),
            forall|k: int| 0 <= k < i ==> url@[k] != '?',
            forall|k: int| j <= k < i ==> url@[k] != '/',
            j == 0 || url@[j - 1] == '/',
            out@ == seq!['/'] + normalized_tail(url@.take(j as int)),
        ensures
            j <= i <= len,
            len == url@.len(),
            forall|k: int| 0 <= k < i ==> url@[k] != '?',
            forall|k: int| j <= k < i ==> url@[k] != '/',
            j == 0 || url@[j - 1] == '/',
            out@ == seq!['/'] + normalized_tail(url@.take(j as int)),
            i == len || url@[i as int] == '?',
        decreases len - i,
    {
        let c = url.get_char(i);
        if c == '?' {
            break;
        }
        if c == '/' {
            proof {
                reveal_strlit("/");
                reveal_strlit("index.html");
                reveal_strlit("index.html/");
            }
            let ghost a = url@.take(j as int);
            let ghost b = url@.subrange(j as int, i + 1);
            proof {
                assert(url@.take(i + 1) =~= a + b);
                lemma_tail_append(a, b);
                lemma_slash_piece(b);
            }
            if i > j {
                let seg = url.substring_char(j, i);
                proof {
                    assert(seg@ =~= b.drop_last());
                }
                if !str_eq(seg, "index.html") {
                    proof {
                        assert(b != seq!['/']);
                        assert(b != "index.html"@) by {
                            if b == "index.html"@ {
                                assert(b[b.len() - 1] == 'l');
                            }
                        }
                        assert(b != "index.html/"@) by {
                            if b == "index.html/"@ {
                                assert(seg@ =~= "index.html"@);
                            }
                        }
                        assert(keep_piece(b));
                    }
                    out.append(url.substring_char(j, i + 1));
                    proof {
                        assert(out@ =~= seq!['/'] + normalized_tail(url@.take(i + 1)));
                    }
                } else {
                    proof {
                        assert(b =~= "index.html/"@);
                        assert(!keep_piece(b));
                        assert(out@ =~= seq!['/'] + normalized_tail(url@.take(i + 1)));
                    }
                }
            } else {
                proof {
                    assert(b =~= seq!['/']);
                    assert(!keep_piece(b));
                    assert(out@ =~= seq!['/'] + normalized_tail(url@.take(i + 1)));
                }
            }
            j = i + 1;
        }
        i += 1;
    }
    proof {
        lemma_strip_query_at(url@, i as int);
    }
    let ghost t = url@.take(i as int);
    if i > j {
        let seg = url.substring_char(j, i);
        let ghost a = url@.take(j as int);
        let ghost b = url@.subrange(j as int, i as int);
        proof {
            reveal_strlit("/");
            reveal_strlit("index.html");
            reveal_strlit("index.html/");
            assert(t =~= a + b);
            lemma_tail_append(a, b);
            lemma_final_piece(b);
            assert(seg@ == b);
        }
        if !str_eq(seg, "index.html") {
            proof {
                assert(b[0] != '/');
                assert(b != seq!['/']);
                assert(b != "index.html/"@) by {
                    if b == "index.html/"@ {
                        assert(b[b.len() - 1] == '/');
                    }
                }
                assert(keep_piece(b));
            }
            out.append(seg);
            proof {
                assert(out@ =~= seq!['/'] + normalized_tail(t));
            }
        } else {
            proof {
                assert(!keep_piece(b));
                assert(out@ =~= seq!['/'] + normalized_tail(t));
            }
        }
    } else {
        proof {
            assert(t =~= url@.take(j as int));
        }
    }
    out
}

/// A single clean segment (no slash, no query, not the index name) behind
/// a leading slash is already canonical.
pub proof fn lemma_normalize_clean_segment(n: Seq<char>)
    requires
        n.len() > 0,
        forall|k: int| 0 <= k < n.len() ==> n[k] != '/',
        forall|k: int| 0 <= k < n.len() ==> n[k] != '?',
        n != "index.html"@,
    ensures
        spec_normalize(seq!['/'] + n) == seq!['/'] + n,
        spec_normalize(n) == seq!['/'] + n,
{
    reveal_strlit("/");
    reveal_strlit("index.html");
    reveal_strlit("index.html/");
    let sn = seq!['/'] + n;
    assert(forall|k: int| 0 <= k < sn.len() ==> sn[k] != '?') by {
        assert(forall|k: int| 1 <= k < sn.len() ==> sn[k] == n[k - 1]);
    }
    lemma_strip_query_at(sn, sn.len() as int);
    assert(sn.take(sn.len() as int) =~= sn);
    lemma_strip_query_at(n, n.len() as int);
    assert(n.take(n.len() as int) =~= n);
    assert(first_slash_at(sn) == 0);
    assert(sn.take(1) =~= seq!['/']);
    assert(sn.skip(1) =~= n);
    assert(keep_piece(n)) by {
        assert(n[0] != '/');
        assert(n != seq!['/']);
        assert(n != "index.html/"@) by {
            if n == "index.html/"@ {
                assert(n[n.len() - 1] == '/');
            }
        }
    }
    lemma_final_piece(n);
    assert(Seq::<char>::empty() + normalized_tail(n) =~= n);
}

/// Normalizing is idempotent: the canonical form is a fixed point.
pub proof fn lemma_normalize_idempotent(s: Seq<char>)
    ensures
        spec_normalize(spec_normalize(s)) == spec_normalize(s),
{
    let t = strip_query(s);
    let u = spec_normalize(s);
    lemma_strip_query_no_query(s);
    lemma_tail_no_query(t);
    assert(forall|k: int| 0 <= k < u.len() ==> u[k] != '?') by {
        reveal_strlit("/");
        assert(u[0] == '/');
        assert(forall|k: int| 1 <= k < u.len() ==> u[k] == normalized_tail(t)[k - 1]);
    }
    lemma_strip_query_at(u, u.len() as int);
    assert(strip_query(u) == u.take(u.len() as int));
    assert(u.take(u.len() as int) =~= u);
    // The leading slash is an empty piece and is dropped; the rest is the
    // already-normalized tail.
    assert(first_slash_at(u) == 0);
    assert(u.take(1) =~= seq!['/']);
    assert(u.skip(1) =~= normalized_tail(t));
    assert(!keep_piece(seq!['/']));
    lemma_tail_idempotent(t);
    assert(normalized_tail(u) == Seq::<char>::empty() + normalized_tail(normalized_tail(t)));
    assert(Seq::<char>::empty() + normalized_tail(t) =~= normalized_tail(t));
}

} // verus!
