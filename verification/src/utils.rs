//! Small verified string utilities: equality, prefix tests, and the
//! path-segment helpers (join, parent) that the resolution table uses to
//! relate filesystem paths given as plain strings.
use vstd::prelude::*;
use vstd::string::StrSliceExecFns;
use vstd::string::StringExecFns;

verus! {

/// `p` is a prefix of `s`.
pub open spec fn spec_is_prefix(p: Seq<char>, s: Seq<char>) -> bool {
    p.len() <= s.len() && s.take(p.len() as int) == p
}

/// Character-exact string equality.
pub fn str_eq(a: &str, b: &str) -> (r: bool)
    ensures
        r == (a@ == b@),
{
    let la = a.unicode_len();
    let lb = b.unicode_len();
    if la != lb {
        return false;
    }
    let mut i: usize = 0;
    while i < la
        invariant
            i <= la,
            la == a@.len(),
            lb == b@.len(),
            la == lb,
            forall|k: int| 0 <= k < i ==> a@[k] == b@[k],
        decreases la - i,
    {
        if a.get_char(i) != b.get_char(i) {
            return false;
        }
        i += 1;
    }
    proof {
        assert(a@ =~= b@);
    }
    true
}

/// Does `s` start with `p`?
pub fn str_has_prefix(s: &str, p: &str) -> (r: bool)
    ensures
        r == spec_is_prefix(p@, s@),
{
    let ls = s.unicode_len();
    let lp = p.unicode_len();
    if lp > ls {
        return false;
    }
    let mut i: usize = 0;
    while i < lp
        invariant
            i <= lp,
            lp <= ls,
            ls == s@.len(),
            lp == p@.len(),
            forall|k: int| 0 <= k < i ==> s@[k] == p@[k],
        decreases lp - i,
    {
        if s.get_char(i) != p.get_char(i) {
            assert(s@.take(p@.len() as int)[i as int] != p@[i as int]);
            return false;
        }
        i += 1;
    }
    proof {
        assert(s@.take(p@.len() as int) =~= p@);
    }
    true
}

/// Index of the last `/` in `p`, or `-1` when there is none.
pub open spec fn last_slash_at(p: Seq<char>) -> int
    decreases p.len(),
{
    if p.len() == 0 {
        -1
    } else if p[p.len() - 1] == '/' {
        p.len() - 1
    } else {
        last_slash_at(p.drop_last())
    }
}

/// The parent directory of a path string: everything before the last `/`,
/// with `/x` giving `/` and a slashless string giving the empty string.
pub open spec fn spec_parent_of(p: Seq<char>) -> Seq<char> {
    let i = last_slash_at(p);
    if i < 0 {
        Seq::empty()
    } else if i == 0 {
        seq!['/']
    } else {
        p.take(i)
    }
}

/// Joining a directory and a child name with a single `/` between them.
pub open spec fn spec_join(d: Seq<char>, n: Seq<char>) -> Seq<char> {
    if d.len() > 0 && d[d.len() - 1] == '/' {
        d + n
    } else {
        d + seq!['/'] + n
    }
}

/// Everything before the last `/` of `p` (see [`spec_parent_of`]).
pub fn parent_of(p: &str) -> (r: String)
    ensures
        r@ == spec_parent_of(p@),
{
    let len = p.unicode_len();
    let mut i: usize = len;
    proof {
        assert(p@.take(len as int) =~= p@);
    }
    while i > 0
        invariant
            i <= len,
            len == p@.len(),
            forall|k: int| i <= k < len ==> p@[k] != '/',
            last_slash_at(p@) == last_slash_at(p@.take(i as int)),
        ensures
            0 <= i <= len,
            len == p@.len(),
            i > 0 ==> p@[i - 1] == '/' && last_slash_at(p@) == i - 1,
            i == 0 ==> last_slash_at(p@) < 0,
        decreases i,
    {
        if p.get_char(i - 1) == '/' {
            proof {
                assert(p@.take(i as int).last() == '/');
            }
            break;
        }
        proof {
            assert(p@.take(i as int).last() != '/');
            assert(p@.take(i as int).drop_last() =~= p@.take(i - 1));
        }
        i -= 1;
    }
    if i == 0 {
        String::new()
    } else if i == 1 {
        proof {
            reveal_strlit("/");
        }
        String::from_str("/")
    } else {
        String::from_str(p.substring_char(0, i - 1))
    }
}

/// The last slash of `p` is the one at `i` when nothing after `i` is one.
pub proof fn lemma_last_slash_unique(p: Seq<char>, i: int)
    requires
        0 <= i < p.len(),
        p[i] == '/',
        forall|k: int| i < k < p.len() ==> p[k] != '/',
    ensures
        last_slash_at(p) == i,
    decreases p.len(),
{
    if i < p.len() - 1 {
        lemma_last_slash_unique(p.drop_last(), i);
        assert(forall|k: int| 0 <= k < p.len() - 1 ==> p.drop_last()[k] == p[k]);
    }
}

/// Joining a slashless name onto a directory without a trailing slash (or
/// onto the filesystem root) and taking the parent gives the directory
/// back.
pub proof fn lemma_parent_of_join(d: Seq<char>, n: Seq<char>)
    requires
        d.len() > 0,
        d[d.len() - 1] != '/' || (d.len() == 1 && d[0] == '/'),
        n.len() > 0,
        forall|k: int| 0 <= k < n.len() ==> n[k] != '/',
    ensures
        spec_parent_of(spec_join(d, n)) == d,
{
    let j = spec_join(d, n);
    if d.len() == 1 && d[0] == '/' {
        assert(j =~= d + n);
        lemma_last_slash_unique(j, 0);
        assert(spec_parent_of(j) =~= d);
    } else {
        assert(j =~= d + seq!['/'] + n);
        assert(j[d.len() as int] == '/');
        lemma_last_slash_unique(j, d.len() as int);
        assert(j.take(d.len() as int) =~= d);
    }
}

/// Joining two names onto the same directory gives the same path only for
/// the same name.
pub proof fn lemma_join_cancel(d: Seq<char>, n1: Seq<char>, n2: Seq<char>)
    requires
        spec_join(d, n1) == spec_join(d, n2),
    ensures
        n1 == n2,
{
    if d.len() > 0 && d[d.len() - 1] == '/' {
        assert(n1 =~= (d + n1).skip(d.len() as int));
        assert(n2 =~= (d + n2).skip(d.len() as int));
    } else {
        assert(n1 =~= (d + seq!['/'] + n1).skip(d.len() as int + 1));
        assert(n2 =~= (d + seq!['/'] + n2).skip(d.len() as int + 1));
    }
}

/// `u` without its leading slashes.
pub open spec fn spec_trim_leading_slashes(u: Seq<char>) -> Seq<char>
    decreases u.len(),
{
    if u.len() > 0 && u[0] == '/' {
        spec_trim_leading_slashes(u.drop_first())
    } else {
        u
    }
}

/// `u` without its trailing slashes.
pub open spec fn spec_trim_trailing_slashes(u: Seq<char>) -> Seq<char>
    decreases u.len(),
{
    if u.len() > 0 && u[u.len() - 1] == '/' {
        spec_trim_trailing_slashes(u.drop_last())
    } else {
        u
    }
}

/// Trimming leading slashes keeps everything from the first non-slash on.
pub proof fn lemma_trim_leading_at(u: Seq<char>, i: int)
    requires
        0 <= i <= u.len(),
        forall|k: int| 0 <= k < i ==> u[k] == '/',
        i < u.len() ==> u[i] != '/',
    ensures
        spec_trim_leading_slashes(u) == u.skip(i),
    decreases i,
{
    if i == 0 {
        assert(u.skip(0) =~= u);
    } else {
        lemma_trim_leading_at(u.drop_first(), i - 1);
        assert(u.drop_first().skip(i - 1) =~= u.skip(i));
    }
}

/// Trimming trailing slashes keeps everything up to the last non-slash.
pub proof fn lemma_trim_trailing_at(u: Seq<char>, e: int)
    requires
        0 <= e <= u.len(),
        forall|k: int| e <= k < u.len() ==> u[k] == '/',
        e > 0 ==> u[e - 1] != '/',
    ensures
        spec_trim_trailing_slashes(u) == u.take(e),
    decreases u.len(),
{
    if e == u.len() {
        assert(u.take(e) =~= u);
    } else {
        lemma_trim_trailing_at(u.drop_last(), e);
        assert(u.drop_last().take(e) =~= u.take(e));
    }
}

/// Join a directory path and a child name with a single `/` (see
/// [`spec_join`]).
pub fn join_path(d: &str, n: &str) -> (r: String)
    ensures
        r@ == spec_join(d@, n@),
{
    let ld = d.unicode_len();
    proof {
        reveal_strlit("/");
    }
    if ld > 0 && d.get_char(ld - 1) == '/' {
        String::from_str(d).concat(n)
    } else {
        let r = String::from_str(d).concat("/").concat(n);
        proof {
            assert(r@ =~= d@ + seq!['/'] + n@);
        }
        r
    }
}

} // verus!
