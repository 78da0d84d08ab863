//! Absolute paths as plain strings: the last component, the parent
//! directory, and joining a directory with an entry name.

use vstd::prelude::*;
use crate::outcome::RepoError;

verus! {

/// Index of the last `/` of the string, or `-1` where it has none.
pub open spec fn last_slash(s: Seq<char>) -> int
    decreases s.len(),
{
    if s.len() == 0 {
        -1
    } else if s.last() == '/' {
        s.len() - 1
    } else {
        last_slash(s.drop_last())
    }
}

/// The path with trailing slashes and trailing current-directory (`.`)
/// components removed: what remains names the same filesystem object.
pub open spec fn trimmed(s: Seq<char>) -> Seq<char>
    decreases s.len(),
{
    if s.len() > 0 && s.last() == '/' {
        trimmed(s.drop_last())
    } else if s.len() > 0 && s.last() == '.' && (s.len() == 1 || s[s.len() - 2] == '/') {
        trimmed(s.drop_last())
    } else {
        s
    }
}

/// The path's last real component: everything after the last `/` once
/// trailing slashes and `.` components are stripped; the whole trimmed
/// string where no `/` remains.
pub open spec fn base_of(s: Seq<char>) -> Seq<char> {
    trimmed(s).subrange(last_slash(trimmed(s)) + 1, trimmed(s).len() as int)
}

/// The path carries a usable file name: a nonempty last real component
/// that does not name the parent directory.
pub open spec fn base_ok(s: Seq<char>) -> bool {
    base_of(s).len() > 0 && base_of(s) != ".."@
}

/// A well-formed absolute path: starts at the root, has no empty
/// component, and only the root itself ends with a `/`.
pub open spec fn is_abs_path(s: Seq<char>) -> bool {
    &&& s.len() >= 1
    &&& s[0] == '/'
    &&& (s.len() == 1 || s.last() != '/')
    &&& forall|i: int| 0 < i < s.len() ==> !(s[i] == '/' && #[trigger] s[i - 1] == '/')
}

/// The parent directory: the path cut at its last `/`, or the root.
pub open spec fn parent_path_spec(p: Seq<char>) -> Seq<char> {
    if last_slash(p) <= 0 {
        seq!['/']
    } else {
        p.subrange(0, last_slash(p))
    }
}

/// The directory path extended with one entry name.
pub open spec fn join_path_spec(d: Seq<char>, n: Seq<char>) -> Seq<char> {
    if d == seq!['/'] {
        seq!['/'] + n
    } else {
        d + seq!['/'] + n
    }
}

pub proof fn lemma_last_slash_bounds(s: Seq<char>)
    ensures
        -1 <= last_slash(s) < s.len(),
    decreases s.len(),
{
    if s.len() > 0 && s.last() != '/' {
        lemma_last_slash_bounds(s.drop_last());
    }
}

/// Behind the last slash stand no further slashes, and the last slash
/// is indeed a slash.
pub proof fn lemma_last_slash_after(s: Seq<char>)
    ensures
        last_slash(s) >= 0 ==> s[last_slash(s)] == '/',
        forall|i: int| last_slash(s) < i < s.len() ==> s[i] != '/',
    decreases s.len(),
{
    lemma_last_slash_bounds(s);
    if s.len() > 0 && s.last() != '/' {
        lemma_last_slash_after(s.drop_last());
        lemma_last_slash_bounds(s.drop_last());
        assert(forall|i: int|
            last_slash(s) < i < s.len() - 1 ==> s.drop_last()[i] == #[trigger] s[i]);
    }
}

/// The slash at `k` with no slash behind it is the last one.
pub proof fn lemma_last_slash_at(s: Seq<char>, k: int)
    requires
        0 <= k < s.len(),
        s[k] == '/',
        forall|i: int| k < i < s.len() ==> s[i] != '/',
    ensures
        last_slash(s) == k,
    decreases s.len(),
{
    if k == s.len() - 1 {
    } else {
        assert(s.last() != '/');
        assert(forall|i: int| k < i < s.len() - 1 ==> s.drop_last()[i] == #[trigger] s[i]);
        lemma_last_slash_at(s.drop_last(), k);
    }
}

pub proof fn lemma_last_slash_none(s: Seq<char>)
    requires
        forall|i: int| 0 <= i < s.len() ==> s[i] != '/',
    ensures
        last_slash(s) == -1,
    decreases s.len(),
{
    if s.len() > 0 {
        lemma_last_slash_none(s.drop_last());
    }
}

/// The last component holds no slash.
pub proof fn lemma_base_no_slash(s: Seq<char>)
    ensures
        forall|i: int| 0 <= i < base_of(s).len() ==> base_of(s)[i] != '/',
{
    let t = trimmed(s);
    lemma_last_slash_bounds(t);
    lemma_last_slash_after(t);
    assert forall|i: int| 0 <= i < base_of(s).len() implies base_of(s)[i] != '/' by {
        assert(base_of(s)[i] == t[last_slash(t) + 1 + i]);
    }
}

/// A path starting at the root has a slash somewhere.
pub proof fn lemma_abs_has_slash(s: Seq<char>)
    requires
        s.len() >= 1,
        s[0] == '/',
    ensures
        last_slash(s) >= 0,
    decreases s.len(),
{
    if s.len() > 1 && s.last() != '/' {
        lemma_abs_has_slash(s.drop_last());
    }
}

/// The parent of a well-formed absolute path below the root is again
/// well formed and strictly shorter.
pub proof fn lemma_parent_abs(p: Seq<char>)
    requires
        is_abs_path(p),
        p.len() > 1,
    ensures
        is_abs_path(parent_path_spec(p)),
        parent_path_spec(p).len() < p.len(),
{
    lemma_abs_has_slash(p);
    lemma_last_slash_bounds(p);
    lemma_last_slash_after(p);
    let j = last_slash(p);
    assert(p.last() != '/');
    assert(j < p.len() - 1);
    if j > 0 {
        let q = p.subrange(0, j);
        assert(q[0] == '/');
        assert(!(p[j] == '/' && p[j - 1] == '/'));
        assert(q.last() == p[j - 1]);
        assert(forall|i: int|
            0 < i < q.len() ==> !(q[i] == '/' && #[trigger] q[i - 1] == '/'));
    }
}

/// The last component of a join is the name joined on, provided the
/// name holds no slash, is nonempty and does not name the current
/// directory (the join is then already trimmed).
pub proof fn lemma_join_base(d: Seq<char>, n: Seq<char>)
    requires
        forall|i: int| 0 <= i < n.len() ==> n[i] != '/',
        n.len() > 0,
        n != "."@,
    ensures
        base_of(join_path_spec(d, n)) == n,
        last_slash(join_path_spec(d, n)) == if d == seq!['/'] {
            0int
        } else {
            d.len() as int
        },
{
    let w = join_path_spec(d, n);
    assert(w.last() == n.last());
    assert(w.len() >= 2);
    reveal_strlit(".");
    if w.last() == '.' {
        if n.len() == 1 {
            assert(w[w.len() - 2] == '/');
            assert(n =~= "."@);
        } else {
            assert(w[w.len() - 2] == n[n.len() - 2]);
        }
    }
    assert(trimmed(w) == w);
    if d == seq!['/'] {
        assert(w[0] == '/');
        assert(forall|i: int| 0 < i < w.len() ==> w[i] == n[i - 1]);
        lemma_last_slash_at(w, 0);
        assert(base_of(w) =~= n);
    } else {
        let j = d.len() as int;
        assert(w[j] == '/');
        assert(forall|i: int| j < i < w.len() ==> w[i] == n[i - j - 1]);
        lemma_last_slash_at(w, j);
        assert(base_of(w) =~= n);
    }
}

/// Scans the string up to `end` for its last slash there; the result is
/// the index right after it (`0` where there is none).
fn find_after_last_slash(s: &str, end: usize) -> (r: usize)
    requires
        end <= s@.len(),
    ensures
        r as int == last_slash(s@.subrange(0, end as int)) + 1,
{
    let mut k: usize = end;
    while k > 0
        invariant
            0 <= k <= end <= s@.len(),
            forall|i: int| k <= i < end ==> s@[i] != '/',
        decreases k,
    {
        if s.get_char(k - 1) == '/' {
            proof {
                assert(s@.subrange(0, end as int)[k - 1] == '/');
                assert(forall|i: int|
                    k - 1 < i < end ==> s@.subrange(0, end as int)[i] == #[trigger] s@[i]);
                lemma_last_slash_at(s@.subrange(0, end as int), k - 1);
            }
            return k;
        }
        k = k - 1;
    }
    proof {
        lemma_last_slash_none(s@.subrange(0, end as int));
    }
    0
}

/// Reads the file name off a path: its last real component, trailing
/// slashes and `.` components stripped first. Fails where nothing is
/// left or the component names the parent directory.
pub fn extract_file_name(path: &String) -> (r: Result<String, RepoError>)
    ensures
        match r {
            Ok(n) => base_ok(path@) && n@ == base_of(path@),
            Err(e) => !base_ok(path@) && e == RepoError::InvalidFileName,
        },
{
    let s = path.as_str();
    let len = s.unicode_len();
    let mut e: usize = len;
    proof {
        assert(s@.subrange(0, len as int) =~= s@);
    }
    while e > 0 && (s.get_char(e - 1) == '/' || (s.get_char(e - 1) == '.' && (e == 1 || s.get_char(
        e - 2,
    ) == '/')))
        invariant
            0 <= e <= len,
            len == s@.len(),
            trimmed(s@) == trimmed(s@.subrange(0, e as int)),
        decreases e,
    {
        proof {
            let pre = s@.subrange(0, e as int);
            assert(pre.last() == s@[e - 1]);
            if e >= 2 {
                assert(pre[e - 2] == s@[e - 2]);
            }
            assert(pre.drop_last() =~= s@.subrange(0, e - 1));
        }
        e = e - 1;
    }
    let ghost t = trimmed(path@);
    proof {
        let pre = s@.subrange(0, e as int);
        if e > 0 {
            assert(pre.last() == s@[e - 1]);
            if e >= 2 {
                assert(pre[e - 2] == s@[e - 2]);
            }
        }
        assert(trimmed(pre) == pre);
        assert(t == pre);
        lemma_last_slash_bounds(t);
    }
    let start = find_after_last_slash(s, e);
    let base = s.substring_char(start, e).to_owned();
    proof {
        assert(base@ =~= base_of(path@));
    }
    if base.as_str().unicode_len() == 0 {
        return Err(RepoError::InvalidFileName);
    }
    let dotdot = String::from_str("..");
    if base == dotdot {
        return Err(RepoError::InvalidFileName);
    }
    Ok(base)
}

/// Whether the string is a well-formed absolute path: it starts at the
/// root, has no empty component, and only the root ends with a slash.
pub fn path_is_absolute(path: &String) -> (r: bool)
    ensures
        r == is_abs_path(path@),
{
    let s = path.as_str();
    let len = s.unicode_len();
    if len == 0 {
        return false;
    }
    if s.get_char(0) != '/' {
        return false;
    }
    if len > 1 && s.get_char(len - 1) == '/' {
        proof {
            assert(s@.last() == '/');
        }
        return false;
    }
    let mut i: usize = 1;
    while i < len
        invariant
            1 <= i <= len,
            len == s@.len(),
            s@ == path@,
            forall|j: int| 0 < j < i ==> !(s@[j] == '/' && #[trigger] s@[j - 1] == '/'),
        decreases len - i,
    {
        if s.get_char(i) == '/' && s.get_char(i - 1) == '/' {
            proof {
                assert(path@[i as int] == '/' && path@[i as int - 1] == '/');
                assert(!is_abs_path(path@));
            }
            return false;
        }
        i = i + 1;
    }
    true
}

/// The parent directory of a path: the path cut at its last slash.
pub fn parent_path(path: &String) -> (r: String)
    ensures
        r@ == parent_path_spec(path@),
{
    let s = path.as_str();
    let after = find_after_last_slash(s, s.unicode_len());
    proof {
        assert(s@.subrange(0, s@.len() as int) =~= s@);
        lemma_last_slash_bounds(s@);
    }
    if after <= 1 {
        let root = String::from_str("/");
        proof {
            reveal_strlit("/");
            assert(root@ =~= seq!['/']);
        }
        root
    } else {
        let r = s.substring_char(0, after - 1).to_owned();
        proof {
            assert(r@ =~= parent_path_spec(path@));
        }
        r
    }
}

/// A directory path extended with one entry name.
pub fn join_path(dir: &String, name: &str) -> (r: String)
    ensures
        r@ == join_path_spec(dir@, name@),
{
    let root = String::from_str("/");
    proof {
        reveal_strlit("/");
        assert(root@ =~= seq!['/']);
    }
    if *dir == root {
        let mut r = root;
        r.append(name);
        proof {
            assert(r@ =~= join_path_spec(dir@, name@));
        }
        r
    } else {
        let mut r = dir.clone();
        r.append("/");
        r.append(name);
        proof {
            assert(r@ =~= join_path_spec(dir@, name@));
        }
        r
    }
}

} // verus!
