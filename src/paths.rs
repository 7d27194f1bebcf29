//! Paths as `/`-separated text: parent, last component and containment.
use vstd::prelude::*;
use crate::text::{chars_of, string_of};

verus! {

/// `s` without trailing separators, keeping a lone `/`.
pub open spec fn strip_slashes(s: Seq<char>) -> Seq<char>
    decreases s.len(),
{
    if s.len() > 1 && s.last() == '/' {
        strip_slashes(s.drop_last())
    } else {
        s
    }
}

/// Index of the last `/` in `s`, or -1.
pub open spec fn last_slash(s: Seq<char>) -> int
    decreases s.len(),
{
    if s.len() == 0 {
        -1
    } else if s.last() == '/' {
        s.len() - 1
    } else {
        last_slash(s.drop_last())
    }
}

/// The parent directory of `s`; none for the root `/` and for the empty path.
pub open spec fn parent(s: Seq<char>) -> Option<Seq<char>> {
    let t = strip_slashes(s);
    if t.len() == 0 || t == seq!['/'] {
        None
    } else {
        let i = last_slash(t);
        if i < 0 {
            Some(Seq::empty())
        } else if i == 0 {
            Some(seq!['/'])
        } else {
            Some(strip_slashes(t.take(i)))
        }
    }
}

/// `s` without trailing separators and trailing `.` components, keeping a lone `/`.
pub open spec fn base_path(s: Seq<char>) -> Seq<char>
    decreases s.len(),
{
    if s.len() > 1 && s.last() == '/' {
        base_path(s.drop_last())
    } else if s.len() >= 2 && s.last() == '.' && s[s.len() - 2] == '/' {
        base_path(s.drop_last())
    } else {
        s
    }
}

/// The last component of `s`, as `Path::file_name` reads it: trailing `.` components
/// are skipped, and a final `..` (or a lone `.`) has no name (empty here, as for `/`).
pub open spec fn file_name(s: Seq<char>) -> Seq<char> {
    let t = base_path(s);
    let c = t.skip(last_slash(t) + 1);
    if c == seq!['.', '.'] || c == seq!['.'] { Seq::empty() } else { c }
}

/// The character before `n` is a trailing separator or closes a trailing `/.`.
pub open spec fn droppable(s: Seq<char>, n: int) -> bool {
    s[n - 1] == '/' || (n >= 2 && s[n - 1] == '.' && s[n - 2] == '/')
}

proof fn lemma_base(s: Seq<char>, m: int)
    requires
        1 <= m <= s.len() || (m == 0 && s.len() == 0),
        forall|n: int| m < n <= s.len() ==> #[trigger] droppable(s, n),
        !(m > 1 && s[m - 1] == '/'),
        !(m >= 2 && s[m - 1] == '.' && s[m - 2] == '/'),
    ensures
        base_path(s) == s.take(m),
    decreases s.len() - m,
{
    if m == s.len() {
        assert(s.take(m) =~= s);
    } else {
        let t = s.drop_last();
        assert(droppable(s, s.len() as int));
        assert(s.len() > 1);
        assert forall|n: int| m < n <= t.len() implies #[trigger] droppable(t, n) by {
            assert(droppable(s, n));
            assert(t[n - 1] == s[n - 1]);
            if n >= 2 {
                assert(t[n - 2] == s[n - 2]);
            }
        }
        if m >= 1 {
            assert(t[m - 1] == s[m - 1]);
        }
        if m >= 2 {
            assert(t[m - 2] == s[m - 2]);
        }
        lemma_base(t, m);
        assert(t.take(m) =~= s.take(m));
    }
}

/// Length of `base_path(v[..n])`.
fn base_len(v: &Vec<char>, n: usize) -> (m: usize)
    requires
        n <= v.len(),
    ensures
        m <= n,
        base_path(v@.take(n as int)) == v@.take(m as int),
{
    let mut m: usize = n;
    while m > 1 && (v[m - 1] == '/' || (v[m - 1] == '.' && v[m - 2] == '/'))
        invariant
            m <= n <= v.len(),
            n == 0 ==> m == 0,
            n > 0 ==> m >= 1,
            forall|k: int| m < k <= n ==> #[trigger] droppable(v@, k),
        decreases m,
    {
        m = m - 1;
    }
    proof {
        let s = v@.take(n as int);
        assert forall|k: int| m < k <= s.len() implies #[trigger] droppable(s, k) by {
            assert(droppable(v@, k));
            assert(s[k - 1] == v@[k - 1]);
            if k >= 2 {
                assert(s[k - 2] == v@[k - 2]);
            }
        }
        if m >= 1 {
            assert(s[m - 1] == v@[m - 1]);
        }
        if m >= 2 {
            assert(s[m - 2] == v@[m - 2]);
        }
        lemma_base(s, m as int);
        assert(s.take(m as int) =~= v@.take(m as int));
    }
    m
}

/// `d` is `r` or lies below it, component by component.
pub open spec fn within(d: Seq<char>, r: Seq<char>) -> bool {
    d == r || (r.len() < d.len() && d.take(r.len() as int) == r && ((r.len() > 0 && r.last() == '/')
        || d[r.len() as int] == '/'))
}

proof fn lemma_strip(s: Seq<char>, m: int)
    requires
        1 <= m <= s.len() || (m == 0 && s.len() == 0),
        forall|i: int| m <= i < s.len() ==> #[trigger] s[i] == '/',
        m <= 1 || s[m - 1] != '/',
    ensures
        strip_slashes(s) == s.take(m),
    decreases s.len() - m,
{
    if m == s.len() {
        assert(s.take(m) =~= s);
    } else {
        let t = s.drop_last();
        assert forall|i: int| m <= i < t.len() implies #[trigger] t[i] == '/' by {
            assert(t[i] == s[i]);
        }
        lemma_strip(t, m);
        assert(t.take(m) =~= s.take(m));
    }
}

/// Length of `strip_slashes(v[..n])`.
fn strip_len(v: &Vec<char>, n: usize) -> (m: usize)
    requires
        n <= v.len(),
    ensures
        m <= n,
        strip_slashes(v@.take(n as int)) == v@.take(m as int),
{
    let mut m: usize = n;
    while m > 1 && v[m - 1] == '/'
        invariant
            m <= n <= v.len(),
            n == 0 ==> m == 0,
            n > 0 ==> m >= 1,
            forall|i: int| m <= i < n ==> #[trigger] v@[i] == '/',
        decreases m,
    {
        m = m - 1;
    }
    proof {
        let s = v@.take(n as int);
        assert forall|i: int| m <= i < s.len() implies #[trigger] s[i] == '/' by {
            assert(s[i] == v@[i]);
        }
        if m > 1 {
            assert(s[m - 1] == v@[m - 1]);
        }
        lemma_strip(s, m as int);
        assert(s.take(m as int) =~= v@.take(m as int));
    }
    m
}

proof fn lemma_last_slash(s: Seq<char>, k: int)
    requires
        -1 <= k < s.len(),
        k >= 0 ==> s[k] == '/',
        forall|i: int| k < i < s.len() ==> #[trigger] s[i] != '/',
    ensures
        last_slash(s) == k,
    decreases s.len(),
{
    if s.len() > 0 && s.len() - 1 != k {
        let t = s.drop_last();
        assert forall|i: int| k < i < t.len() implies #[trigger] t[i] != '/' by {
            assert(t[i] == s[i]);
        }
        if k >= 0 {
            assert(t[k] == s[k]);
        }
        lemma_last_slash(t, k);
    }
}

/// `last_slash(v[..n])`.
fn find_last_slash(v: &Vec<char>, n: usize) -> (k: Option<usize>)
    requires
        n <= v.len(),
    ensures
        match k {
            Some(i) => i < n && last_slash(v@.take(n as int)) == i && v@[i as int] == '/',
            None => last_slash(v@.take(n as int)) == -1,
        },
{
    let mut i: usize = n;
    while i > 0 && v[i - 1] != '/'
        invariant
            i <= n <= v.len(),
            forall|j: int| i <= j < n ==> #[trigger] v@[j] != '/',
        decreases i,
    {
        i = i - 1;
    }
    let s = Ghost(v@.take(n as int));
    proof {
        assert forall|j: int| i <= j < s@.len() implies #[trigger] s@[j] != '/' by {
            assert(s@[j] == v@[j]);
        }
        if i > 0 {
            assert(s@[i - 1] == v@[i - 1]);
            assert forall|j: int| i - 1 < j < s@.len() implies #[trigger] s@[j] != '/' by {
                assert(s@[j] == v@[j]);
            }
        }
        lemma_last_slash(s@, i - 1);
    }
    if i == 0 { None } else { Some(i - 1) }
}

/// The parent directory of `path`, as text.
pub fn parent_of(path: &str) -> (r: Option<String>)
    ensures
        match parent(path@) {
            Some(p) => r is Some && r->0@ == p,
            None => r is None,
        },
        r is Some ==> r->0@.len() < path@.len(),
{
    let v = chars_of(path);
    assert(v@.take(v.len() as int) =~= v@);
    let m = strip_len(&v, v.len());
    let ghost t = v@.take(m as int);
    if m == 0 || (m == 1 && v[0] == '/') {
        proof {
            if m == 1 {
                assert(t =~= seq!['/']);
            }
        }
        return None;
    }
    assert(t != seq!['/']) by {
        if m == 1 {
            assert(t[0] == v@[0]);
        }
    }
    match find_last_slash(&v, m) {
        None => Some(String::new()),
        Some(i) => {
            if i == 0 {
                let mut s = String::new();
                crate::text::push_char(&mut s, '/');
                assert(s@ =~= seq!['/']);
                Some(s)
            } else {
                let k = strip_len(&v, i);
                assert(t.take(i as int) =~= v@.take(i as int));
                let mut out: Vec<char> = Vec::new();
                let mut j: usize = 0;
                while j < k
                    invariant
                        j <= k <= i < m <= v.len(),
                        out@ == v@.take(j as int),
                    decreases k - j,
                {
                    out.push(v[j]);
                    assert(v@.take(j + 1) =~= v@.take(j as int).push(v@[j as int]));
                    j = j + 1;
                }
                Some(string_of(&out))
            }
        }
    }
}

/// The last component of `path` (empty for `/`).
pub fn file_name_of(path: &str) -> (r: String)
    ensures
        r@ == file_name(path@),
{
    let v = chars_of(path);
    assert(v@.take(v.len() as int) =~= v@);
    let m = base_len(&v, v.len());
    let start: usize = match find_last_slash(&v, m) {
        None => 0,
        Some(i) => i + 1,
    };
    let mut out: Vec<char> = Vec::new();
    let mut j: usize = start;
    while j < m
        invariant
            start <= j <= m <= v.len(),
            out@ == v@.subrange(start as int, j as int),
        decreases m - j,
    {
        out.push(v[j]);
        assert(v@.subrange(start as int, j + 1) =~= v@.subrange(start as int, j as int).push(v@[j as int]));
        j = j + 1;
    }
    assert(v@.take(m as int).skip(start as int) =~= v@.subrange(start as int, m as int));
    let dots = (out.len() == 2 && out[0] == '.' && out[1] == '.') || (out.len() == 1 && out[0] == '.');
    proof {
        if out@.len() == 2 && out@[0] == '.' && out@[1] == '.' {
            assert(out@ =~= seq!['.', '.']);
        }
        if out@.len() == 1 && out@[0] == '.' {
            assert(out@ =~= seq!['.']);
        }
    }
    if dots {
        return String::new();
    }
    string_of(&out)
}

/// Whether `dir` is `root` or lies below it.
pub fn is_within(dir: &str, root: &str) -> (r: bool)
    ensures
        r == within(dir@, root@),
{
    let d = chars_of(dir);
    let rt = chars_of(root);
    if d.len() == rt.len() {
        let mut i: usize = 0;
        while i < d.len()
            invariant
                d.len() == rt.len(),
                d@ == dir@,
                rt@ == root@,
                i <= d.len(),
                forall|j: int| 0 <= j < i ==> d@[j] == rt@[j],
            decreases d.len() - i,
        {
            if d[i] != rt[i] {
                assert(d@[i as int] != rt@[i as int]);
                assert(d@ != rt@);
                return false;
            }
            i = i + 1;
        }
        assert(d@ =~= rt@);
        return true;
    }
    if rt.len() > d.len() {
        assert(d@.len() != rt@.len());
        return false;
    }
    assert(d@.len() != rt@.len());
    let mut i: usize = 0;
    while i < rt.len()
        invariant
            rt.len() < d.len(),
            d@ == dir@,
            rt@ == root@,
            i <= rt.len(),
            forall|j: int| 0 <= j < i ==> d@[j] == rt@[j],
        decreases rt.len() - i,
    {
        if d[i] != rt[i] {
            assert(d@.take(rt.len() as int)[i as int] != rt@[i as int]);
            assert(d@.take(rt.len() as int) != rt@);
            return false;
        }
        i = i + 1;
    }
    assert(d@.take(rt.len() as int) =~= rt@);
    (rt.len() > 0 && rt[rt.len() - 1] == '/') || d[rt.len()] == '/'
}

} // verus!
