use vstd::prelude::*;
use vstd::string::*;

verus! {

/// A path is absolute when it starts at the root, that is with a separator.
pub open spec fn is_absolute(path: Seq<char>) -> bool {
    path.len() > 0 && path[0] == '/'
}

/// Length of `path` once the separators at its end are left out.
pub open spec fn trimmed_len(path: Seq<char>) -> nat
    decreases path.len(),
{
    if path.len() > 0 && path.last() == '/' {
        trimmed_len(path.drop_last())
    } else {
        path.len()
    }
}

/// Number of separators at the front of `path`.
pub open spec fn leading_separators(path: Seq<char>) -> nat
    decreases path.len(),
{
    if path.len() > 0 && path[0] == '/' {
        1 + leading_separators(path.drop_first())
    } else {
        0
    }
}

/// True when `path` names `base` itself or something below it: `path`
/// begins with `base`, separators at the end of `base` set aside, and goes
/// on with a separator or not at all.
pub open spec fn is_under(path: Seq<char>, base: Seq<char>) -> bool {
    let n = trimmed_len(base) as int;
    n <= path.len() && path.subrange(0, n) == base.subrange(0, n) && (n == path.len() || path[n]
        == '/')
}

/// What is left of `path` below `base`: the part after `base` and after the
/// separators that follow it. Empty when `path` names `base` itself.
pub open spec fn relative_to(path: Seq<char>, base: Seq<char>) -> Seq<char> {
    let rest = path.skip(trimmed_len(base) as int);
    rest.skip(leading_separators(rest) as int)
}

/// `trimmed_len` is the end of the last character that is no separator.
pub proof fn lemma_trimmed_len(path: Seq<char>, n: int)
    requires
        0 <= n <= path.len(),
        forall|i: int| n <= i < path.len() ==> path[i] == '/',
        n > 0 ==> path[n - 1] != '/',
    ensures
        trimmed_len(path) == n,
    decreases path.len(),
{
    if n < path.len() {
        let t = path.drop_last();
        assert(path.last() == '/');
        lemma_trimmed_len(t, n);
    }
}

/// `leading_separators` is the start of the first character that is no
/// separator.
pub proof fn lemma_leading_separators(path: Seq<char>, n: int)
    requires
        0 <= n <= path.len(),
        forall|i: int| 0 <= i < n ==> path[i] == '/',
        n < path.len() ==> path[n] != '/',
    ensures
        leading_separators(path) == n,
    decreases path.len(),
{
    if n > 0 {
        let t = path.drop_first();
        assert(path[0] == '/');
        assert forall|i: int| 0 <= i < n - 1 implies t[i] == '/' by {
            assert(t[i] == path[i + 1]);
        }
        if n - 1 < t.len() {
            assert(t[n - 1] == path[n]);
        }
        lemma_leading_separators(t, n - 1);
    }
}

/// Tells whether `path` starts at the root.
pub fn is_absolute_path(path: &str) -> (r: bool)
    ensures
        r == is_absolute(path@),
{
    path.unicode_len() > 0 && path.get_char(0) == '/'
}

/// Length in characters of `path` without the separators at its end.
fn trimmed_length(path: &str) -> (n: usize)
    ensures
        n == trimmed_len(path@),
        n <= path@.len(),
{
    let mut n = path.unicode_len();
    while n > 0 && path.get_char(n - 1) == '/'
        invariant
            0 <= n <= path@.len(),
            forall|i: int| n <= i < path@.len() ==> path@[i] == '/',
        decreases n,
    {
        n -= 1;
    }
    proof {
        lemma_trimmed_len(path@, n as int);
    }
    n
}

/// Tells whether `path` names `base` or something below it.
pub fn path_is_under(path: &str, base: &str) -> (r: bool)
    ensures
        r == is_under(path@, base@),
{
    let n = trimmed_length(base);
    let len = path.unicode_len();
    if n > len {
        return false;
    }
    let mut i: usize = 0;
    while i < n
        invariant
            0 <= i <= n,
            n <= len,
            len == path@.len(),
            n <= base@.len(),
            n == trimmed_len(base@),
            forall|j: int| 0 <= j < i ==> path@[j] == base@[j],
        decreases n - i,
    {
        if path.get_char(i) != base.get_char(i) {
            proof {
                let k = i as int;
                assert(path@.subrange(0, n as int)[k] == path@[k]);
                assert(base@.subrange(0, n as int)[k] == base@[k]);
            }
            return false;
        }
        i += 1;
    }
    proof {
        assert(path@.subrange(0, n as int) =~= base@.subrange(0, n as int));
    }
    n == len || path.get_char(n) == '/'
}

/// The part of `path` below `base`.
pub fn path_relative_to(path: &str, base: &str) -> (rel: String)
    requires
        is_under(path@, base@),
    ensures
        rel@ == relative_to(path@, base@),
{
    let n = trimmed_length(base);
    let len = path.unicode_len();
    let mut i: usize = n;
    while i < len && path.get_char(i) == '/'
        invariant
            n <= i <= len,
            len == path@.len(),
            forall|j: int| n <= j < i ==> path@[j] == '/',
        decreases len - i,
    {
        i += 1;
    }
    proof {
        let rest = path@.skip(n as int);
        assert forall|j: int| 0 <= j < i - n implies rest[j] == '/' by {
            assert(rest[j] == path@[j + n]);
        }
        lemma_leading_separators(rest, i - n);
        assert(rest.skip(i - n) =~= path@.subrange(i as int, len as int));
    }
    path.substring_char(i, len).to_owned()
}

} // verus!
