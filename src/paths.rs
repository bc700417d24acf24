//! Paths as strings with `/` between their components.
use vstd::prelude::*;

verus! {

/// The position of the last `c` in `s`, or -1 where there is none.
pub open spec fn last_index_of(s: Seq<char>, c: char) -> int
    decreases s.len(),
{
    if s.len() == 0 {
        -1
    } else if s.last() == c {
        s.len() - 1
    } else {
        last_index_of(s.drop_last(), c)
    }
}

pub(crate) proof fn lemma_last_index_bounds(s: Seq<char>, c: char)
    ensures
        -1 <= last_index_of(s, c) < s.len(),
        last_index_of(s, c) >= 0 ==> s[last_index_of(s, c)] == c,
        forall|j: int| last_index_of(s, c) < j < s.len() ==> s[j] != c,
    decreases s.len(),
{
    if s.len() > 0 && s.last() != c {
        lemma_last_index_bounds(s.drop_last(), c);
        assert forall|j: int| last_index_of(s, c) < j < s.len() implies s[j] != c by {
            if j < s.len() - 1 {
                assert(s.drop_last()[j] == s[j]);
            }
        }
    }
}

/// A backward scan that stopped at `k` found the last `c`.
pub(crate) proof fn lemma_last_index_at(p: Seq<char>, c: char, k: int)
    requires
        0 <= k <= p.len(),
        forall|j: int| k <= j < p.len() ==> p[j] != c,
        k == 0 || p[k - 1] == c,
    ensures
        last_index_of(p, c) + 1 == k,
    decreases p.len(),
{
    if p.len() > 0 && p.len() > k {
        assert(p.last() != c);
        lemma_last_index_at(p.drop_last(), c, k);
    }
}

/// `p` with everything after the last dot of its last component replaced
/// by `ext`, or with `.ext` appended where its last component has no dot.
pub open spec fn ext_replaced(p: Seq<char>, ext: Seq<char>) -> Seq<char> {
    let d = last_index_of(p, '.');
    if d > last_index_of(p, '/') {
        p.subrange(0, d) + "."@ + ext
    } else {
        p + "."@ + ext
    }
}

/// The last `c` in `s`, searched from the end.
fn find_last(s: &str, c: char) -> (r: Option<usize>)
    ensures
        match r {
            Some(i) => i == last_index_of(s@, c),
            None => last_index_of(s@, c) == -1,
        },
{
    proof {
        lemma_last_index_bounds(s@, c);
    }
    let n = s.unicode_len();
    let mut k: usize = n;
    while k > 0
        invariant
            k <= n,
            n == s@.len(),
            forall|j: int| k <= j < n ==> s@[j] != c,
            -1 <= last_index_of(s@, c) < n,
            last_index_of(s@, c) >= 0 ==> s@[last_index_of(s@, c)] == c,
            forall|j: int| last_index_of(s@, c) < j < n ==> s@[j] != c,
        decreases k,
    {
        if s.get_char(k - 1) == c {
            return Some(k - 1);
        }
        k = k - 1;
    }
    None
}

/// Replaces the part after the last dot of the last component of
/// `file_path` with `new_extension`, or appends it after a dot where that
/// component has no dot.
pub fn replace_file_extension(file_path: &str, new_extension: &str) -> (r: String)
    ensures
        r@ == ext_replaced(file_path@, new_extension@),
{
    proof {
        lemma_last_index_bounds(file_path@, '.');
        lemma_last_index_bounds(file_path@, '/');
    }
    let dot = find_last(file_path, '.');
    let slash = find_last(file_path, '/');
    let mut r = match dot {
        Some(d) => {
            let after_slash = match slash {
                Some(s) => d > s,
                None => true,
            };
            if after_slash {
                String::from_str(file_path.substring_char(0, d))
            } else {
                String::from_str(file_path)
            }
        },
        None => String::from_str(file_path),
    };
    r.append(".");
    r.append(new_extension);
    r
}

/// The last component of `p`: what follows its last `/`.
pub open spec fn file_name_of(p: Seq<char>) -> Seq<char> {
    p.subrange(last_index_of(p, '/') + 1, p.len() as int)
}

/// The directory part of `p`: what precedes its last `/` (`/` itself where
/// that is the only one), or the empty path where it has none.
pub open spec fn parent_of(p: Seq<char>) -> Seq<char> {
    let i = last_index_of(p, '/');
    if i > 0 {
        p.subrange(0, i)
    } else if i == 0 {
        "/"@
    } else {
        Seq::empty()
    }
}

/// The file name of `p` without its extension: up to the last dot of the
/// name, unless that dot begins the name.
pub open spec fn file_stem_of(p: Seq<char>) -> Seq<char> {
    let name = file_name_of(p);
    let d = last_index_of(name, '.');
    if d > 0 {
        name.subrange(0, d)
    } else {
        name
    }
}

/// `rel` resolved against `base`: `rel` itself where it is absolute or
/// `base` is empty, else the two with one `/` between them.
pub open spec fn joined(base: Seq<char>, rel: Seq<char>) -> Seq<char> {
    if rel.len() > 0 && rel[0] == '/' {
        rel
    } else if base.len() == 0 {
        rel
    } else if base.last() == '/' {
        base + rel
    } else {
        base + "/"@ + rel
    }
}

/// The last component of `path`.
pub fn file_name(path: &str) -> (r: String)
    ensures
        r@ == file_name_of(path@),
{
    proof {
        lemma_last_index_bounds(path@, '/');
    }
    let n = path.unicode_len();
    match find_last(path, '/') {
        Some(i) => String::from_str(path.substring_char(i + 1, n)),
        None => String::from_str(path.substring_char(0, n)),
    }
}

/// The directory that holds `path`.
pub fn parent_dir(path: &str) -> (r: String)
    ensures
        r@ == parent_of(path@),
{
    proof {
        lemma_last_index_bounds(path@, '/');
    }
    match find_last(path, '/') {
        Some(i) => if i > 0 {
            String::from_str(path.substring_char(0, i))
        } else {
            String::from_str("/")
        },
        None => String::new(),
    }
}

/// The name of the file at `path` without its extension.
pub fn file_stem(path: &str) -> (r: String)
    ensures
        r@ == file_stem_of(path@),
{
    let name = file_name(path);
    proof {
        lemma_last_index_bounds(name@, '.');
    }
    match find_last(name.as_str(), '.') {
        Some(d) => if d > 0 {
            String::from_str(name.as_str().substring_char(0, d))
        } else {
            name
        },
        None => name,
    }
}

/// `rel` resolved against the directory `base`.
pub fn join_path(base: &str, rel: &str) -> (r: String)
    ensures
        r@ == joined(base@, rel@),
{
    let n = base.unicode_len();
    if rel.unicode_len() > 0 && rel.get_char(0) == '/' {
        String::from_str(rel)
    } else if n == 0 {
        String::from_str(rel)
    } else if base.get_char(n - 1) == '/' {
        let mut r = String::from_str(base);
        r.append(rel);
        r
    } else {
        let mut r = String::from_str(base);
        r.append("/");
        r.append(rel);
        r
    }
}

} // verus!
