//! Discovery of content files: the markdown files of a tree, in descending
//! order of their file names.
use vstd::prelude::*;
use crate::paths::{file_name, file_name_of, last_index_of, lemma_last_index_at};

verus! {

broadcast use vstd::seq_lib::group_to_multiset_ensures;

/// `a` comes before `b` in the order of their characters' code points, a
/// proper prefix first.
pub open spec fn lex_lt(a: Seq<char>, b: Seq<char>) -> bool
    decreases a.len(),
{
    if b.len() == 0 {
        false
    } else if a.len() == 0 {
        true
    } else if a[0] as u32 != b[0] as u32 {
        (a[0] as u32) < (b[0] as u32)
    } else {
        lex_lt(a.drop_first(), b.drop_first())
    }
}

/// The file at `p` is a markdown file: its name has the extension `md`.
pub open spec fn is_markdown_path(p: Seq<char>) -> bool {
    let name = file_name_of(p);
    let d = last_index_of(name, '.');
    d > 0 && name.subrange(d + 1, name.len() as int) == "md"@
}

/// The markdown files among `s`, in their order.
pub open spec fn markdown_paths(s: Seq<String>) -> Seq<String>
    decreases s.len(),
{
    if s.len() == 0 {
        Seq::empty()
    } else if is_markdown_path(s.last()@) {
        markdown_paths(s.drop_last()).push(s.last())
    } else {
        markdown_paths(s.drop_last())
    }
}

/// Each file's name comes at or after the next one's.
pub open spec fn names_descending(s: Seq<String>) -> bool {
    forall|i: int, j: int| 0 <= i < j < s.len() ==> !lex_lt(file_name_of(s[i]@), file_name_of(s[j]@))
}

/// The files of `s` whose file name is `n`, in their order.
pub open spec fn with_name(s: Seq<String>, n: Seq<char>) -> Seq<String>
    decreases s.len(),
{
    if s.len() == 0 {
        Seq::empty()
    } else if file_name_of(s.last()@) == n {
        with_name(s.drop_last(), n).push(s.last())
    } else {
        with_name(s.drop_last(), n)
    }
}

proof fn lemma_with_name_insert(s: Seq<String>, k: int, x: String, n: Seq<char>)
    requires
        0 <= k <= s.len(),
        forall|m: int| k <= m < s.len() ==> file_name_of(s[m]@) != file_name_of(x@),
    ensures
        with_name(s.insert(k, x), n) == if file_name_of(x@) == n {
            with_name(s, n).push(x)
        } else {
            with_name(s, n)
        },
    decreases s.len(),
{
    if k == s.len() {
        assert(s.insert(k, x).drop_last() =~= s);
    } else {
        let p = s.drop_last();
        assert(s.insert(k, x).drop_last() =~= p.insert(k, x));
        assert(s.insert(k, x).last() == s.last());
        assert forall|m: int| k <= m < p.len() implies file_name_of(p[m]@) != file_name_of(x@) by {
            assert(p[m] == s[m]);
        }
        lemma_with_name_insert(p, k, x, n);
    }
}

proof fn lemma_lex_asym(a: Seq<char>, b: Seq<char>)
    requires
        lex_lt(a, b),
    ensures
        !lex_lt(b, a),
    decreases a.len(),
{
    if a.len() > 0 && b.len() > 0 && a[0] as u32 == b[0] as u32 {
        lemma_lex_asym(a.drop_first(), b.drop_first());
    }
}

proof fn lemma_lex_split(a: Seq<char>, b: Seq<char>, c: Seq<char>)
    requires
        lex_lt(a, c),
    ensures
        lex_lt(a, b) || lex_lt(b, c),
    decreases a.len(),
{
    if a.len() > 0 && b.len() > 0 && c.len() > 0 && a[0] as u32 == b[0] as u32 && b[0] as u32 == c[0] as u32 {
        lemma_lex_split(a.drop_first(), b.drop_first(), c.drop_first());
    }
}

fn lex_less(a: &str, b: &str) -> (r: bool)
    ensures
        r == lex_lt(a@, b@),
{
    let na = a.unicode_len();
    let nb = b.unicode_len();
    let mut i: usize = 0;
    assert(a@.skip(0) =~= a@);
    assert(b@.skip(0) =~= b@);
    while i < na && i < nb && a.get_char(i) as u32 == b.get_char(i) as u32
        invariant
            i <= na,
            i <= nb,
            na == a@.len(),
            nb == b@.len(),
            lex_lt(a@, b@) == lex_lt(a@.skip(i as int), b@.skip(i as int)),
        decreases na - i,
    {
        proof {
            let x = a@.skip(i as int);
            let y = b@.skip(i as int);
            assert(x.drop_first() =~= a@.skip(i + 1));
            assert(y.drop_first() =~= b@.skip(i + 1));
        }
        i = i + 1;
    }
    if i == nb {
        false
    } else if i == na {
        true
    } else {
        (a.get_char(i) as u32) < (b.get_char(i) as u32)
    }
}

/// The file at `path` is a markdown file.
pub fn is_markdown(path: &str) -> (r: bool)
    ensures
        r == is_markdown_path(path@),
{
    let name = file_name(path);
    let s = name.as_str();
    let n = s.unicode_len();
    let mut k: usize = n;
    while k > 0 && s.get_char(k - 1) != '.'
        invariant
            k <= n,
            n == name@.len(),
            s@ == name@,
            forall|j: int| k <= j < n ==> name@[j] != '.',
        decreases k,
    {
        k = k - 1;
    }
    proof {
        lemma_last_index_at(name@, '.', k as int);
    }
    if k <= 1 {
        false
    } else {
        let ext = String::from_str(s.substring_char(k, n));
        ext == String::from_str("md")
    }
}

/// The markdown files among `entries`, in their order.
pub fn markdown_files(entries: Vec<String>) -> (r: Vec<String>)
    ensures
        r@ == markdown_paths(entries@),
{
    let ghost all = entries@;
    let mut r: Vec<String> = Vec::new();
    let mut i: usize = 0;
    while i < entries.len()
        invariant
            i <= entries@.len(),
            entries@ == all,
            r@ == markdown_paths(all.take(i as int)),
        decreases entries@.len() - i,
    {
        proof {
            assert(all.take(i + 1).drop_last() =~= all.take(i as int));
            assert(all.take(i + 1).last() == all[i as int]);
        }
        if is_markdown(entries[i].as_str()) {
            r.push(entries[i].clone());
        }
        i = i + 1;
    }
    assert(all.take(i as int) =~= all);
    r
}

fn name_less_at(files: &Vec<String>, k: usize, name: &str) -> (r: bool)
    requires
        k < files@.len(),
    ensures
        r == lex_lt(file_name_of(files@[k as int]@), name@),
{
    let other = file_name(files[k].as_str());
    lex_less(other.as_str(), name)
}

/// `files` ordered by file name, descending; files with equal names keep
/// their order.
pub fn sort_by_name_descending(files: Vec<String>) -> (r: Vec<String>)
    ensures
        r@.to_multiset() == files@.to_multiset(),
        names_descending(r@),
        forall|n: Seq<char>| #[trigger] with_name(r@, n) == with_name(files@, n),
{
    let ghost all = files@;
    let n: usize = files.len();
    let mut rest = files;
    let mut r: Vec<String> = Vec::new();
    let mut i: usize = 0;
    while rest.len() > 0
        invariant
            i <= all.len(),
            rest@ == all.skip(i as int),
            rest@.len() == n - i,
            all.len() == n,
            r@.to_multiset() == all.take(i as int).to_multiset(),
            names_descending(r@),
            forall|n: Seq<char>| #[trigger] with_name(r@, n) == with_name(all.take(i as int), n),
        decreases rest@.len(),
    {
        let x = rest.remove(0);
        let name = file_name(x.as_str());
        let mut k: usize = r.len();
        while k > 0 && name_less_at(&r, k - 1, name.as_str())
            invariant
                k <= r@.len(),
                name@ == file_name_of(x@),
                forall|m: int| k <= m < r@.len() ==> lex_lt(file_name_of(r@[m]@), name@),
            decreases k,
        {
            k = k - 1;
        }
        proof {
            let s = r@;
            assert forall|m: int| 0 <= m < k implies !lex_lt(file_name_of(s[m]@), name@) by {
                if lex_lt(file_name_of(s[m]@), name@) {
                    lemma_lex_split(file_name_of(s[m]@), file_name_of(s[k - 1]@), name@);
                }
            }
            assert forall|m: int| k <= m < s.len() implies !lex_lt(name@, file_name_of(s[m]@)) by {
                lemma_lex_asym(file_name_of(s[m]@), name@);
            }
            assert forall|m: int| k <= m < s.len() implies file_name_of(s[m]@) != file_name_of(x@) by {
                if file_name_of(s[m]@) == name@ {
                    lemma_lex_asym(name@, name@);
                }
            }
            assert(all.take(i + 1) =~= all.take(i as int).push(x));
            assert(all.take(i + 1).drop_last() =~= all.take(i as int));
            assert forall|n: Seq<char>| #[trigger] with_name(s.insert(k as int, x), n) == with_name(all.take(i + 1), n) by {
                lemma_with_name_insert(s, k as int, x, n);
            }
        }
        r.insert(k, x);
        proof {
            let t = r@;
            assert forall|a: int, b: int| 0 <= a < b < t.len() implies !lex_lt(file_name_of(t[a]@), file_name_of(t[b]@)) by {
            }
        }
        assert(rest@ =~= all.skip(i + 1));
        i = i + 1;
    }
    assert(all.take(i as int) =~= all);
    r
}

/// The order in which the files of a content tree are read: its markdown
/// files, by file name descending.
pub fn discovery_order(entries: Vec<String>) -> (r: Vec<String>)
    ensures
        r@.to_multiset() == markdown_paths(entries@).to_multiset(),
        names_descending(r@),
        forall|n: Seq<char>| #[trigger] with_name(r@, n) == with_name(markdown_paths(entries@), n),
{
    sort_by_name_descending(markdown_files(entries))
}

} // verus!
