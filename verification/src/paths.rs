//! The path model of the managed store.
//!
//! Paths are UTF-8 strings. A path is absolute when its first character is
//! `/`; any other path is relative to the store root. The basename of a
//! path follows std's `Path::file_name` reading: trailing `/` separators
//! and trailing `.` components are ignored, and a path ending in `..` (or
//! holding nothing else) has no basename. The parent of a path is the
//! text before its last `/`.

use vstd::prelude::*;
use vstd::string::*;

verus! {

/// A path is absolute when it starts with `/`.
pub open spec fn is_absolute_path(p: Seq<char>) -> bool {
    p.len() > 0 && p[0] == '/'
}

/// Joining a directory and a name with a single `/` between them.
pub open spec fn joined(a: Seq<char>, b: Seq<char>) -> Seq<char> {
    a + seq!['/'] + b
}

/// The raw textual tail of `p`: the part after the last `/`, empty when
/// `p` is empty or ends with `/`.
pub open spec fn raw_tail(p: Seq<char>) -> Seq<char>
    decreases p.len(),
{
    if p.len() == 0 {
        Seq::empty()
    } else if p[p.len() - 1] == '/' {
        Seq::empty()
    } else {
        raw_tail(p.drop_last()).push(p[p.len() - 1])
    }
}

/// The basename of `p`, as std's `Path::file_name` reads it: trailing
/// `/` separators and `.` components are skipped; a final `..` component,
/// or nothing left, yields the empty sequence (no basename).
pub open spec fn basename_of(p: Seq<char>) -> Seq<char>
    decreases p.len(),
{
    if p.len() == 0 {
        Seq::empty()
    } else if p[p.len() - 1] == '/' {
        basename_of(p.drop_last())
    } else {
        let comp = raw_tail(p);
        if comp == seq!['.'] {
            basename_of(p.drop_last())
        } else if comp == seq!['.', '.'] {
            Seq::empty()
        } else {
            comp
        }
    }
}

/// The part of `p` before its raw tail, without the separating `/`;
/// empty when `p` holds no `/` at all.
pub open spec fn parent_of(p: Seq<char>) -> Seq<char> {
    if p.len() - raw_tail(p).len() > 0 {
        p.take(p.len() - raw_tail(p).len() - 1)
    } else {
        Seq::empty()
    }
}

pub open spec fn contains_char(s: Seq<char>, c: char) -> bool {
    exists|i: int| 0 <= i < s.len() && s[i] == c
}

/// A raw tail never holds a `/`.
pub proof fn lemma_raw_tail_no_slash(p: Seq<char>)
    ensures
        !contains_char(raw_tail(p), '/'),
    decreases p.len(),
{
    if p.len() == 0 {
    } else if p[p.len() - 1] == '/' {
    } else {
        lemma_raw_tail_no_slash(p.drop_last());
        let b = raw_tail(p);
        let br = raw_tail(p.drop_last());
        assert forall|i: int| 0 <= i < b.len() implies b[i] != '/' by {
            if i < br.len() {
                assert(!contains_char(br, '/'));
                assert(b[i] == br[i]);
            }
        }
    }
}

/// The raw tail of a nonempty slash-free path is the path itself.
pub proof fn lemma_raw_tail_plain(p: Seq<char>)
    requires
        !contains_char(p, '/'),
    ensures
        raw_tail(p) =~= p,
    decreases p.len(),
{
    if p.len() == 0 {
    } else {
        assert(p[p.len() - 1] != '/');
        assert(!contains_char(p.drop_last(), '/')) by {
            assert forall|i: int| 0 <= i < p.drop_last().len() implies p.drop_last()[i] != '/' by {
                assert(p.drop_last()[i] == p[i]);
            }
        }
        lemma_raw_tail_plain(p.drop_last());
    }
}

/// The raw tail of `a + "/" + b` is the raw tail of `b`.
pub proof fn lemma_raw_tail_of_joined(a: Seq<char>, b: Seq<char>)
    ensures
        raw_tail(joined(a, b)) =~= raw_tail(b),
    decreases b.len(),
{
    let j = joined(a, b);
    if b.len() == 0 {
        assert(j[j.len() - 1] == '/');
    } else if b[b.len() - 1] == '/' {
        assert(j[j.len() - 1] == '/');
    } else {
        assert(j[j.len() - 1] == b[b.len() - 1]);
        assert(j.drop_last() =~= joined(a, b.drop_last()));
        lemma_raw_tail_of_joined(a, b.drop_last());
    }
}

/// A basename never holds a `/`, and is never a `.` or `..` component.
pub proof fn lemma_basename_clean(p: Seq<char>)
    ensures
        !contains_char(basename_of(p), '/'),
        basename_of(p) != seq!['.'],
        basename_of(p) != seq!['.', '.'],
    decreases p.len(),
{
    if p.len() == 0 {
        assert(basename_of(p).len() == 0);
    } else if p[p.len() - 1] == '/' {
        lemma_basename_clean(p.drop_last());
    } else {
        let comp = raw_tail(p);
        if comp == seq!['.'] {
            lemma_basename_clean(p.drop_last());
        } else if comp == seq!['.', '.'] {
            assert(basename_of(p).len() == 0);
        } else {
            lemma_raw_tail_no_slash(p);
        }
    }
}

/// The basename of a slash-free path that is not a dot component is the
/// path itself.
pub proof fn lemma_basename_of_plain(p: Seq<char>)
    requires
        !contains_char(p, '/'),
        p != seq!['.'],
        p != seq!['.', '.'],
    ensures
        basename_of(p) =~= p,
{
    if p.len() == 0 {
    } else {
        assert(p[p.len() - 1] != '/');
        lemma_raw_tail_plain(p);
    }
}

/// The basename of `a + "/" + b` is `b`, for a plain final component `b`.
pub proof fn lemma_basename_of_joined(a: Seq<char>, b: Seq<char>)
    requires
        !contains_char(b, '/'),
        b.len() > 0,
        b != seq!['.'],
        b != seq!['.', '.'],
    ensures
        basename_of(joined(a, b)) =~= b,
{
    let j = joined(a, b);
    assert(j[j.len() - 1] == b[b.len() - 1]);
    assert(b[b.len() - 1] != '/');
    lemma_raw_tail_of_joined(a, b);
    lemma_raw_tail_plain(b);
    assert(raw_tail(j) == b);
}

/// The parent of `a + "/" + b` is `a` when `b` holds no `/`.
pub proof fn lemma_parent_of_joined(a: Seq<char>, b: Seq<char>)
    requires
        !contains_char(b, '/'),
    ensures
        parent_of(joined(a, b)) =~= a,
{
    lemma_raw_tail_of_joined(a, b);
    lemma_raw_tail_plain(b);
    let j = joined(a, b);
    assert(raw_tail(j).len() == b.len());
    assert(j.len() == a.len() + 1 + b.len());
    assert(parent_of(j) =~= j.take(a.len() as int));
}

/// Whether `p` is absolute.
pub fn str_is_absolute(p: &str) -> (r: bool)
    ensures
        r == is_absolute_path(p@),
{
    let n = p.unicode_len();
    if n == 0 {
        false
    } else {
        p.get_char(0) == '/'
    }
}

/// Joins a directory and a name with a `/`.
pub fn join_path(a: &str, b: &str) -> (r: String)
    ensures
        r@ == joined(a@, b@),
{
    proof {
        reveal_strlit("/");
    }
    let mut r = a.to_owned();
    r.append("/");
    r.append(b);
    proof {
        assert(r@ =~= joined(a@, b@));
    }
    r
}

/// The index right after the last `/` of `p` before position `e`, or 0
/// when that region holds none.
fn tail_cut(p: &str, e: usize) -> (cut: usize)
    requires
        e <= p@.len(),
    ensures
        cut <= e,
        forall|k: int| cut <= k < e ==> p@[k] != '/',
        cut > 0 ==> p@[cut - 1] == '/',
{
    let mut cut: usize = e;
    while cut > 0
        invariant
            cut <= e,
            e <= p@.len(),
            forall|k: int| cut <= k < e ==> p@[k] != '/',
        decreases cut,
    {
        if p.get_char(cut - 1) == '/' {
            return cut;
        }
        cut = cut - 1;
    }
    cut
}

/// With no `/` at or after `cut` and one right before it (or `cut == 0`),
/// the raw tail of `p` is exactly `p[cut ..]`.
proof fn lemma_raw_tail_at_cut(p: Seq<char>, cut: int)
    requires
        0 <= cut <= p.len(),
        forall|k: int| cut <= k < p.len() ==> p[k] != '/',
        cut > 0 ==> p[cut - 1] == '/',
    ensures
        raw_tail(p) =~= p.subrange(cut, p.len() as int),
    decreases p.len() - cut,
{
    if cut == p.len() {
        if p.len() == 0 {
        } else {
            assert(p[p.len() - 1] == '/');
        }
    } else {
        assert(p[p.len() - 1] != '/');
        let q = p.drop_last();
        lemma_raw_tail_at_cut(q, cut);
        assert(raw_tail(p) =~= raw_tail(q).push(p[p.len() - 1]));
    }
}

/// The basename as a value: `None` when the path has none.
pub fn file_name_of(p: &str) -> (r: Option<String>)
    ensures
        match r {
            Some(s) => s@ =~= basename_of(p@) && s@.len() > 0,
            None => basename_of(p@).len() == 0,
        },
{
    let n = p.unicode_len();
    let mut e: usize = n;
    proof {
        assert(p@.take(n as int) =~= p@);
    }
    while e > 0
        invariant
            e <= n,
            n == p@.len(),
            basename_of(p@) == basename_of(p@.take(e as int)),
        decreases e,
    {
        let ghost cur = p@.take(e as int);
        let c = p.get_char(e - 1);
        proof {
            assert(cur[cur.len() - 1] == p@[e - 1]);
            assert(cur.drop_last() =~= p@.take(e - 1 as int));
        }
        if c == '/' {
            e = e - 1;
        } else {
            let cut = tail_cut(p, e);
            proof {
                assert forall|k: int| cut <= k < cur.len() implies cur[k] != '/' by {
                    assert(cur[k] == p@[k]);
                }
                lemma_raw_tail_at_cut(cur, cut as int);
            }
            if e - cut == 1 && p.get_char(cut) == '.' {
                proof {
                    assert(raw_tail(cur) =~= seq!['.']);
                }
                e = e - 1;
            } else if e - cut == 2 && p.get_char(cut) == '.' && p.get_char(cut + 1) == '.' {
                proof {
                    assert(raw_tail(cur) =~= seq!['.', '.']);
                    assert(basename_of(cur).len() == 0);
                }
                return None;
            } else {
                let s = p.substring_char(cut, e);
                proof {
                    assert(s@ =~= raw_tail(cur));
                    assert(raw_tail(cur) != seq!['.']) by {
                        if raw_tail(cur) == seq!['.'] {
                            assert(cur.subrange(cut as int, e as int).len() == 1);
                            assert(cur.subrange(cut as int, e as int)[0] == p@[cut as int]);
                        }
                    }
                    assert(raw_tail(cur) != seq!['.', '.']) by {
                        if raw_tail(cur) == seq!['.', '.'] {
                            assert(cur.subrange(cut as int, e as int).len() == 2);
                            assert(cur.subrange(cut as int, e as int)[0] == p@[cut as int]);
                            assert(cur.subrange(cut as int, e as int)[1] == p@[cut + 1 as int]);
                        }
                    }
                    assert(basename_of(cur) == raw_tail(cur));
                    assert(raw_tail(cur).len() > 0);
                }
                return Some(s.to_owned());
            }
        }
    }
    proof {
        assert(p@.take(0) =~= Seq::<char>::empty());
        assert(basename_of(Seq::<char>::empty()).len() == 0);
    }
    None
}

/// The parent as a value: what stands before the last `/`.
pub fn parent_dir_of(p: &str) -> (r: String)
    ensures
        r@ =~= parent_of(p@),
{
    let n = p.unicode_len();
    let cut = tail_cut(p, n);
    proof {
        lemma_raw_tail_at_cut(p@, cut as int);
    }
    if cut == 0 {
        proof {
            assert(raw_tail(p@).len() == p@.len());
        }
        String::new()
    } else {
        let s = p.substring_char(0, cut - 1);
        s.to_owned()
    }
}

/// Whether the last character of `p` is `c`.
pub open spec fn last_char_is(p: Seq<char>, c: char) -> bool {
    p.len() > 0 && p[p.len() - 1] == c
}

/// Whether `p` ends with `c`.
pub fn ends_with_char(p: &str, c: char) -> (r: bool)
    ensures
        r == last_char_is(p@, c),
{
    let n = p.unicode_len();
    if n == 0 {
        false
    } else {
        p.get_char(n - 1) == c
    }
}

} // verus!
