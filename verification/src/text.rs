//! Character-level string operations with their mathematical meaning.
//!
//! Strings are read as sequences of `char`s. Each executable function here
//! states its result through a spec function on `Seq<char>`.

use vstd::prelude::*;
use vstd::string::*;

verus! {

/// `p` occurs in `s` starting at position `i`.
pub open spec fn is_match_at(s: Seq<char>, i: int, p: Seq<char>) -> bool {
    0 <= i && i + p.len() <= s.len() && s.subrange(i, i + p.len()) == p
}

/// `p` occurs somewhere in `s`.
pub open spec fn seq_contains(s: Seq<char>, p: Seq<char>) -> bool {
    exists|i: int| is_match_at(s, i, p)
}

/// `s` begins with `p`.
pub open spec fn seq_starts_with(s: Seq<char>, p: Seq<char>) -> bool {
    p.len() <= s.len() && s.take(p.len() as int) == p
}

/// The part of `s` after the last `c`; all of `s` when `c` does not occur
/// (the last piece of `s.split(c)`).
pub open spec fn after_last(s: Seq<char>, c: char) -> Seq<char>
    decreases s.len(),
{
    if s.len() == 0 {
        s
    } else if s.last() == c {
        Seq::empty()
    } else {
        after_last(s.drop_last(), c).push(s.last())
    }
}

/// The part of `s` before its `n`-th `c` (counting from 1); all of `s` when
/// `c` occurs fewer than `n` times. For `n == 2` this is the first two
/// pieces of `s.split(c)` joined again by `c`.
pub open spec fn before_nth(s: Seq<char>, c: char, n: nat) -> Seq<char>
    decreases s.len(),
{
    if s.len() == 0 {
        s
    } else if s[0] == c && n <= 1 {
        Seq::empty()
    } else if s[0] == c {
        seq![c] + before_nth(s.skip(1), c, (n - 1) as nat)
    } else {
        seq![s[0]] + before_nth(s.skip(1), c, n)
    }
}

/// `s` with every occurrence of `p` taken out, the occurrences found from
/// left to right without overlapping; `s` itself when `p` is empty.
pub open spec fn remove_all(s: Seq<char>, p: Seq<char>) -> Seq<char>
    decreases s.len(),
{
    if p.len() == 0 || s.len() < p.len() {
        s
    } else if s.take(p.len() as int) == p {
        remove_all(s.skip(p.len() as int), p)
    } else {
        seq![s[0]] + remove_all(s.skip(1), p)
    }
}

/// The characters of `s`, one per element.
pub fn chars_of(s: &str) -> (v: Vec<char>)
    ensures
        v@ == s@,
{
    let n = s.unicode_len();
    let mut v: Vec<char> = Vec::new();
    let mut i: usize = 0;
    while i < n
        invariant
            n == s@.len(),
            i <= n,
            v@ == s@.take(i as int),
        decreases n - i,
    {
        let c = s.get_char(i);
        v.push(c);
        i = i + 1;
        assert(v@ =~= s@.take(i as int));
    }
    assert(v@ =~= s@);
    v
}

/// Whether `p` occurs in `s` at position `i`.
pub fn match_at(s: &Vec<char>, i: usize, p: &Vec<char>) -> (r: bool)
    ensures
        r == is_match_at(s@, i as int, p@),
{
    if i > s.len() || s.len() - i < p.len() {
        return false;
    }
    let mut k: usize = 0;
    while k < p.len()
        invariant
            i + p@.len() <= s@.len(),
            k <= p@.len(),
            forall|j: int| 0 <= j < k ==> s@[i + j] == p@[j],
        decreases p@.len() - k,
    {
        assert(i + k < s.len());
        if s[i + k] != p[k] {
            assert(s@.subrange(i as int, i + p@.len())[k as int] != p@[k as int]);
            return false;
        }
        k = k + 1;
    }
    assert(s@.subrange(i as int, i + p@.len()) =~= p@);
    true
}

/// Whether the two strings hold the same characters.
pub fn str_eq(a: &str, b: &str) -> (r: bool)
    ensures
        r == (a@ == b@),
{
    let av = chars_of(a);
    let bv = chars_of(b);
    if av.len() != bv.len() {
        return false;
    }
    let r = match_at(&av, 0, &bv);
    assert(av@.subrange(0, bv@.len() as int) =~= av@);
    r
}

/// Whether `p` occurs in `s`.
pub fn contains_str(s: &str, p: &str) -> (r: bool)
    ensures
        r == seq_contains(s@, p@),
{
    let sv = chars_of(s);
    let pv = chars_of(p);
    if pv.len() > sv.len() {
        assert(!seq_contains(s@, p@));
        return false;
    }
    let last = sv.len() - pv.len();
    let mut i: usize = 0;
    while i < last
        invariant
            sv@ == s@,
            pv@ == p@,
            last == sv@.len() - pv@.len(),
            i <= last,
            forall|j: int| 0 <= j < i ==> !is_match_at(s@, j, p@),
        decreases last - i,
    {
        if match_at(&sv, i, &pv) {
            return true;
        }
        i = i + 1;
    }
    if match_at(&sv, last, &pv) {
        return true;
    }
    assert forall|j: int| !is_match_at(s@, j, p@) by {
        if 0 <= j && j < last {
            assert(j < i);
        }
    }
    false
}

/// Whether `s` begins with `p`.
pub fn starts_with_str(s: &str, p: &str) -> (r: bool)
    ensures
        r == seq_starts_with(s@, p@),
{
    let sv = chars_of(s);
    let pv = chars_of(p);
    let r = match_at(&sv, 0, &pv);
    assert(pv@.len() <= sv@.len() ==> sv@.subrange(0, pv@.len() as int) =~= sv@.take(
        pv@.len() as int,
    ));
    r
}

/// A new string holding the characters of `a` followed by those of `b`.
pub fn concat_str(a: &str, b: &str) -> (r: String)
    ensures
        r@ == a@ + b@,
{
    let mut r = String::from_str(a);
    r.append(b);
    r
}

/// The part of `s` before its last `c` (empty when `c` does not occur).
pub open spec fn before_last(s: Seq<char>, c: char) -> Seq<char>
    decreases s.len(),
{
    if s.len() == 0 {
        s
    } else if s.last() == c {
        s.drop_last()
    } else {
        before_last(s.drop_last(), c)
    }
}

/// Splitting at the last `c`, found at `j` (or `j == -1` when `c` does not
/// occur): `before_last` is what precedes `j`, `after_last` what follows.
pub proof fn lemma_split_at_last(s: Seq<char>, c: char, j: int)
    requires
        -1 <= j < s.len(),
        j >= 0 ==> s[j] == c,
        forall|k: int| j < k < s.len() ==> s[k] != c,
    ensures
        after_last(s, c) == s.skip(j + 1),
        before_last(s, c) == (if j >= 0 {
            s.take(j)
        } else {
            Seq::<char>::empty()
        }),
    decreases s.len(),
{
    if s.len() == 0 {
        assert(s.skip(j + 1) =~= s);
    } else if s.last() == c {
        assert(j == s.len() - 1);
        assert(s.skip(j + 1) =~= Seq::<char>::empty());
        assert(s.drop_last() =~= s.take(j));
    } else {
        lemma_split_at_last(s.drop_last(), c, j);
        assert(s.drop_last().skip(j + 1).push(s.last()) =~= s.skip(j + 1));
        if j >= 0 {
            assert(s.drop_last().take(j) =~= s.take(j));
        }
    }
}

/// Position of the last `c` in `v`, if there is one.
pub fn last_index_of(v: &Vec<char>, c: char) -> (r: Option<usize>)
    ensures
        r matches Some(j) ==> j < v@.len() && v@[j as int] == c && forall|k: int|
            j < k < v@.len() ==> v@[k] != c,
        r is None ==> forall|k: int| 0 <= k < v@.len() ==> v@[k] != c,
{
    let mut i: usize = v.len();
    while i > 0
        invariant
            i <= v@.len(),
            forall|k: int| i <= k < v@.len() ==> v@[k] != c,
        decreases i,
    {
        if v[i - 1] == c {
            return Some(i - 1);
        }
        i = i - 1;
    }
    None
}

/// The part of `s` after its last `c` (all of `s` when there is none).
pub fn after_last_str(s: &str, c: char) -> (r: String)
    ensures
        r@ == after_last(s@, c),
{
    let sv = chars_of(s);
    let n = sv.len();
    match last_index_of(&sv, c) {
        Some(j) => {
            proof {
                lemma_split_at_last(s@, c, j as int);
            }
            let r = String::from_str(s.substring_char(j + 1, n));
            assert(s@.subrange(j + 1, n as int) =~= s@.skip(j + 1));
            r
        },
        None => {
            proof {
                lemma_split_at_last(s@, c, -1);
                assert(s@.skip(0) =~= s@);
            }
            String::from_str(s)
        },
    }
}

/// The part of `s` before its `n`-th `c` (all of `s` when `c` occurs fewer
/// than `n` times).
pub fn before_nth_str(s: &str, c: char, n: usize) -> (r: String)
    ensures
        r@ == before_nth(s@, c, n as nat),
{
    let sv = chars_of(s);
    let len = sv.len();
    let mut i: usize = 0;
    let mut m: usize = n;
    assert(s@.skip(0) =~= s@);
    assert(s@.take(0) =~= Seq::<char>::empty());
    while i < len
        invariant
            sv@ == s@,
            len == s@.len(),
            i <= len,
            m <= n,
            before_nth(s@, c, n as nat) == s@.take(i as int) + before_nth(
                s@.skip(i as int),
                c,
                m as nat,
            ),
        decreases len - i,
    {
        let ghost rest = s@.skip(i as int);
        assert(rest.skip(1) =~= s@.skip(i + 1));
        assert(rest[0] == s@[i as int]);
        if sv[i] == c {
            if m <= 1 {
                assert(before_nth(rest, c, m as nat) =~= Seq::<char>::empty());
                assert(before_nth(s@, c, n as nat) =~= s@.take(i as int));
                let r = String::from_str(s.substring_char(0, i));
                assert(s@.subrange(0, i as int) =~= s@.take(i as int));
                return r;
            }
            m = m - 1;
        }
        assert(s@.take(i as int) + seq![s@[i as int]] =~= s@.take(i + 1));
        i = i + 1;
    }
    assert(s@.skip(len as int) =~= Seq::<char>::empty());
    assert(s@.take(len as int) =~= s@);
    String::from_str(s)
}

/// `s` with every occurrence of `p` taken out (`remove_all`).
pub fn remove_all_str(s: &str, p: &str) -> (r: String)
    ensures
        r@ == remove_all(s@, p@),
{
    let sv = chars_of(s);
    let pv = chars_of(p);
    let n = sv.len();
    let m = pv.len();
    if m == 0 {
        return String::from_str(s);
    }
    let mut out = String::new();
    let mut seg: usize = 0;
    let mut i: usize = 0;
    assert(s@.skip(0) =~= s@);
    assert(s@.subrange(0, 0) =~= Seq::<char>::empty());
    assert(out@ =~= Seq::<char>::empty());
    while i < n && n - i >= m
        invariant
            sv@ == s@,
            pv@ == p@,
            n == s@.len(),
            m == p@.len(),
            m > 0,
            seg <= i <= n,
            remove_all(s@, p@) == out@ + s@.subrange(seg as int, i as int) + remove_all(
                s@.skip(i as int),
                p@,
            ),
        decreases n - i,
    {
        let ghost rest = s@.skip(i as int);
        if match_at(&sv, i, &pv) {
            assert(rest.take(m as int) =~= s@.subrange(i as int, i + m));
            assert(rest.skip(m as int) =~= s@.skip(i + m));
            let piece = s.substring_char(seg, i);
            out.append(piece);
            i = i + m;
            seg = i;
            assert(s@.subrange(seg as int, seg as int) =~= Seq::<char>::empty());
        } else {
            assert(rest.take(m as int) =~= s@.subrange(i as int, i + m));
            assert(rest.skip(1) =~= s@.skip(i + 1));
            assert(rest[0] == s@[i as int]);
            assert(s@.subrange(seg as int, i as int) + seq![s@[i as int]] =~= s@.subrange(
                seg as int,
                i + 1,
            ));
            i = i + 1;
        }
    }
    assert(s@.subrange(seg as int, i as int) + s@.skip(i as int) =~= s@.subrange(
        seg as int,
        n as int,
    ));
    let piece = s.substring_char(seg, n);
    out.append(piece);
    out
}

/// Where no occurrence of `p` starts before position `k`, the first `k`
/// characters are kept as they are.
pub proof fn lemma_remove_all_keeps_prefix(s: Seq<char>, p: Seq<char>, k: int)
    requires
        0 <= k <= s.len(),
        p.len() > 0,
        forall|i: int| 0 <= i < k ==> !is_match_at(s, i, p),
    ensures
        remove_all(s, p) == s.take(k) + remove_all(s.skip(k), p),
    decreases k,
{
    if k == 0 {
        assert(s.skip(0) =~= s);
        assert(s.take(0) + s =~= s);
    } else if s.len() < p.len() {
        assert(s.skip(k).len() < p.len());
        assert(s.take(k) + s.skip(k) =~= s);
    } else {
        assert(!is_match_at(s, 0, p));
        assert(s.subrange(0, p.len() as int) =~= s.take(p.len() as int));
        let t = s.skip(1);
        assert forall|i: int| 0 <= i < k - 1 implies !is_match_at(t, i, p) by {
            assert(!is_match_at(s, i + 1, p));
            if i + p.len() <= t.len() {
                assert(t.subrange(i, i + p.len()) =~= s.subrange(i + 1, i + 1 + p.len()));
            }
        }
        lemma_remove_all_keeps_prefix(t, p, k - 1);
        assert(t.skip(k - 1) =~= s.skip(k));
        assert(seq![s[0]] + t.take(k - 1) =~= s.take(k));
    }
}

/// The piece after the last `c` holds no `c`.
pub proof fn lemma_after_last_has_no(s: Seq<char>, c: char)
    ensures
        !after_last(s, c).contains(c),
    decreases s.len(),
{
    if s.len() > 0 && s.last() != c {
        lemma_after_last_has_no(s.drop_last(), c);
        let r = after_last(s.drop_last(), c);
        assert forall|i: int| 0 <= i < r.push(s.last()).len() implies r.push(s.last())[i] != c by {
            if i < r.len() {
                assert(r.push(s.last())[i] == r[i]);
            }
        }
    }
}

} // verus!
