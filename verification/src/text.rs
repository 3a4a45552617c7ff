//! Character-sequence machinery for the wire protocol: substring search,
//! splitting on a separator, and decimal rendering of lengths, with exact
//! specifications used by the parser, formatter and router.

use vstd::prelude::*;

verus! {

/// `p` occurs in `s` at position `i`.
pub open spec fn contains_at(s: Seq<char>, p: Seq<char>, i: int) -> bool {
    &&& 0 <= i
    &&& i + p.len() <= s.len()
    &&& s.subrange(i, i + p.len() as int) == p
}

/// `s` begins with `p`.
pub open spec fn starts_with(s: Seq<char>, p: Seq<char>) -> bool {
    contains_at(s, p, 0)
}

/// Position of the first occurrence of `p` in `s` at or after `from`.
pub open spec fn find_from(s: Seq<char>, p: Seq<char>, from: int) -> Option<int>
    decreases s.len() + 1 - from,
{
    if from < 0 || from + p.len() > s.len() {
        None
    } else if contains_at(s, p, from) {
        Some(from)
    } else {
        find_from(s, p, from + 1)
    }
}

/// Position of the first occurrence of `p` in `s`.
pub open spec fn find(s: Seq<char>, p: Seq<char>) -> Option<int> {
    find_from(s, p, 0)
}

/// Position of the last occurrence of `p` in `s` at or before `from`.
pub open spec fn rfind_from(s: Seq<char>, p: Seq<char>, from: int) -> Option<int>
    decreases from + 1,
{
    if from < 0 {
        None
    } else if contains_at(s, p, from) {
        Some(from)
    } else {
        rfind_from(s, p, from - 1)
    }
}

/// Position of the last occurrence of `p` in `s`.
pub open spec fn rfind(s: Seq<char>, p: Seq<char>) -> Option<int> {
    rfind_from(s, p, s.len() - p.len())
}

/// The pieces of `s` between occurrences of the separator `p`, in order.
/// There is always at least one piece; a separator at the start or end
/// contributes an empty piece.
pub open spec fn split(s: Seq<char>, p: Seq<char>) -> Seq<Seq<char>>
    recommends
        p.len() > 0,
    decreases s.len(),
    when p.len() > 0
    via split_decreases
{
    match find(s, p) {
        None => seq![s],
        Some(i) => seq![s.subrange(0, i)] + split(s.skip(i + p.len() as int), p),
    }
}

#[via_fn]
proof fn split_decreases(s: Seq<char>, p: Seq<char>) {
    match find(s, p) {
        Some(i) => {
            lemma_find_from_props(s, p, 0);
        },
        None => {},
    }
}

/// `find_from` returns the first occurrence at or after `from`, or reports
/// that there is none.
pub proof fn lemma_find_from_props(s: Seq<char>, p: Seq<char>, from: int)
    requires
        0 <= from,
    ensures
        match find_from(s, p, from) {
            Some(i) => from <= i && contains_at(s, p, i) && (forall|j: int|
                from <= j < i ==> !contains_at(s, p, j)),
            None => forall|j: int| from <= j ==> !contains_at(s, p, j),
        },
    decreases s.len() + 1 - from,
{
    if from + p.len() > s.len() {
        assert forall|j: int| from <= j implies !contains_at(s, p, j) by {
            if contains_at(s, p, j) {
                assert(j + p.len() <= s.len());
            }
        }
    } else if contains_at(s, p, from) {
    } else {
        lemma_find_from_props(s, p, from + 1);
    }
}

/// An occurrence with none before it is what `find` returns.
pub proof fn lemma_find_first(s: Seq<char>, p: Seq<char>, i: int)
    requires
        contains_at(s, p, i),
        forall|j: int| 0 <= j < i ==> !contains_at(s, p, j),
    ensures
        find(s, p) == Some(i),
{
    lemma_find_from_props(s, p, 0);
    match find(s, p) {
        Some(k) => {
            if k < i {
                assert(!contains_at(s, p, k));
            } else if i < k {
                assert(!contains_at(s, p, i));
            }
        },
        None => {
            assert(!contains_at(s, p, i));
        },
    }
}

/// If `p` occurs nowhere in `s`, `find` returns nothing.
pub proof fn lemma_find_none(s: Seq<char>, p: Seq<char>)
    requires
        forall|j: int| !contains_at(s, p, j),
    ensures
        find(s, p) is None,
{
    lemma_find_from_props(s, p, 0);
}

/// `rfind_from` returns the last occurrence at or before `from`, or reports
/// that there is none.
pub proof fn lemma_rfind_from_props(s: Seq<char>, p: Seq<char>, from: int)
    ensures
        match rfind_from(s, p, from) {
            Some(i) => i <= from && contains_at(s, p, i) && (forall|j: int|
                i < j <= from ==> !contains_at(s, p, j)),
            None => forall|j: int| j <= from ==> !contains_at(s, p, j),
        },
    decreases from + 1,
{
    if from < 0 {
    } else if contains_at(s, p, from) {
    } else {
        lemma_rfind_from_props(s, p, from - 1);
    }
}

/// An occurrence with none after it is what `rfind` returns.
pub proof fn lemma_rfind_last(s: Seq<char>, p: Seq<char>, i: int)
    requires
        contains_at(s, p, i),
        forall|j: int| i < j ==> !contains_at(s, p, j),
    ensures
        rfind(s, p) == Some(i),
{
    let from = s.len() - p.len();
    lemma_rfind_from_props(s, p, from);
    match rfind_from(s, p, from) {
        Some(k) => {
            if k < i {
                assert(!contains_at(s, p, i));
            } else if i < k {
                assert(!contains_at(s, p, k));
            }
        },
        None => {
            assert(!contains_at(s, p, i));
        },
    }
}

/// Where the separator occurs, its first character occurs.
pub proof fn lemma_contains_at_first_char(s: Seq<char>, p: Seq<char>, j: int)
    requires
        p.len() > 0,
        contains_at(s, p, j),
    ensures
        s[j] == p[0],
{
    assert(s.subrange(j, j + p.len() as int)[0] == s[j]);
}

/// Splitting a string in which the separator does not occur yields the
/// string itself as the only piece.
pub proof fn lemma_split_no_sep(s: Seq<char>, p: Seq<char>)
    requires
        p.len() > 0,
        forall|j: int| !contains_at(s, p, j),
    ensures
        split(s, p) == seq![s],
{
    lemma_find_none(s, p);
}

/// Splitting `a + p + r` where no occurrence of `p` begins inside `a`
/// yields `a` as the first piece, followed by the pieces of `r`.
pub proof fn lemma_split_prefix(a: Seq<char>, p: Seq<char>, r: Seq<char>)
    requires
        p.len() > 0,
        forall|j: int| 0 <= j < a.len() ==> !contains_at(a + p + r, p, j),
    ensures
        split(a + p + r, p) == seq![a] + split(r, p),
{
    let s = a + p + r;
    assert(s.subrange(a.len() as int, a.len() + p.len() as int) =~= p);
    assert(contains_at(s, p, a.len() as int));
    lemma_find_first(s, p, a.len() as int);
    assert(s.subrange(0, a.len() as int) =~= a);
    assert(s.skip(a.len() + p.len() as int) =~= r);
}

/// Splitting yields at least one piece.
pub proof fn lemma_split_len(s: Seq<char>, p: Seq<char>)
    requires
        p.len() > 0,
    ensures
        split(s, p).len() >= 1,
{
}

/// Splitting a string in which the separator occurs yields at least two
/// pieces.
pub proof fn lemma_split_len2(s: Seq<char>, p: Seq<char>, i: int)
    requires
        p.len() > 0,
        contains_at(s, p, i),
    ensures
        split(s, p).len() >= 2,
{
    lemma_find_from_props(s, p, 0);
    match find(s, p) {
        Some(k) => {
            lemma_split_len(s.skip(k + p.len() as int), p);
        },
        None => {
            assert(!contains_at(s, p, i));
        },
    }
}

/// The character standing for the decimal digit `d`.
pub open spec fn digit_char(d: int) -> char
    recommends
        0 <= d < 10,
{
    if d == 0 {
        '0'
    } else if d == 1 {
        '1'
    } else if d == 2 {
        '2'
    } else if d == 3 {
        '3'
    } else if d == 4 {
        '4'
    } else if d == 5 {
        '5'
    } else if d == 6 {
        '6'
    } else if d == 7 {
        '7'
    } else if d == 8 {
        '8'
    } else {
        '9'
    }
}

/// The decimal rendering of `n`, without leading zeros (except for 0 itself).
pub open spec fn dec_chars(n: int) -> Seq<char>
    recommends
        n >= 0,
    decreases n,
{
    if n < 10 {
        seq![digit_char(n)]
    } else {
        dec_chars(n / 10).push(digit_char(n % 10))
    }
}

/// Whether two string slices have equal views.
pub fn str_eq(a: &str, b: &str) -> (r: bool)
    ensures
        r == (a@ == b@),
{
    let alen = a.unicode_len();
    let blen = b.unicode_len();
    if alen != blen {
        return false;
    }
    let mut i: usize = 0;
    while i < alen
        invariant
            alen == a@.len(),
            alen == b@.len(),
            i <= alen,
            forall|k: int| 0 <= k < i ==> a@[k] == b@[k],
        decreases alen - i,
    {
        if a.get_char(i) != b.get_char(i) {
            return false;
        }
        i += 1;
    }
    proof {
        assert(a@ =~= b@);
    }
    true
}

/// Whether `p` occurs in `s` at position `i`.
fn match_at(s: &str, p: &str, i: usize) -> (r: bool)
    requires
        i + p@.len() <= s@.len(),
    ensures
        r == contains_at(s@, p@, i as int),
{
    let n = s.unicode_len();
    let m = p.unicode_len();
    let mut j: usize = 0;
    while j < m
        invariant
            n == s@.len(),
            m == p@.len(),
            i + m <= n,
            j <= m,
            forall|k: int| 0 <= k < j ==> s@[i + k] == p@[k],
        decreases m - j,
    {
        if s.get_char(i + j) != p.get_char(j) {
            proof {
                if contains_at(s@, p@, i as int) {
                    assert(s@.subrange(i as int, i + p@.len() as int)[j as int] == s@[i + j]);
                }
            }
            return false;
        }
        j += 1;
    }
    proof {
        assert(s@.subrange(i as int, i + p@.len() as int) =~= p@);
    }
    true
}

/// The first occurrence of `p` in `s`, as `find` gives it.
pub fn find_sub(s: &str, p: &str) -> (r: Option<usize>)
    ensures
        match r {
            Some(i) => find(s@, p@) == Some(i as int),
            None => find(s@, p@) is None,
        },
{
    let n = s.unicode_len();
    let m = p.unicode_len();
    if m == 0 {
        proof {
            assert(s@.subrange(0, 0) =~= p@);
            lemma_find_first(s@, p@, 0);
        }
        return Some(0);
    }
    if m > n {
        proof {
            lemma_find_from_props(s@, p@, 0);
        }
        return None;
    }
    let mut i: usize = 0;
    while i <= n - m
        invariant
            1 <= m <= n,
            n == s@.len(),
            m == p@.len(),
            i <= n - m + 1,
            forall|j: int| 0 <= j < i ==> !contains_at(s@, p@, j),
        decreases n - m + 1 - i,
    {
        if match_at(s, p, i) {
            proof {
                lemma_find_first(s@, p@, i as int);
            }
            return Some(i);
        }
        i += 1;
    }
    proof {
        lemma_find_from_props(s@, p@, 0);
    }
    None
}

/// The last occurrence of `p` in `s`, as `rfind` gives it.
pub fn rfind_sub(s: &str, p: &str) -> (r: Option<usize>)
    ensures
        match r {
            Some(i) => rfind(s@, p@) == Some(i as int),
            None => rfind(s@, p@) is None,
        },
{
    let n = s.unicode_len();
    let m = p.unicode_len();
    if m == 0 {
        proof {
            assert(s@.subrange(n as int, n as int) =~= p@);
            lemma_rfind_last(s@, p@, n as int);
        }
        return Some(n);
    }
    if m > n {
        proof {
            lemma_rfind_from_props(s@, p@, s@.len() - p@.len());
        }
        return None;
    }
    let mut i: usize = n - m + 1;
    while i > 0
        invariant
            m <= n,
            n == s@.len(),
            m == p@.len(),
            i <= n - m + 1,
            forall|j: int| i <= j ==> !contains_at(s@, p@, j),
        decreases i,
    {
        i = i - 1;
        if match_at(s, p, i) {
            proof {
                lemma_rfind_last(s@, p@, i as int);
            }
            return Some(i);
        }
    }
    proof {
        lemma_rfind_from_props(s@, p@, s@.len() - p@.len());
    }
    None
}

/// Whether `s` begins with `p`.
pub fn starts_with_str(s: &str, p: &str) -> (r: bool)
    ensures
        r == starts_with(s@, p@),
{
    let n = s.unicode_len();
    let m = p.unicode_len();
    if m > n {
        false
    } else {
        match_at(s, p, 0)
    }
}

/// The pieces of `s` between occurrences of `p`, as `split` gives them.
pub fn split_str(s: &str, p: &str) -> (r: Vec<String>)
    requires
        p@.len() > 0,
    ensures
        r.deep_view() == split(s@, p@),
{
    let n = s.unicode_len();
    let plen = p.unicode_len();
    let mut pieces: Vec<String> = Vec::new();
    let mut cur: usize = 0;
    let mut fin = false;
    proof {
        assert(pieces.deep_view() =~= Seq::<Seq<char>>::empty());
        assert(s@.skip(0) =~= s@);
        assert(Seq::<Seq<char>>::empty() + split(s@, p@) =~= split(s@, p@));
    }
    while !fin
        invariant
            cur <= n,
            n == s@.len(),
            plen == p@.len(),
            plen > 0,
            !fin ==> split(s@, p@) == pieces.deep_view() + split(s@.skip(cur as int), p@),
            fin ==> pieces.deep_view() == split(s@, p@),
        decreases n - cur + (if fin { 0int } else { 1int }),
    {
        let rest = s.substring_char(cur, n);
        proof {
            assert(rest@ =~= s@.skip(cur as int));
        }
        match find_sub(rest, p) {
            None => {
                let ghost old_dv = pieces.deep_view();
                pieces.push(rest.to_owned());
                fin = true;
                proof {
                    assert(split(rest@, p@) == seq![rest@]);
                    assert(pieces.deep_view() =~= old_dv.push(rest@));
                    assert(old_dv.push(rest@) =~= old_dv + seq![rest@]);
                }
            },
            Some(i) => {
                proof {
                    lemma_find_from_props(rest@, p@, 0);
                }
                let piece = rest.substring_char(0, i);
                let ghost old_dv = pieces.deep_view();
                pieces.push(piece.to_owned());
                cur = cur + i + plen;
                proof {
                    assert(split(rest@, p@) == seq![rest@.subrange(0, i as int)] + split(
                        rest@.skip(i + plen),
                        p@,
                    ));
                    assert(rest@.skip(i + plen) =~= s@.skip(cur as int));
                    assert(pieces.deep_view() =~= old_dv.push(piece@));
                    assert(old_dv + (seq![piece@] + split(s@.skip(cur as int), p@)) =~= (old_dv
                        + seq![piece@]) + split(s@.skip(cur as int), p@));
                    assert(old_dv.push(piece@) =~= old_dv + seq![piece@]);
                }
            },
        }
    }
    pieces
}

/// The string slice holding the single decimal digit `d`.
fn digit_str(d: usize) -> (r: &'static str)
    requires
        d < 10,
    ensures
        r@ == seq![digit_char(d as int)],
{
    let r: &'static str = if d == 0 {
        "0"
    } else if d == 1 {
        "1"
    } else if d == 2 {
        "2"
    } else if d == 3 {
        "3"
    } else if d == 4 {
        "4"
    } else if d == 5 {
        "5"
    } else if d == 6 {
        "6"
    } else if d == 7 {
        "7"
    } else if d == 8 {
        "8"
    } else {
        "9"
    };
    proof {
        reveal_strlit("0");
        reveal_strlit("1");
        reveal_strlit("2");
        reveal_strlit("3");
        reveal_strlit("4");
        reveal_strlit("5");
        reveal_strlit("6");
        reveal_strlit("7");
        reveal_strlit("8");
        reveal_strlit("9");
        assert(r@ =~= seq![digit_char(d as int)]);
    }
    r
}

/// The decimal rendering of `n`, as `dec_chars` gives it.
pub fn dec_string(n: usize) -> (r: String)
    ensures
        r@ == dec_chars(n as int),
    decreases n,
{
    if n < 10 {
        String::from_str(digit_str(n))
    } else {
        let mut s = dec_string(n / 10);
        s.append(digit_str(n % 10));
        proof {
            assert(s@ =~= dec_chars(n as int));
        }
        s
    }
}

} // verus!
