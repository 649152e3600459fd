//! Byte-sequence scanning primitives shared by the parser and the router:
//! searching for a byte, a whitespace byte or a byte subsequence, prefix
//! tests, and ASCII case folding.

use vstd::prelude::*;

verus! {

pub const LF: u8 = 10;

pub const CR: u8 = 13;

pub const SP: u8 = 32;

pub const SLASH: u8 = 47;

/// A carriage return followed by a line feed.
pub open spec fn crlf() -> Seq<u8> {
    seq![CR, LF]
}

/// ASCII whitespace, as the request-line tokenizer understands it.
pub open spec fn is_ws(b: u8) -> bool {
    b == SP || b == 9 || b == LF || b == 11 || b == 12 || b == CR
}

/// ASCII case folding for a single byte.
pub open spec fn lower_byte(b: u8) -> u8 {
    if 65 <= b && b <= 90 {
        (b + 32) as u8
    } else {
        b
    }
}

/// ASCII case folding over a whole byte sequence.
pub open spec fn lower(s: Seq<u8>) -> Seq<u8> {
    Seq::new(s.len(), |i: int| lower_byte(s[i]))
}

/// The views of a sequence of byte vectors.
pub open spec fn seq_views(v: Seq<Vec<u8>>) -> Seq<Seq<u8>> {
    Seq::new(v.len(), |i: int| v[i]@)
}

/// The views of a sequence of byte-vector pairs.
pub open spec fn pair_views(v: Seq<(Vec<u8>, Vec<u8>)>) -> Seq<(Seq<u8>, Seq<u8>)> {
    Seq::new(v.len(), |i: int| (v[i].0@, v[i].1@))
}

/// `p` occurs at the front of `s`.
pub open spec fn is_prefix(p: Seq<u8>, s: Seq<u8>) -> bool {
    p.len() <= s.len() && s.take(p.len() as int) == p
}

/// Index of the first occurrence of `b` in `s`; `s.len()` when absent.
pub open spec fn find_first(s: Seq<u8>, b: u8) -> int
    decreases s.len(),
{
    if s.len() == 0 {
        0
    } else if s[0] == b {
        0
    } else {
        1 + find_first(s.drop_first(), b)
    }
}

/// A scan that saw no `b` before `n`, and `b` (or the end) at `n`, found the
/// first occurrence.
pub proof fn lemma_find_first_at(s: Seq<u8>, b: u8, n: int)
    requires
        0 <= n <= s.len(),
        forall|k: int| 0 <= k < n ==> s[k] != b,
        n < s.len() ==> s[n] == b,
    ensures
        find_first(s, b) == n,
    decreases s.len(),
{
    if n == 0 {
    } else {
        let t = s.drop_first();
        assert(s[0] != b);
        assert forall|k: int| 0 <= k < n - 1 implies t[k] != b by {
            assert(t[k] == s[k + 1]);
        }
        assert(n - 1 < t.len() ==> t[n - 1] == s[n]);
        lemma_find_first_at(t, b, n - 1);
    }
}

/// Index of the first whitespace byte in `s`; `s.len()` when absent.
pub open spec fn first_ws(s: Seq<u8>) -> int
    decreases s.len(),
{
    if s.len() == 0 {
        0
    } else if is_ws(s[0]) {
        0
    } else {
        1 + first_ws(s.drop_first())
    }
}

/// The whitespace twin of `lemma_find_first_at`.
pub proof fn lemma_first_ws_at(s: Seq<u8>, n: int)
    requires
        0 <= n <= s.len(),
        forall|k: int| 0 <= k < n ==> !is_ws(s[k]),
        n < s.len() ==> is_ws(s[n]),
    ensures
        first_ws(s) == n,
    decreases s.len(),
{
    if n == 0 {
    } else {
        let t = s.drop_first();
        assert(!is_ws(s[0]));
        assert forall|k: int| 0 <= k < n - 1 implies !is_ws(t[k]) by {
            assert(t[k] == s[k + 1]);
        }
        assert(n - 1 < t.len() ==> t[n - 1] == s[n]);
        lemma_first_ws_at(t, n - 1);
    }
}

/// Index of the first occurrence of `n` as a contiguous subsequence of `s`;
/// -1 when there is none.
pub open spec fn find_sub(s: Seq<u8>, n: Seq<u8>) -> int
    decreases s.len(),
{
    if n.len() > s.len() {
        -1
    } else if s.take(n.len() as int) == n {
        0
    } else if s.len() == 0 {
        -1
    } else {
        let r = find_sub(s.drop_first(), n);
        if r < 0 {
            -1
        } else {
            1 + r
        }
    }
}

/// `n` occurs somewhere inside `s`.
pub open spec fn has_sub(s: Seq<u8>, n: Seq<u8>) -> bool {
    find_sub(s, n) >= 0
}

/// A match at `i`, with no match before it, is the first occurrence.
pub proof fn lemma_find_sub_at(s: Seq<u8>, n: Seq<u8>, i: int)
    requires
        0 <= i,
        i + n.len() <= s.len(),
        s.subrange(i, i + n.len() as int) == n,
        forall|j: int| 0 <= j < i ==> (#[trigger] s.subrange(j, j + n.len() as int)) != n,
    ensures
        find_sub(s, n) == i,
    decreases s.len(),
{
    assert(s.take(n.len() as int) =~= s.subrange(0, n.len() as int));
    if i == 0 {
    } else {
        assert(s.subrange(0, 0 + n.len() as int) != n);
        assert(s.subrange(0, n.len() as int) != n);
        let t = s.drop_first();
        assert(t.subrange(i - 1, i - 1 + n.len() as int) =~= s.subrange(i, i + n.len() as int));
        assert forall|j: int| 0 <= j < i - 1 implies (#[trigger] t.subrange(j, j + n.len() as int)) != n by {
            assert(t.subrange(j, j + n.len() as int) =~= s.subrange(j + 1, j + 1 + n.len() as int));
        }
        lemma_find_sub_at(t, n, i - 1);
    }
}

/// If no window of `s` matches `n`, there is no occurrence.
pub proof fn lemma_find_sub_none(s: Seq<u8>, n: Seq<u8>)
    requires
        forall|j: int| 0 <= j <= s.len() - n.len() ==> (#[trigger] s.subrange(j, j + n.len() as int)) != n,
    ensures
        find_sub(s, n) == -1,
    decreases s.len(),
{
    if n.len() > s.len() {
    } else {
        assert(s.take(n.len() as int) =~= s.subrange(0, n.len() as int));
        assert(s.subrange(0, 0 + n.len() as int) != n);
        assert(s.subrange(0, n.len() as int) != n);
        if s.len() == 0 {
            assert(s.subrange(0, 0) =~= n);
            assert(false);
        } else {
            let t = s.drop_first();
            assert forall|j: int| 0 <= j <= t.len() - n.len() implies (#[trigger] t.subrange(
                j,
                j + n.len() as int,
            )) != n by {
                assert(t.subrange(j, j + n.len() as int) =~= s.subrange(
                    j + 1,
                    j + 1 + n.len() as int,
                ));
            }
            lemma_find_sub_none(t, n);
        }
    }
}

/// Exec scan for `b` in `s[from..]`; returns `s.len()` when absent.
pub fn find_byte_from(s: &[u8], from: usize, b: u8) -> (j: usize)
    requires
        from <= s@.len(),
    ensures
        from <= j <= s@.len(),
        forall|k: int| from <= k < j ==> s@[k] != b,
        j < s@.len() ==> s@[j as int] == b,
{
    let mut i: usize = from;
    while i < s.len()
        invariant
            from <= i <= s@.len(),
            forall|k: int| from <= k < i ==> s@[k] != b,
        decreases s@.len() - i,
    {
        if s[i] == b {
            return i;
        }
        i = i + 1;
    }
    i
}

pub fn is_ws_byte(b: u8) -> (r: bool)
    ensures
        r == is_ws(b),
{
    b == SP || b == 9 || b == LF || b == 11 || b == 12 || b == CR
}

/// Exec scan for whitespace in `s[from..]`; returns `s.len()` when absent.
pub fn find_ws_from(s: &[u8], from: usize) -> (j: usize)
    requires
        from <= s@.len(),
    ensures
        from <= j <= s@.len(),
        forall|k: int| from <= k < j ==> !is_ws(s@[k]),
        j < s@.len() ==> is_ws(s@[j as int]),
{
    let mut i: usize = from;
    while i < s.len()
        invariant
            from <= i <= s@.len(),
            forall|k: int| from <= k < i ==> !is_ws(s@[k]),
        decreases s@.len() - i,
    {
        if is_ws_byte(s[i]) {
            return i;
        }
        i = i + 1;
    }
    i
}

/// Byte-for-byte equality of two slices.
pub fn bytes_eq(a: &[u8], b: &[u8]) -> (r: bool)
    ensures
        r == (a@ == b@),
{
    if a.len() != b.len() {
        return false;
    }
    let mut i: usize = 0;
    while i < a.len()
        invariant
            a@.len() == b@.len(),
            0 <= i <= a@.len(),
            forall|k: int| 0 <= k < i ==> a@[k] == b@[k],
        decreases a@.len() - i,
    {
        if a[i] != b[i] {
            return false;
        }
        i = i + 1;
    }
    proof {
        assert(a@ =~= b@);
    }
    true
}

/// Does `s` begin with `p`?
pub fn starts_with(s: &[u8], p: &[u8]) -> (r: bool)
    ensures
        r == is_prefix(p@, s@),
{
    if p.len() > s.len() {
        return false;
    }
    let mut i: usize = 0;
    while i < p.len()
        invariant
            p@.len() <= s@.len(),
            0 <= i <= p@.len(),
            forall|k: int| 0 <= k < i ==> s@[k] == p@[k],
        decreases p@.len() - i,
    {
        if s[i] != p[i] {
            proof {
                if is_prefix(p@, s@) {
                    assert(s@.take(p@.len() as int)[i as int] == p@[i as int]);
                }
            }
            return false;
        }
        i = i + 1;
    }
    proof {
        assert(s@.take(p@.len() as int) =~= p@);
    }
    true
}

/// Exec scan for `n` as a contiguous subsequence of `s`.
pub fn find_sub_in(s: &[u8], n: &[u8]) -> (r: Option<usize>)
    ensures
        match r {
            Some(j) => find_sub(s@, n@) == j as int && j + n@.len() <= s@.len(),
            None => find_sub(s@, n@) == -1,
        },
{
    if n.len() > s.len() {
        return None;
    }
    if n.len() == 0 {
        proof {
            assert(s@.take(0) =~= n@);
        }
        return Some(0);
    }
    let bound: usize = s.len() - n.len();
    let mut i: usize = 0;
    while i <= bound
        invariant
            1 <= n@.len() <= s@.len(),
            s@.len() <= usize::MAX,
            bound == s@.len() - n@.len(),
            0 <= i <= bound + 1,
            forall|j: int| 0 <= j < i ==> (#[trigger] s@.subrange(j, j + n@.len() as int)) != n@,
        decreases bound + 1 - i,
    {
        let piece = vstd::slice::slice_subrange(s, i, i + n.len());
        if bytes_eq(piece, n) {
            proof {
                assert(s@.subrange(i as int, i as int + n@.len() as int) == piece@);
                lemma_find_sub_at(s@, n@, i as int);
            }
            return Some(i);
        }
        proof {
            assert(s@.subrange(i as int, i as int + n@.len() as int) == piece@);
        }
        i = i + 1;
    }
    proof {
        lemma_find_sub_none(s@, n@);
    }
    None
}

/// Does `n` occur inside `s`?
pub fn contains_sub(s: &[u8], n: &[u8]) -> (r: bool)
    ensures
        r == has_sub(s@, n@),
{
    match find_sub_in(s, n) {
        Some(_) => true,
        None => false,
    }
}

/// Copy `s[i..j]` into a fresh vector.
pub fn copy_range(s: &[u8], i: usize, j: usize) -> (v: Vec<u8>)
    requires
        i <= j <= s@.len(),
    ensures
        v@ == s@.subrange(i as int, j as int),
{
    vstd::slice::slice_to_vec(vstd::slice::slice_subrange(s, i, j))
}

/// Append every byte of `src` to `dst`.
pub fn append_bytes(dst: &mut Vec<u8>, src: &[u8])
    ensures
        final(dst)@ == old(dst)@ + src@,
{
    let mut i: usize = 0;
    while i < src.len()
        invariant
            0 <= i <= src@.len(),
            dst@ == old(dst)@ + src@.take(i as int),
        decreases src@.len() - i,
    {
        let b = src[i];
        dst.push(b);
        proof {
            assert(old(dst)@ + src@.take(i as int + 1) =~= (old(dst)@ + src@.take(
                i as int,
            )).push(src@[i as int]));
        }
        i = i + 1;
    }
    proof {
        assert(src@.take(src@.len() as int) =~= src@);
    }
}

/// ASCII-lowercase a byte slice into a fresh vector.
pub fn lower_bytes(s: &[u8]) -> (v: Vec<u8>)
    ensures
        v@ == lower(s@),
{
    let mut out: Vec<u8> = Vec::new();
    let mut i: usize = 0;
    while i < s.len()
        invariant
            0 <= i <= s@.len(),
            out@.len() == i,
            forall|k: int| 0 <= k < i ==> out@[k] == lower_byte(s@[k]),
        decreases s@.len() - i,
    {
        let b = s[i];
        if 65 <= b && b <= 90 {
            out.push(b + 32);
        } else {
            out.push(b);
        }
        i = i + 1;
    }
    proof {
        assert(out@ =~= lower(s@));
    }
    out
}

} // verus!
