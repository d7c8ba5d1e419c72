//! Character-level helpers shared by the word parser and the graders.
//!
//! Every string is handled as its sequence of Unicode scalar values, so the
//! contracts below speak of `Seq<char>` and the code works on `Vec<char>`.

use vstd::prelude::*;

verus! {

/// The lower-case form of an ASCII capital letter; every other character is
/// left as it is.
pub open spec fn fold(c: char) -> char {
    if 'A' <= c && c <= 'Z' {
        ((c as u8) + 32) as char
    } else {
        c
    }
}

/// Two texts are alike when they have the same length and agree character by
/// character once ASCII capitals are folded to lower case.
pub open spec fn alike(a: Seq<char>, b: Seq<char>) -> bool {
    &&& a.len() == b.len()
    &&& forall|i: int| 0 <= i < a.len() ==> fold(#[trigger] a[i]) == fold(b[i])
}

/// White space in the sense of the Unicode property `White_Space`.
pub open spec fn is_space(c: char) -> bool {
    let n = c as u32;
    ||| 0x09 <= n <= 0x0D
    ||| n == 0x20
    ||| n == 0x85
    ||| n == 0xA0
    ||| n == 0x1680
    ||| 0x2000 <= n <= 0x200A
    ||| n == 0x2028
    ||| n == 0x2029
    ||| n == 0x202F
    ||| n == 0x205F
    ||| n == 0x3000
}

/// `s` without its leading white space.
pub open spec fn trim_start(s: Seq<char>) -> Seq<char>
    decreases s.len(),
{
    if s.len() > 0 && is_space(s.first()) {
        trim_start(s.drop_first())
    } else {
        s
    }
}

/// `s` without its trailing white space.
pub open spec fn trim_end(s: Seq<char>) -> Seq<char>
    decreases s.len(),
{
    if s.len() > 0 && is_space(s.last()) {
        trim_end(s.drop_last())
    } else {
        s
    }
}

/// `s` without leading and trailing white space.
pub open spec fn trim(s: Seq<char>) -> Seq<char> {
    trim_end(trim_start(s))
}

pub fn lower(c: char) -> (r: char)
    ensures
        r == fold(c),
{
    if 'A' <= c && c <= 'Z' {
        ((c as u8) + 32) as char
    } else {
        c
    }
}

pub fn is_blank(c: char) -> (r: bool)
    ensures
        r == is_space(c),
{
    let n: u32 = c as u32;
    (0x09 <= n && n <= 0x0D) || n == 0x20 || n == 0x85 || n == 0xA0 || n == 0x1680 || (0x2000 <= n
        && n <= 0x200A) || n == 0x2028 || n == 0x2029 || n == 0x202F || n == 0x205F || n == 0x3000
}

/// The characters of a string, in order.
pub fn chars_of(s: &str) -> (v: Vec<char>)
    ensures
        v@ == s@,
{
    let mut v: Vec<char> = Vec::new();
    for c in it: s.chars()
        invariant
            it.seq() == s@,
            v@ == s@.take(it.index() as int),
    {
        v.push(c);
    }
    assert(v@ == s@);
    v
}

/// Whether what follows position `i` in `a` is alike to what follows
/// position `j` in `b`.
pub fn alike_from(a: &Vec<char>, i: usize, b: &Vec<char>, j: usize) -> (r: bool)
    requires
        i <= a@.len(),
        j <= b@.len(),
    ensures
        r == alike(a@.skip(i as int), b@.skip(j as int)),
{
    if a.len() - i != b.len() - j {
        return false;
    }
    let n: usize = a.len() - i;
    let mut k: usize = 0;
    while k < n
        invariant
            i <= a@.len(),
            j <= b@.len(),
            i + n == a.len(),
            j + n == b.len(),
            k <= n,
            forall|m: int| 0 <= m < k ==> fold(#[trigger] a@.skip(i as int)[m]) == fold(b@.skip(j as int)[m]),
        decreases n - k,
    {
        if lower(a[i + k]) != lower(b[j + k]) {
            assert(fold(a@.skip(i as int)[k as int]) != fold(b@.skip(j as int)[k as int]));
            return false;
        }
        k += 1;
    }
    true
}

/// Whether what follows position `i` in `a` is exactly what follows position
/// `j` in `b`.
pub fn equal_from(a: &Vec<char>, i: usize, b: &Vec<char>, j: usize) -> (r: bool)
    requires
        i <= a@.len(),
        j <= b@.len(),
    ensures
        r == (a@.skip(i as int) == b@.skip(j as int)),
{
    if a.len() - i != b.len() - j {
        assert(a@.skip(i as int).len() != b@.skip(j as int).len());
        return false;
    }
    let n: usize = a.len() - i;
    let mut k: usize = 0;
    while k < n
        invariant
            i <= a@.len(),
            j <= b@.len(),
            i + n == a.len(),
            j + n == b.len(),
            k <= n,
            forall|m: int| 0 <= m < k ==> #[trigger] a@.skip(i as int)[m] == b@.skip(j as int)[m],
        decreases n - k,
    {
        if a[i + k] != b[j + k] {
            assert(a@.skip(i as int)[k as int] != b@.skip(j as int)[k as int]);
            return false;
        }
        k += 1;
    }
    assert(a@.skip(i as int) =~= b@.skip(j as int));
    true
}

/// Whether `a` is alike to the text `b`.
pub fn alike_text(a: &Vec<char>, b: &str) -> (r: bool)
    ensures
        r == alike(a@, b@),
{
    let other = chars_of(b);
    assert(a@.skip(0) =~= a@ && other@.skip(0) =~= other@);
    alike_from(a, 0, &other, 0)
}

/// Whether `a` begins with `marker`.
pub fn has_prefix(a: &Vec<char>, marker: &Vec<char>) -> (r: bool)
    ensures
        r == marker@.is_prefix_of(a@),
{
    if marker.len() > a.len() {
        return false;
    }
    let n: usize = marker.len();
    let mut k: usize = 0;
    while k < n
        invariant
            n == marker@.len(),
            n <= a@.len(),
            k <= n,
            forall|m: int| 0 <= m < k ==> #[trigger] a@[m] == marker@[m],
        decreases n - k,
    {
        if a[k] != marker[k] {
            assert(a@.subrange(0, n as int)[k as int] != marker@[k as int]);
            return false;
        }
        k += 1;
    }
    assert(marker@ =~= a@.subrange(0, n as int));
    true
}

/// The bounds of the part of `s` between `from` and `to` once its leading and
/// trailing white space is left out.
pub fn trim_range(s: &Vec<char>, from: usize, to: usize) -> (r: (usize, usize))
    requires
        from <= to <= s@.len(),
    ensures
        from <= r.0 <= r.1 <= to,
        s@.subrange(r.0 as int, r.1 as int) == trim(s@.subrange(from as int, to as int)),
{
    let mut lo: usize = from;
    while lo < to && is_blank(s[lo])
        invariant
            from <= lo <= to <= s@.len(),
            trim_start(s@.subrange(from as int, to as int)) == trim_start(
                s@.subrange(lo as int, to as int),
            ),
        decreases to - lo,
    {
        assert(s@.subrange(lo as int, to as int).drop_first() =~= s@.subrange(
            lo as int + 1,
            to as int,
        ));
        lo += 1;
    }
    let mut hi: usize = to;
    while lo < hi && is_blank(s[hi - 1])
        invariant
            lo <= hi <= to <= s@.len(),
            trim_end(s@.subrange(lo as int, to as int)) == trim_end(
                s@.subrange(lo as int, hi as int),
            ),
        decreases hi - lo,
    {
        assert(s@.subrange(lo as int, hi as int).drop_last() =~= s@.subrange(
            lo as int,
            hi as int - 1,
        ));
        hi -= 1;
    }
    (lo, hi)
}

} // verus!
