use vstd::prelude::*;

verus! {

/// Unicode `White_Space`, the characters that `str::trim` removes.
pub open spec fn is_space(c: char) -> bool {
    let v = c as u32;
    (0x9 <= v && v <= 0xd) || v == 0x20 || v == 0x85 || v == 0xa0 || v == 0x1680 || (0x2000 <= v
        && v <= 0x200a) || v == 0x2028 || v == 0x2029 || v == 0x202f || v == 0x205f || v == 0x3000
}

/// `s` without its leading white space.
pub open spec fn trim_front(s: Seq<char>) -> Seq<char>
    decreases s.len(),
{
    if s.len() > 0 && is_space(s[0]) {
        trim_front(s.drop_first())
    } else {
        s
    }
}

/// `s` without its trailing white space.
pub open spec fn trim_back(s: Seq<char>) -> Seq<char>
    decreases s.len(),
{
    if s.len() > 0 && is_space(s.last()) {
        trim_back(s.drop_last())
    } else {
        s
    }
}

/// `s` without its leading `(` characters.
pub open spec fn strip_open(s: Seq<char>) -> Seq<char>
    decreases s.len(),
{
    if s.len() > 0 && s[0] == '(' {
        strip_open(s.drop_first())
    } else {
        s
    }
}

/// `s` without its trailing `)` characters.
pub open spec fn strip_close(s: Seq<char>) -> Seq<char>
    decreases s.len(),
{
    if s.len() > 0 && s.last() == ')' {
        strip_close(s.drop_last())
    } else {
        s
    }
}

pub open spec fn trim(s: Seq<char>) -> Seq<char> {
    trim_back(trim_front(s))
}

/// A numeric parameter as typed, with the parentheses that shield a negative sign
/// removed: trimmed, stripped of every leading `(` and trailing `)`, trimmed again.
pub open spec fn stripped_parameter(s: Seq<char>) -> Seq<char> {
    trim(strip_close(strip_open(trim(s))))
}

/// Whether `c` is white space in the sense of `is_space`.
pub fn is_space_char(c: char) -> (r: bool)
    ensures
        r == is_space(c),
{
    let v = c as u32;
    (0x9 <= v && v <= 0xd) || v == 0x20 || v == 0x85 || v == 0xa0 || v == 0x1680 || (0x2000 <= v
        && v <= 0x200a) || v == 0x2028 || v == 0x2029 || v == 0x202f || v == 0x205f || v == 0x3000
}

/// Moves `lo` past the white space at the front of `s[lo..hi]`.
fn skip_front_space(s: &Vec<char>, lo: usize, hi: usize) -> (r: usize)
    requires
        lo <= hi <= s@.len(),
    ensures
        lo <= r <= hi,
        trim_front(s@.subrange(lo as int, hi as int)) == s@.subrange(r as int, hi as int),
{
    let mut i = lo;
    while i < hi && is_space_char(s[i])
        invariant
            lo <= i <= hi,
            hi <= s@.len(),
            trim_front(s@.subrange(lo as int, hi as int)) == trim_front(s@.subrange(i as int, hi as int)),
        decreases hi - i,
    {
        assert(s@.subrange(i as int, hi as int).drop_first() =~= s@.subrange(i + 1, hi as int));
        i = i + 1;
    }
    i
}

/// Moves `hi` before the white space at the back of `s[lo..hi]`.
fn skip_back_space(s: &Vec<char>, lo: usize, hi: usize) -> (r: usize)
    requires
        lo <= hi <= s@.len(),
    ensures
        lo <= r <= hi,
        trim_back(s@.subrange(lo as int, hi as int)) == s@.subrange(lo as int, r as int),
{
    let mut j = hi;
    while j > lo && is_space_char(s[j - 1])
        invariant
            lo <= j <= hi,
            hi <= s@.len(),
            trim_back(s@.subrange(lo as int, hi as int)) == trim_back(s@.subrange(lo as int, j as int)),
        decreases j - lo,
    {
        assert(s@.subrange(lo as int, j as int).drop_last() =~= s@.subrange(lo as int, j - 1));
        j = j - 1;
    }
    j
}

/// Moves `lo` past the `(` characters at the front of `s[lo..hi]`.
fn skip_open(s: &Vec<char>, lo: usize, hi: usize) -> (r: usize)
    requires
        lo <= hi <= s@.len(),
    ensures
        lo <= r <= hi,
        strip_open(s@.subrange(lo as int, hi as int)) == s@.subrange(r as int, hi as int),
{
    let mut i = lo;
    while i < hi && s[i] == '('
        invariant
            lo <= i <= hi,
            hi <= s@.len(),
            strip_open(s@.subrange(lo as int, hi as int)) == strip_open(s@.subrange(i as int, hi as int)),
        decreases hi - i,
    {
        assert(s@.subrange(i as int, hi as int).drop_first() =~= s@.subrange(i + 1, hi as int));
        i = i + 1;
    }
    i
}

/// Moves `hi` before the `)` characters at the back of `s[lo..hi]`.
fn skip_close(s: &Vec<char>, lo: usize, hi: usize) -> (r: usize)
    requires
        lo <= hi <= s@.len(),
    ensures
        lo <= r <= hi,
        strip_close(s@.subrange(lo as int, hi as int)) == s@.subrange(lo as int, r as int),
{
    let mut j = hi;
    while j > lo && s[j - 1] == ')'
        invariant
            lo <= j <= hi,
            hi <= s@.len(),
            strip_close(s@.subrange(lo as int, hi as int)) == strip_close(s@.subrange(lo as int, j as int)),
        decreases j - lo,
    {
        assert(s@.subrange(lo as int, j as int).drop_last() =~= s@.subrange(lo as int, j - 1));
        j = j - 1;
    }
    j
}

/// The text of a numeric parameter with surrounding white space and shielding
/// parentheses removed, ready to be read as a number.
pub fn strip_parameter(s: &Vec<char>) -> (r: Vec<char>)
    ensures
        r@ == stripped_parameter(s@),
{
    let n = s.len();
    let a = skip_front_space(s, 0, n);
    let b = skip_back_space(s, a, n);
    let c = skip_open(s, a, b);
    let d = skip_close(s, c, b);
    let e = skip_front_space(s, c, d);
    let f = skip_back_space(s, e, d);
    assert(s@.subrange(0, n as int) =~= s@);
    let mut r: Vec<char> = Vec::new();
    let mut k = e;
    while k < f
        invariant
            e <= k <= f,
            f <= s@.len(),
            r@ == s@.subrange(e as int, k as int),
        decreases f - k,
    {
        r.push(s[k]);
        assert(r@ =~= s@.subrange(e as int, k + 1));
        k = k + 1;
    }
    r
}

} // verus!
