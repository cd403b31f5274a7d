use vstd::prelude::*;

verus! {

/// A character with the Unicode White_Space property.
pub open spec fn is_white_space(c: char) -> bool {
    let u = c as u32;
    ||| 9 <= u <= 13
    ||| u == 32 || u == 0x85 || u == 0xA0 || u == 0x1680
    ||| 0x2000 <= u <= 0x200A
    ||| u == 0x2028 || u == 0x2029 || u == 0x202F || u == 0x205F || u == 0x3000
}

/// The text without leading white space.
pub open spec fn trim_start_ws(s: Seq<char>) -> Seq<char>
    decreases s.len(),
{
    if s.len() > 0 && is_white_space(s[0]) { trim_start_ws(s.drop_first()) } else { s }
}

/// The text without trailing white space.
pub open spec fn trim_end_ws(s: Seq<char>) -> Seq<char>
    decreases s.len(),
{
    if s.len() > 0 && is_white_space(s.last()) { trim_end_ws(s.drop_last()) } else { s }
}

/// The text without leading and trailing white space, as `str::trim` gives it.
pub open spec fn trim_of(s: Seq<char>) -> Seq<char> {
    trim_end_ws(trim_start_ws(s))
}

fn white_space(c: char) -> (r: bool)
    ensures
        r == is_white_space(c),
{
    let u = c as u32;
    (9 <= u && u <= 13) || u == 32 || u == 0x85 || u == 0xA0 || u == 0x1680 || (0x2000 <= u && u <= 0x200A)
        || u == 0x2028 || u == 0x2029 || u == 0x202F || u == 0x205F || u == 0x3000
}

/// What `str::to_lowercase` makes of a string.
pub uninterp spec fn lower_of(s: Seq<char>) -> Seq<char>;

/// Relies on `str::chars`: the characters of the string, in order.
#[verifier::external_body]
pub(crate) fn chars_of(s: &str) -> (r: Vec<char>)
    ensures
        r@ == s@,
{
    s.chars().collect()
}

/// Relies on `FromIterator<char>` for `String`: the string made of these characters.
#[verifier::external_body]
pub(crate) fn string_of(v: &[char]) -> (r: String)
    ensures
        r@ == v@,
{
    v.iter().collect()
}

/// The string made of these characters.
pub(crate) fn string_of_chars(v: &Vec<char>) -> (r: String)
    ensures
        r@ == v@,
{
    string_of(v.as_slice())
}

/// The string without leading and trailing white space.
pub(crate) fn trimmed(s: &str) -> (r: String)
    ensures
        r@ == trim_of(s@),
{
    let c = chars_of(s);
    let n = c.len();
    let mut a: usize = 0;
    assert(c@.subrange(0, n as int) =~= c@);
    while a < n && white_space(c[a])
        invariant
            n == c@.len(),
            a <= n,
            trim_start_ws(c@) == trim_start_ws(c@.subrange(a as int, n as int)),
        decreases n - a,
    {
        assert(c@.subrange(a as int, n as int).drop_first() =~= c@.subrange(a as int + 1, n as int));
        a = a + 1;
    }
    let ghost t = c@.subrange(a as int, n as int);
    assert(trim_start_ws(t) == t);
    let mut b: usize = n;
    assert(t.subrange(0, t.len() as int) =~= t);
    while b > a && white_space(c[b - 1])
        invariant
            a <= b <= n,
            n == c@.len(),
            t == c@.subrange(a as int, n as int),
            trim_end_ws(t) == trim_end_ws(c@.subrange(a as int, b as int)),
        decreases b,
    {
        assert(c@.subrange(a as int, b as int).drop_last() =~= c@.subrange(a as int, b as int - 1));
        b = b - 1;
    }
    let mut out: Vec<char> = Vec::new();
    let mut k = a;
    while k < b
        invariant
            a <= k <= b,
            b <= n,
            n == c@.len(),
            out@ == c@.subrange(a as int, k as int),
        decreases b - k,
    {
        out.push(c[k]);
        k = k + 1;
        assert(out@ =~= c@.subrange(a as int, k as int));
    }
    string_of(out.as_slice())
}

/// Relies on `str::to_lowercase`: the lowercase form of the string.
#[verifier::external_body]
pub(crate) fn lowercased(s: &str) -> (r: String)
    ensures
        r@ == lower_of(s@),
        s@.len() == 0 ==> r@.len() == 0,
{
    s.to_lowercase()
}

/// Whether `n` occurs in `h` starting at `i`.
pub open spec fn occurs_at<T>(h: Seq<T>, n: Seq<T>, i: int) -> bool {
    0 <= i && i + n.len() <= h.len() && h.subrange(i, i + n.len()) == n
}

/// Whether `n` occurs anywhere in `h`.
pub open spec fn occurs_in<T>(h: Seq<T>, n: Seq<T>) -> bool {
    exists|i: int| occurs_at(h, n, i)
}

/// Whether `n` occurs in `h` starting at `i`.
pub fn matches_at(h: &[char], n: &[char], i: usize) -> (r: bool)
    ensures
        r == occurs_at(h@, n@, i as int),
{
    if i > h.len() || n.len() > h.len() - i {
        return false;
    }
    let hl = h.len();
    let mut k: usize = 0;
    while k < n.len()
        invariant
            hl == h@.len(),
            i + n@.len() <= h@.len(),
            k <= n@.len(),
            forall|m: int| 0 <= m < k ==> h@[i + m] == n@[m],
        decreases n@.len() - k,
    {
        assert(i + k < h@.len());
        if h[i + k] != n[k] {
            assert(h@.subrange(i as int, i + n@.len())[k as int] != n@[k as int]);
            return false;
        }
        k = k + 1;
    }
    assert(h@.subrange(i as int, i + n@.len()) =~= n@);
    true
}

/// The first position at which `n` occurs in `h`.
pub fn find_chars(h: &[char], n: &[char]) -> (r: Option<usize>)
    ensures
        match r {
            Some(i) => occurs_at(h@, n@, i as int) && forall|j: int| 0 <= j < i ==> !occurs_at(h@, n@, j),
            None => !occurs_in(h@, n@),
        },
{
    let mut i: usize = 0;
    while i < h.len()
        invariant
            i <= h@.len(),
            forall|j: int| 0 <= j < i ==> !occurs_at(h@, n@, j),
        decreases h@.len() - i,
    {
        if matches_at(h, n, i) {
            return Some(i);
        }
        i = i + 1;
    }
    if matches_at(h, n, i) {
        return Some(i);
    }
    assert forall|j: int| !occurs_at(h@, n@, j) by {
        if 0 <= j && j + n@.len() <= h@.len() {
            assert(j <= i);
        }
    }
    None
}

/// Whether `n` occurs in `h`.
pub fn contains_chars(h: &[char], n: &[char]) -> (r: bool)
    ensures
        r == occurs_in(h@, n@),
{
    match find_chars(h, n) {
        Some(_) => true,
        None => false,
    }
}

/// The value of a string of decimal digits.
pub open spec fn digits_value(s: Seq<u8>) -> nat
    decreases s.len(),
{
    if s.len() == 0 {
        0
    } else {
        digits_value(s.drop_last()) * 10 + (s.last() - 48) as nat
    }
}

pub open spec fn is_digit(b: u8) -> bool {
    48 <= b <= 57
}

/// The value of a non-empty string of decimal digits that fits in a `u64`.
pub open spec fn decimal_value(s: Seq<u8>) -> Option<u64> {
    if s.len() > 0 && (forall|i: int| 0 <= i < s.len() ==> is_digit(#[trigger] s[i])) && digits_value(s) <= u64::MAX {
        Some(digits_value(s) as u64)
    } else {
        None
    }
}

/// Reads a non-empty string of decimal digits as a `u64`; `None` where it is empty, holds
/// another byte, or does not fit.
pub fn parse_decimal(s: &[u8]) -> (r: Option<u64>)
    ensures
        r == decimal_value(s@),
{
    if s.len() == 0 {
        return None;
    }
    let mut acc: u64 = 0;
    let mut i: usize = 0;
    while i < s.len()
        invariant
            i <= s@.len(),
            forall|k: int| 0 <= k < i ==> is_digit(#[trigger] s@[k]),
            acc == digits_value(s@.subrange(0, i as int)),
        decreases s@.len() - i,
    {
        let b = s[i];
        assert(s@.subrange(0, i as int + 1).drop_last() =~= s@.subrange(0, i as int));
        if b < 48 || b > 57 {
            return None;
        }
        let d = (b - 48) as u64;
        if acc > (u64::MAX - d) / 10 {
            proof {
                lemma_digits_grow(s@, i as int + 1);
                assert(digits_value(s@.subrange(0, i as int + 1)) == acc * 10 + d) by(nonlinear_arith)
                    requires digits_value(s@.subrange(0, i as int + 1)) == digits_value(s@.subrange(0, i as int)) * 10 + d,
                        acc == digits_value(s@.subrange(0, i as int));
                assert(acc * 10 + d > u64::MAX) by(nonlinear_arith)
                    requires acc > (u64::MAX - d) / 10, d <= 9;
                if forall|k: int| 0 <= k < s@.len() ==> is_digit(#[trigger] s@[k]) {
                    lemma_digits_prefix_le(s@, i as int + 1);
                }
            }
            return None;
        }
        assert(acc * 10 + d <= u64::MAX) by(nonlinear_arith)
            requires acc <= (u64::MAX - d) / 10, d <= 9;
        acc = acc * 10 + d;
        i = i + 1;
    }
    assert(s@.subrange(0, i as int) =~= s@);
    Some(acc)
}

proof fn lemma_digits_grow(s: Seq<u8>, n: int)
    requires
        0 < n <= s.len(),
        is_digit(s[n - 1]),
    ensures
        digits_value(s.subrange(0, n)) == digits_value(s.subrange(0, n - 1)) * 10 + (s[n - 1] - 48) as nat,
{
    assert(s.subrange(0, n).drop_last() =~= s.subrange(0, n - 1));
}

/// A digit string is worth at least any of its prefixes.
proof fn lemma_digits_prefix_le(s: Seq<u8>, n: int)
    requires
        0 <= n <= s.len(),
        forall|i: int| 0 <= i < s.len() ==> is_digit(#[trigger] s[i]),
    ensures
        digits_value(s.subrange(0, n)) <= digits_value(s),
    decreases s.len() - n,
{
    if n < s.len() {
        lemma_digits_prefix_le(s, n + 1);
        assert(s.subrange(0, n + 1).drop_last() =~= s.subrange(0, n));
    } else {
        assert(s.subrange(0, n) =~= s);
    }
}

} // verus!
