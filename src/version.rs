use vstd::prelude::*;
use vstd::utf8::encode_utf8;

use crate::addon::FileGameVersion;
use crate::text::{chars_of, parse_decimal, string_of};
use crate::text::{digits_value, is_digit};

verus! {

/// A version such as `1.18.2` or `1.20+`: numbered points, each with a flag that accepts any
/// larger number at that point, and an optional qualifier (no qualifier counts as newest).
#[derive(Clone, Debug)]
pub struct VersionPart {
    pub points: Vec<(u32, bool)>,
    pub qualifier: Option<Vec<u8>>,
}

/// A single version, or an inclusive range `start - end`.
#[derive(Clone, Debug)]
pub struct VersionMatchRange {
    pub start_vp: VersionPart,
    pub end_vp: Option<VersionPart>,
}

/// A comma separated list of ranges; one prefixed with `!` excludes.
#[derive(Clone, Debug)]
pub struct VersionMatcher {
    pub range: Vec<VersionMatchRange>,
    pub antirange: Vec<VersionMatchRange>,
}

/// Why a version text was refused.
#[derive(Clone, Copy, Debug, PartialEq, Eq, Structural)]
pub enum VersionError {
    /// One of `([]){}` occurred.
    IllegalChar,
    /// A point number does not fit in 32 bits.
    BadNumber,
    /// A range held a second `-` or did not end at a comma.
    BadRangeEnd,
    /// A configured range has no points.
    Empty,
    /// A configured range ends on a qualifier below the one it starts on.
    SwappedRange,
}

pub open spec fn is_skip(b: u8) -> bool {
    b == 32 || b == 13 || b == 10
}

pub open spec fn is_illegal(b: u8) -> bool {
    b == 40 || b == 41 || b == 91 || b == 93 || b == 123 || b == 125
}

/// `-` or `,`: where a version ends.
pub open spec fn is_part_end(b: u8) -> bool {
    b == 45 || b == 44
}

/// `.` or `w`: separates points.
pub open spec fn is_dot(b: u8) -> bool {
    b == 46 || b == 119
}

/// The state of a scan over the bytes of a version.
pub struct VpScan {
    pub points: Seq<(u32, bool)>,
    pub number: Seq<u8>,
    pub plus: bool,
    pub qualifier: Option<Seq<u8>>,
    pub quali: bool,
    pub failed: bool,
}

pub open spec fn vp_init() -> VpScan {
    VpScan { points: seq![], number: seq![], plus: false, qualifier: None, quali: false, failed: false }
}

/// `points` with the pending number appended, or failure where it does not fit.
pub open spec fn vp_flush(st: VpScan) -> VpScan {
    if st.number.len() == 0 {
        st
    } else if digits_value(st.number) > u32::MAX {
        VpScan { failed: true, ..st }
    } else {
        VpScan { points: st.points.push((digits_value(st.number) as u32, st.plus)), number: seq![], ..st }
    }
}

/// One byte of a version that is neither an end nor an illegal byte.
pub open spec fn vp_step(st: VpScan, b: u8) -> VpScan {
    if st.failed || is_skip(b) {
        st
    } else if st.quali {
        VpScan {
            qualifier: Some(match st.qualifier { Some(q) => q.push(b), None => seq![b] }),
            ..st
        }
    } else if is_digit(b) {
        VpScan { number: st.number.push(b), ..st }
    } else if b == 43 {
        if st.number.len() == 0 {
            if st.points.len() > 0 {
                VpScan { points: st.points.update(st.points.len() - 1, (st.points.last().0, true)), ..st }
            } else {
                st
            }
        } else {
            VpScan { plus: true, ..st }
        }
    } else if is_dot(b) {
        vp_flush(st)
    } else if b == 95 {
        VpScan { quali: true, ..st }
    } else {
        VpScan {
            quali: true,
            qualifier: Some(match st.qualifier { Some(q) => q.push(b), None => seq![b] }),
            ..st
        }
    }
}

/// The scan state after the given bytes.
pub open spec fn vp_scan(s: Seq<u8>) -> VpScan
    decreases s.len(),
{
    if s.len() == 0 {
        vp_init()
    } else {
        vp_step(vp_scan(s.drop_last()), s.last())
    }
}

/// The first position at or after `start` that ends a version: `-`, `,` or the end.
pub open spec fn part_end(s: Seq<u8>, start: int) -> int
    decreases s.len() - start,
{
    if start >= s.len() || is_part_end(s[start]) {
        start
    } else {
        part_end(s, start + 1)
    }
}

pub proof fn lemma_part_end(s: Seq<u8>, start: int)
    requires
        0 <= start <= s.len(),
    ensures
        start <= part_end(s, start) <= s.len(),
        part_end(s, start) < s.len() ==> is_part_end(s[part_end(s, start)]),
        forall|k: int| start <= k < part_end(s, start) ==> !is_part_end(#[trigger] s[k]),
    decreases s.len() - start,
{
    if start < s.len() && !is_part_end(s[start]) {
        lemma_part_end(s, start + 1);
    }
}

/// Whether an illegal byte occurs in `s[a..b)`.
pub open spec fn has_illegal(s: Seq<u8>, a: int, b: int) -> bool {
    exists|k: int| a <= k < b && is_illegal(#[trigger] s[k])
}

/// What reading a version from `s` at `start` gives: its points and qualifier, or `None` where
/// it is refused.
pub open spec fn vp_parse_spec(s: Seq<u8>, start: int) -> Option<(Seq<(u32, bool)>, Option<Seq<u8>>)> {
    let e = part_end(s, start);
    let st = vp_flush(vp_scan(s.subrange(start, e)));
    if has_illegal(s, start, e) || st.failed {
        None
    } else {
        Some((st.points, st.qualifier))
    }
}

impl VersionPart {
    pub open spec fn points_view(&self) -> Seq<(u32, bool)> {
        self.points@
    }

    /// The qualifier for comparisons: none counts as the single byte `0xFF`.
    pub open spec fn qual_view(&self) -> Seq<u8> {
        match self.qualifier {
            Some(q) => q@,
            None => seq![255u8],
        }
    }

    pub open spec fn parsed_as(&self, p: (Seq<(u32, bool)>, Option<Seq<u8>>)) -> bool {
        &&& self.points@ == p.0
        &&& match self.qualifier {
            Some(q) => p.1 == Some(q@),
            None => p.1 is None,
        }
    }

    /// A version with no points.
    pub fn empty() -> (r: Self)
        ensures
            r.points@.len() == 0,
            r.qualifier is None,
    {
        VersionPart { points: Vec::new(), qualifier: None }
    }

    /// Reads a version from the whole of `v` up to its first `-` or `,`.
    pub fn parse_str(v: &str) -> (r: Result<Self, VersionError>)
        ensures
            match r {
                Ok(p) => vp_parse_spec(encode_utf8(v@), 0) matches Some(x) && p.parsed_as(x),
                Err(_) => vp_parse_spec(encode_utf8(v@), 0) is None,
            },
    {
        let mut cursor: usize = 0;
        Self::parse(v.as_bytes(), &mut cursor)
    }

    /// Reads a version from `input` at `cursor` and leaves `cursor` on the byte that ends it.
    pub fn parse(input: &[u8], cursor: &mut usize) -> (r: Result<Self, VersionError>)
        requires
            *old(cursor) <= input@.len(),
        ensures
            match r {
                Ok(p) => vp_parse_spec(input@, *old(cursor) as int) matches Some(x) && p.parsed_as(x)
                    && *final(cursor) == part_end(input@, *old(cursor) as int),
                Err(_) => vp_parse_spec(input@, *old(cursor) as int) is None,
            },
    {
        let ghost start = *cursor as int;
        proof {
            lemma_part_end(input@, start);
        }
        let mut points: Vec<(u32, bool)> = Vec::new();
        let mut number: Vec<u8> = Vec::new();
        let mut plus = false;
        let mut qualifier: Option<Vec<u8>> = None;
        let mut quali = false;
        let ghost e = part_end(input@, start);
        loop
            invariant
                start == *old(cursor) as int,
                0 <= start <= *cursor <= e,
                e == part_end(input@, start),
                e <= input@.len(),
                e < input@.len() ==> is_part_end(input@[e]),
                forall|k: int| start <= k < e ==> !is_part_end(#[trigger] input@[k]),
                !has_illegal(input@, start, *cursor as int),
                ({
                    let st = vp_scan(input@.subrange(start, *cursor as int));
                    &&& !st.failed
                    &&& st.points == points@
                    &&& st.number == number@
                    &&& st.plus == plus
                    &&& st.quali == quali
                    &&& match qualifier {
                        Some(q) => st.qualifier == Some(q@),
                        None => st.qualifier is None,
                    }
                }),
                forall|k: int| 0 <= k < number@.len() ==> is_digit(#[trigger] number@[k]),
            ensures
                *cursor == e,
                0 <= start <= e,
                e == part_end(input@, start),
                e <= input@.len(),
                e < input@.len() ==> is_part_end(input@[e]),
                forall|k: int| start <= k < e ==> !is_part_end(#[trigger] input@[k]),
                !has_illegal(input@, start, *cursor as int),
                ({
                    let st = vp_scan(input@.subrange(start, *cursor as int));
                    &&& !st.failed
                    &&& st.points == points@
                    &&& st.number == number@
                    &&& st.plus == plus
                    &&& st.quali == quali
                    &&& match qualifier {
                        Some(q) => st.qualifier == Some(q@),
                        None => st.qualifier is None,
                    }
                }),
                forall|k: int| 0 <= k < number@.len() ==> is_digit(#[trigger] number@[k]),
            decreases e - *cursor,
        {
            if *cursor >= input.len() {
                assert(*cursor == e);
                break;
            }
            let b = input[*cursor];
            assert(b == input@[*cursor as int]);
            if b == 45 || b == 44 {
                assert(is_part_end(input@[*cursor as int]));
                assert(*cursor == e);
                break;
            }
            assert(*cursor < e);
            let ghost c = *cursor as int;
            let ghost pre = input@.subrange(start, c);
            assert(input@.subrange(start, c + 1) =~= pre.push(b));
            assert(input@.subrange(start, c + 1).drop_last() =~= pre);
            if b == 40 || b == 41 || b == 91 || b == 93 || b == 123 || b == 125 {
                assert(is_illegal(input@[c]));
                assert(has_illegal(input@, start, e));
                return Err(VersionError::IllegalChar);
            }
            if b == 32 || b == 13 || b == 10 {
            } else if quali {
                match &mut qualifier {
                    Some(q) => { q.push(b); },
                    None => { qualifier = Some(vec![b]); },
                }
                assert(qualifier->0@ =~= (match vp_scan(pre).qualifier { Some(x) => x.push(b), None => seq![b] }));
            } else if 48 <= b && b <= 57 {
                number.push(b);
            } else if b == 43 {
                if number.len() == 0 {
                    let n = points.len();
                    if n > 0 {
                        let last = points[n - 1];
                        points.set(n - 1, (last.0, true));
                    }
                } else {
                    plus = true;
                }
            } else if b == 46 || b == 119 {
                if number.len() > 0 {
                    let v = parse_decimal(number.as_slice());
                    match v {
                        Some(x) => {
                            if x > 4294967295u64 {
                                proof { assert(vp_step(vp_scan(pre), b).failed); }
                                proof { lemma_failed_sticks(input@, start, *cursor as int + 1, e); }
                                return Err(VersionError::BadNumber);
                            }
                            points.push((x as u32, plus));
                            number.clear();
                        },
                        None => {
                            assert(digits_value(number@) > u32::MAX);
                            assert(vp_step(vp_scan(pre), b).failed);
                            proof { lemma_failed_sticks(input@, start, *cursor as int + 1, e); }
                            return Err(VersionError::BadNumber);
                        },
                    }
                }
            } else if b == 95 {
                quali = true;
            } else {
                quali = true;
                match &mut qualifier {
                    Some(q) => { q.push(b); },
                    None => { qualifier = Some(vec![b]); },
                }
                assert(qualifier->0@ =~= (match vp_scan(pre).qualifier { Some(x) => x.push(b), None => seq![b] }));
            }
            *cursor = *cursor + 1;
            assert(points@ =~= vp_scan(input@.subrange(start, *cursor as int)).points);
            assert(number@ =~= vp_scan(input@.subrange(start, *cursor as int)).number);
        }
        assert(*cursor == e);
        if number.len() > 0 {
            match parse_decimal(number.as_slice()) {
                Some(x) => {
                    if x > 4294967295u64 {
                        return Err(VersionError::BadNumber);
                    }
                    points.push((x as u32, plus));
                },
                None => {
                    return Err(VersionError::BadNumber);
                },
            }
        }
        let r = VersionPart { points, qualifier };
        assert(r.points@ =~= vp_flush(vp_scan(input@.subrange(start, e))).points);
        Ok(r)
    }
}

/// Once a scan has failed it stays failed, and the version is refused.
proof fn lemma_failed_sticks(s: Seq<u8>, start: int, c: int, e: int)
    requires
        0 <= start < c <= e <= s.len(),
        vp_scan(s.subrange(start, c)).failed,
        e == part_end(s, start),
    ensures
        vp_parse_spec(s, start) is None,
    decreases e - c,
{
    if c < e {
        let next = s.subrange(start, c + 1);
        assert(next.drop_last() =~= s.subrange(start, c));
        lemma_failed_sticks(s, start, c + 1, e);
    }
}

/// The qualifier used in comparisons: none counts as the single byte `0xFF`.
pub open spec fn qual_or_max(q: Option<Seq<u8>>) -> Seq<u8> {
    match q {
        Some(x) => x,
        None => seq![255u8],
    }
}

/// Byte-wise lexicographic order, a proper prefix being smaller.
pub open spec fn lex_lt(a: Seq<u8>, b: Seq<u8>) -> bool
    decreases a.len(),
{
    if b.len() == 0 {
        false
    } else if a.len() == 0 {
        true
    } else if a[0] != b[0] {
        a[0] < b[0]
    } else {
        lex_lt(a.drop_first(), b.drop_first())
    }
}

pub open spec fn max_len(a: int, b: int) -> int {
    if a >= b { a } else { b }
}

/// Whether `v` is accepted by the single version `l`, comparing from point `i` on: a point
/// flagged with `+` accepts any larger number; missing points count as `0` (flagged on the
/// configured side).
pub open spec fn start_matches_from(l: Seq<(u32, bool)>, v: Seq<(u32, bool)>, lq: Seq<u8>, vq: Seq<u8>, i: int) -> bool
    decreases max_len(l.len() as int, v.len() as int) - i,
{
    if i < 0 || i >= max_len(l.len() as int, v.len() as int) {
        !lex_lt(vq, lq)
    } else {
        let lp = if i < l.len() { l[i] } else { (0u32, true) };
        let vn = if i < v.len() { v[i].0 } else { 0u32 };
        if lp.1 && vn > lp.0 {
            true
        } else if vn != lp.0 {
            false
        } else {
            start_matches_from(l, v, lq, vq, i + 1)
        }
    }
}

/// Compares point lists from point `i` on, a missing point counting as the given default;
/// `-1`, `0` or `1`.
pub open spec fn cmp_points(a: Seq<(u32, bool)>, b: Seq<(u32, bool)>, ad: u32, bd: u32, i: int) -> int
    decreases max_len(a.len() as int, b.len() as int) - i,
{
    if i < 0 || i >= max_len(a.len() as int, b.len() as int) {
        0
    } else {
        let x = if i < a.len() { a[i].0 } else { ad };
        let y = if i < b.len() { b[i].0 } else { bd };
        if x < y {
            -1
        } else if x > y {
            1
        } else {
            cmp_points(a, b, ad, bd, i + 1)
        }
    }
}

impl VersionMatchRange {
    pub open spec fn is_empty_spec(&self) -> bool {
        self.start_vp.points@.len() == 0 || (self.end_vp matches Some(e) && e.points@.len() == 0)
    }

    /// A range does not end on a qualifier below its start's.
    pub open spec fn wf(&self) -> bool {
        self.end_vp matches Some(e) ==> !lex_lt(e.qual_view(), self.start_vp.qual_view())
    }

    /// Whether the range accepts a version with these points and qualifier.
    pub open spec fn accepts(&self, vp: Seq<(u32, bool)>, vq: Seq<u8>) -> bool {
        if self.is_empty_spec() || vp.len() == 0 {
            false
        } else {
            match self.end_vp {
                Some(e) => {
                    &&& cmp_points(vp, self.start_vp.points@, 0, 0, 0) >= 0
                    &&& cmp_points(vp, e.points@, 0, u32::MAX, 0) <= 0
                    &&& !lex_lt(vq, self.start_vp.qual_view())
                    &&& !lex_lt(e.qual_view(), vq)
                },
                None => start_matches_from(self.start_vp.points@, vp, self.start_vp.qual_view(), vq, 0),
            }
        }
    }
}

impl VersionMatcher {
    pub open spec fn wf(&self) -> bool {
        &&& forall|i: int| 0 <= i < self.range@.len() ==> (#[trigger] self.range@[i]).wf()
        &&& forall|i: int| 0 <= i < self.antirange@.len() ==> (#[trigger] self.antirange@[i]).wf()
    }

    /// Accepted by some range and by no excluding range.
    pub open spec fn accepts(&self, vp: Seq<(u32, bool)>, vq: Seq<u8>) -> bool {
        &&& exists|i: int| 0 <= i < self.range@.len() && (#[trigger] self.range@[i]).accepts(vp, vq)
        &&& forall|i: int| 0 <= i < self.antirange@.len() ==> !(#[trigger] self.antirange@[i]).accepts(vp, vq)
    }
}

fn qual_bytes(q: &Option<Vec<u8>>) -> (r: Vec<u8>)
    ensures
        r@ == qual_or_max(match q { Some(x) => Some(x@), None => None }),
{
    match q {
        Some(x) => {
            let mut out: Vec<u8> = Vec::new();
            let mut i: usize = 0;
            while i < x.len()
                invariant
                    i <= x@.len(),
                    out@ == x@.subrange(0, i as int),
                decreases x@.len() - i,
            {
                out.push(x[i]);
                i = i + 1;
                assert(out@ =~= x@.subrange(0, i as int));
            }
            assert(out@ =~= x@);
            out
        },
        None => vec![255u8],
    }
}

proof fn lemma_qual_view(p: VersionPart)
    ensures
        p.qual_view() == qual_or_max(match p.qualifier { Some(x) => Some(x@), None => None }),
{
}

/// `a < b` in byte-wise lexicographic order.
pub fn lex_less(a: &[u8], b: &[u8]) -> (r: bool)
    ensures
        r == lex_lt(a@, b@),
{
    let mut i: usize = 0;
    assert(a@.subrange(0, a@.len() as int) =~= a@);
    assert(b@.subrange(0, b@.len() as int) =~= b@);
    while i < a.len() && i < b.len()
        invariant
            i <= a@.len(),
            i <= b@.len(),
            a@.subrange(0, i as int) == b@.subrange(0, i as int),
            lex_lt(a@, b@) == lex_lt(a@.subrange(i as int, a@.len() as int), b@.subrange(i as int, b@.len() as int)),
        decreases a@.len() - i,
    {
        let ghost sa = a@.subrange(i as int, a@.len() as int);
        let ghost sb = b@.subrange(i as int, b@.len() as int);
        if a[i] != b[i] {
            assert(sa[0] == a@[i as int] && sb[0] == b@[i as int]);
            return a[i] < b[i];
        }
        assert(sa.drop_first() =~= a@.subrange(i as int + 1, a@.len() as int));
        assert(sb.drop_first() =~= b@.subrange(i as int + 1, b@.len() as int));
        assert(a@.subrange(0, i as int + 1) =~= a@.subrange(0, i as int).push(a@[i as int]));
        assert(b@.subrange(0, i as int + 1) =~= b@.subrange(0, i as int).push(b@[i as int]));
        i = i + 1;
    }
    i < b.len()
}

fn point_or(l: &Vec<(u32, bool)>, i: usize, d: (u32, bool)) -> (r: (u32, bool))
    ensures
        r == if i < l@.len() { l@[i as int] } else { d },
{
    if i < l.len() { l[i] } else { d }
}

fn start_matches(l: &VersionPart, v: &VersionPart) -> (r: bool)
    ensures
        r == start_matches_from(l.points@, v.points@, l.qual_view(), v.qual_view(), 0),
{
    let n = if l.points.len() >= v.points.len() { l.points.len() } else { v.points.len() };
    let mut i: usize = 0;
    while i < n
        invariant
            n == max_len(l.points@.len() as int, v.points@.len() as int),
            i <= n,
            start_matches_from(l.points@, v.points@, l.qual_view(), v.qual_view(), 0)
                == start_matches_from(l.points@, v.points@, l.qual_view(), v.qual_view(), i as int),
        decreases n - i,
    {
        let lp = point_or(&l.points, i, (0, true));
        let vn = point_or(&v.points, i, (0, false)).0;
        if lp.1 && vn > lp.0 {
            return true;
        }
        if vn != lp.0 {
            return false;
        }
        i = i + 1;
    }
    let lq = qual_bytes(&l.qualifier);
    let vq = qual_bytes(&v.qualifier);
    proof {
        lemma_qual_view(*l);
        lemma_qual_view(*v);
    }
    !lex_less(vq.as_slice(), lq.as_slice())
}

fn compare_points(a: &Vec<(u32, bool)>, b: &Vec<(u32, bool)>, ad: u32, bd: u32) -> (r: i8)
    ensures
        r as int == cmp_points(a@, b@, ad, bd, 0),
{
    let n = if a.len() >= b.len() { a.len() } else { b.len() };
    let mut i: usize = 0;
    while i < n
        invariant
            n == max_len(a@.len() as int, b@.len() as int),
            i <= n,
            cmp_points(a@, b@, ad, bd, 0) == cmp_points(a@, b@, ad, bd, i as int),
        decreases n - i,
    {
        let x = point_or(a, i, (ad, false)).0;
        let y = point_or(b, i, (bd, false)).0;
        if x < y {
            return -1;
        }
        if x > y {
            return 1;
        }
        i = i + 1;
    }
    0
}

impl VersionMatchRange {
    /// Whether the range has no points at its start or its end.
    pub fn is_empty_recursive(&self) -> (r: bool)
        ensures
            r == self.is_empty_spec(),
    {
        if self.start_vp.points.len() == 0 {
            return true;
        }
        match &self.end_vp {
            Some(e) => e.points.len() == 0,
            None => false,
        }
    }

    pub fn matches_version(&self, v: &VersionPart) -> (r: bool)
        requires
            self.wf(),
        ensures
            r == self.accepts(v.points@, v.qual_view()),
    {
        if self.is_empty_recursive() || v.points.len() == 0 {
            return false;
        }
        match &self.end_vp {
            Some(e) => self.in_range(e, v),
            None => self.in_startvp(v),
        }
    }

    fn in_startvp(&self, v: &VersionPart) -> (r: bool)
        ensures
            r == start_matches_from(self.start_vp.points@, v.points@, self.start_vp.qual_view(), v.qual_view(), 0),
    {
        start_matches(&self.start_vp, v)
    }

    fn in_range(&self, end_vp: &VersionPart, v: &VersionPart) -> (r: bool)
        ensures
            r == {
                &&& cmp_points(v.points@, self.start_vp.points@, 0, 0, 0) >= 0
                &&& cmp_points(v.points@, end_vp.points@, 0, u32::MAX, 0) <= 0
                &&& !lex_lt(v.qual_view(), self.start_vp.qual_view())
                &&& !lex_lt(end_vp.qual_view(), v.qual_view())
            },
    {
        if compare_points(&v.points, &self.start_vp.points, 0, 0) < 0
            || compare_points(&v.points, &end_vp.points, 0, 4294967295u32) > 0 {
            return false;
        }
        let min_q = qual_bytes(&self.start_vp.qualifier);
        let max_q = qual_bytes(&end_vp.qualifier);
        let vq = qual_bytes(&v.qualifier);
        proof {
            lemma_qual_view(self.start_vp);
            lemma_qual_view(*end_vp);
            lemma_qual_view(*v);
        }
        if lex_less(vq.as_slice(), min_q.as_slice()) || lex_less(max_q.as_slice(), vq.as_slice()) {
            return false;
        }
        true
    }
}

impl VersionMatcher {
    /// Whether some range has no points.
    pub fn is_empty_recursive(&self) -> (r: bool)
        ensures
            r == exists|i: int| 0 <= i < self.range@.len() && (#[trigger] self.range@[i]).is_empty_spec(),
    {
        let mut i: usize = 0;
        while i < self.range.len()
            invariant
                i <= self.range@.len(),
                forall|k: int| 0 <= k < i ==> !(#[trigger] self.range@[k]).is_empty_spec(),
            decreases self.range@.len() - i,
        {
            if self.range[i].is_empty_recursive() {
                return true;
            }
            i = i + 1;
        }
        false
    }

    pub fn matches_version(&self, v: &VersionPart) -> (r: bool)
        requires
            self.wf(),
        ensures
            r == self.accepts(v.points@, v.qual_view()),
    {
        let mut m = false;
        let mut i: usize = 0;
        while i < self.range.len()
            invariant
                self.wf(),
                i <= self.range@.len(),
                m == exists|k: int| 0 <= k < i && (#[trigger] self.range@[k]).accepts(v.points@, v.qual_view()),
            decreases self.range@.len() - i,
        {
            let x = self.range[i].matches_version(v);
            m = m || x;
            i = i + 1;
        }
        let mut j: usize = 0;
        while j < self.antirange.len()
            invariant
                self.wf(),
                j <= self.antirange@.len(),
                m == ((exists|k: int| 0 <= k < self.range@.len() && (#[trigger] self.range@[k]).accepts(v.points@, v.qual_view()))
                    && forall|k: int| 0 <= k < j ==> !(#[trigger] self.antirange@[k]).accepts(v.points@, v.qual_view())),
            decreases self.antirange@.len() - j,
        {
            let x = self.antirange[j].matches_version(v);
            m = m && !x;
            j = j + 1;
        }
        m
    }
}

/// Whether reading a range at `b` succeeds.
pub open spec fn range_parse_ok(s: Seq<u8>, b: int) -> bool {
    let e1 = part_end(s, b);
    let dash = e1 < s.len() && s[e1] == 45;
    let e2 = part_end(s, e1 + 1);
    &&& vp_parse_spec(s, b) is Some
    &&& dash ==> vp_parse_spec(s, e1 + 1) is Some && (e2 == s.len() || s[e2] == 44)
}

/// Whether `r` is what reading a range at `b` gives.
pub open spec fn range_read(r: VersionMatchRange, s: Seq<u8>, b: int) -> bool {
    let e1 = part_end(s, b);
    let dash = e1 < s.len() && s[e1] == 45;
    &&& vp_parse_spec(s, b) matches Some(a) && r.start_vp.parsed_as(a)
    &&& if dash {
        vp_parse_spec(s, e1 + 1) matches Some(x) && r.end_vp matches Some(ev) && ev.parsed_as(x)
    } else {
        r.end_vp is None
    }
}

proof fn lemma_parsed_qual(p: VersionPart, x: (Seq<(u32, bool)>, Option<Seq<u8>>))
    requires
        p.parsed_as(x),
    ensures
        p.qual_view() == qual_or_max(x.1),
        p.points@ == x.0,
{
}

impl VersionMatchRange {
    /// Reads `start` or `start - end` from `input` at `cursor`; it must end at a comma or at
    /// the end of the input, where `cursor` is left.
    pub fn parse(input: &[u8], cursor: &mut usize) -> (r: Result<Self, VersionError>)
        requires
            *old(cursor) <= input@.len(),
        ensures
            ({
                let s = input@;
                let e1 = part_end(s, *old(cursor) as int);
                let dash = e1 < s.len() && s[e1] == 45;
                let e2 = part_end(s, e1 + 1);
                match r {
                    Ok(x) => {
                        &&& vp_parse_spec(s, *old(cursor) as int) matches Some(a) && x.start_vp.parsed_as(a)
                        &&& if dash {
                            &&& vp_parse_spec(s, e1 + 1) matches Some(b)
                            &&& x.end_vp matches Some(ev) && ev.parsed_as(b)
                            &&& *final(cursor) == e2
                            &&& (e2 == s.len() || s[e2] == 44)
                        } else {
                            &&& x.end_vp is None
                            &&& *final(cursor) == e1
                        }
                    },
                    Err(_) => vp_parse_spec(s, *old(cursor) as int) is None || (dash && (vp_parse_spec(s, e1 + 1) is None
                        || (e2 < s.len() && s[e2] != 44))),
                }
            }),
            r matches Ok(x) ==> range_read(x, input@, *old(cursor) as int),
            r is Err ==> !range_parse_ok(input@, *old(cursor) as int),
    {
        let ghost s = input@;
        let ghost start = *cursor as int;
        proof {
            lemma_part_end(s, start);
        }
        let start_vp = match VersionPart::parse(input, cursor) {
            Ok(p) => p,
            Err(e) => { return Err(e); },
        };
        let ghost e1 = part_end(s, start);
        assert(*cursor == e1);
        let mut end_vp: Option<VersionPart> = None;
        if *cursor < input.len() && input[*cursor] == 45 {
            *cursor = *cursor + 1;
            proof {
                lemma_part_end(s, e1 + 1);
            }
            match VersionPart::parse(input, cursor) {
                Ok(p) => { end_vp = Some(p); },
                Err(e) => { return Err(e); },
            }
        } else {
            proof {
                if e1 < s.len() {
                    assert(s[e1] == 44);
                }
            }
        }
        if *cursor < input.len() && input[*cursor] != 44 {
            return Err(VersionError::BadRangeEnd);
        }
        Ok(VersionMatchRange { start_vp, end_vp })
    }

    pub fn parse_str(v: &str) -> (r: Result<Self, VersionError>)
        ensures
            r is Ok ==> vp_parse_spec(encode_utf8(v@), 0) is Some,
            vp_parse_spec(encode_utf8(v@), 0) is None ==> r is Err,
    {
        let mut cursor: usize = 0;
        Self::parse(v.as_bytes(), &mut cursor)
    }

    /// Whether the range is ordered on its qualifiers.
    pub fn is_ordered(&self) -> (r: bool)
        ensures
            r == self.wf(),
    {
        match &self.end_vp {
            Some(e) => {
                let min_q = qual_bytes(&self.start_vp.qualifier);
                let max_q = qual_bytes(&e.qualifier);
                proof {
                    lemma_qual_view(self.start_vp);
                    lemma_qual_view(*e);
                }
                !lex_less(max_q.as_slice(), min_q.as_slice())
            },
            None => true,
        }
    }
}

pub open spec fn is_ascii_space(b: u8) -> bool {
    b == 32 || b == 9 || b == 10 || b == 11 || b == 12 || b == 13
}

/// The first position at or after `p` that is not ASCII white space.
pub open spec fn skip_space(s: Seq<u8>, p: int) -> int
    decreases s.len() - p,
{
    if p < 0 || p >= s.len() || !is_ascii_space(s[p]) { p } else { skip_space(s, p + 1) }
}

/// Whether the segment starting at `p` excludes: its text starts with `!`.
pub open spec fn is_negated(s: Seq<u8>, p: int) -> bool {
    let c = skip_space(s, p);
    c < s.len() && s[c] == 33
}

/// Where the range of the segment starting at `p` begins.
pub open spec fn body_start(s: Seq<u8>, p: int) -> int {
    if is_negated(s, p) { skip_space(s, p) + 1 } else { skip_space(s, p) }
}

/// Whether a segment starts at `p`: at the start, or after a comma.
pub open spec fn segment_start(s: Seq<u8>, p: int) -> bool {
    p == 0 || (0 < p <= s.len() && s[p - 1] == 44)
}

/// Whether `r` was read from some segment, excluding or not.
pub open spec fn read_from_segment(r: VersionMatchRange, s: Seq<u8>, negated: bool) -> bool {
    exists|p: int| segment_start(s, p) && is_negated(s, p) == negated && #[trigger] range_read(r, s, body_start(s, p))
}

/// Whether the range read at `b` has no points at its start or its end.
pub open spec fn segment_empty(s: Seq<u8>, b: int) -> bool {
    let e1 = part_end(s, b);
    let dash = e1 < s.len() && s[e1] == 45;
    ||| (vp_parse_spec(s, b) matches Some(a) && a.0.len() == 0)
    ||| (dash && (vp_parse_spec(s, e1 + 1) matches Some(x) && x.0.len() == 0))
}

/// Whether the range read at `b` ends on a lower qualifier than it starts on.
pub open spec fn segment_swapped(s: Seq<u8>, b: int) -> bool {
    let e1 = part_end(s, b);
    let dash = e1 < s.len() && s[e1] == 45;
    &&& dash
    &&& vp_parse_spec(s, b) matches Some(a)
    &&& vp_parse_spec(s, e1 + 1) matches Some(x)
    &&& lex_lt(qual_or_max(x.1), qual_or_max(a.1))
}

/// Why a configured game version can be refused: a segment that does not read as a range, a
/// range without points, or a range whose qualifiers are swapped.
pub open spec fn version_error_explained(s: Seq<u8>, e: VersionError) -> bool {
    ||| exists|p: int| segment_start(s, p) && !range_parse_ok(s, #[trigger] body_start(s, p))
    ||| (e == VersionError::Empty && exists|p: int| segment_start(s, p) && !is_negated(s, p)
        && segment_empty(s, #[trigger] body_start(s, p)))
    ||| (e == VersionError::SwappedRange && exists|p: int| segment_start(s, p) && segment_swapped(s, #[trigger] body_start(s, p)))
}

/// Whether some segment of the text cannot make a configured game version.
pub open spec fn version_refusable(s: Seq<u8>) -> bool {
    ||| exists|p: int| segment_start(s, p) && !range_parse_ok(s, #[trigger] body_start(s, p))
    ||| exists|p: int| segment_start(s, p) && !is_negated(s, p) && segment_empty(s, #[trigger] body_start(s, p))
    ||| exists|p: int| segment_start(s, p) && segment_swapped(s, #[trigger] body_start(s, p))
}

proof fn lemma_read_empty(r: VersionMatchRange, s: Seq<u8>, b: int)
    requires
        range_read(r, s, b),
        r.is_empty_spec(),
    ensures
        segment_empty(s, b),
{
}

proof fn lemma_read_swapped(r: VersionMatchRange, s: Seq<u8>, b: int)
    requires
        range_read(r, s, b),
        !r.wf(),
    ensures
        segment_swapped(s, b),
{
    let e1 = part_end(s, b);
    let a = vp_parse_spec(s, b)->0;
    lemma_parsed_qual(r.start_vp, a);
    if e1 < s.len() && s[e1] == 45 {
        let x = vp_parse_spec(s, e1 + 1)->0;
        lemma_parsed_qual(r.end_vp->0, x);
    }
}

/// The number of commas among the bytes.
pub open spec fn comma_count(s: Seq<u8>) -> nat
    decreases s.len(),
{
    if s.len() == 0 {
        0
    } else {
        comma_count(s.drop_last()) + if s.last() == 44 { 1nat } else { 0nat }
    }
}

/// Bytes without commas leave the count where it was.
proof fn lemma_no_comma(s: Seq<u8>, a: int, b: int)
    requires
        0 <= a <= b <= s.len(),
        forall|k: int| a <= k < b ==> s[k] != 44,
    ensures
        comma_count(s.subrange(0, b)) == comma_count(s.subrange(0, a)),
    decreases b - a,
{
    if b > a {
        lemma_no_comma(s, a, b - 1);
        assert(s.subrange(0, b).drop_last() =~= s.subrange(0, b - 1));
    }
}

impl VersionMatcher {
    /// Reads a comma separated list of ranges, one range per segment; a range whose text starts
    /// with `!` (after leading white space) excludes.
    pub fn parse(v: &str) -> (r: Result<Self, VersionError>)
        ensures
            r matches Ok(m) ==> m.range@.len() + m.antirange@.len() == comma_count(encode_utf8(v@)) + 1,
            r matches Ok(m) ==> forall|i: int| 0 <= i < m.range@.len() ==> read_from_segment(#[trigger] m.range@[i], encode_utf8(v@), false),
            r matches Ok(m) ==> forall|i: int| 0 <= i < m.antirange@.len() ==> read_from_segment(#[trigger] m.antirange@[i], encode_utf8(v@), true),
            r is Err ==> exists|p: int| segment_start(encode_utf8(v@), p) && !range_parse_ok(encode_utf8(v@), #[trigger] body_start(encode_utf8(v@), p)),
    {
        let bytes = v.as_bytes();
        let ghost s = bytes@;
        let mut range: Vec<VersionMatchRange> = Vec::new();
        let mut antirange: Vec<VersionMatchRange> = Vec::new();
        let mut pos: usize = 0;
        loop
            invariant_except_break
                range@.len() + antirange@.len() == comma_count(s.subrange(0, pos as int)),
            invariant
                s == bytes@,
                s == encode_utf8(v@),
                pos <= bytes@.len(),
                segment_start(s, pos as int),
                forall|i: int| 0 <= i < range@.len() ==> read_from_segment(#[trigger] range@[i], s, false),
                forall|i: int| 0 <= i < antirange@.len() ==> read_from_segment(#[trigger] antirange@[i], s, true),
            ensures
                range@.len() + antirange@.len() == comma_count(s) + 1,
                forall|i: int| 0 <= i < range@.len() ==> read_from_segment(#[trigger] range@[i], s, false),
                forall|i: int| 0 <= i < antirange@.len() ==> read_from_segment(#[trigger] antirange@[i], s, true),
            decreases bytes@.len() - pos,
        {
            let mut c = pos;
            while c < bytes.len() && (bytes[c] == 32 || bytes[c] == 9 || bytes[c] == 10 || bytes[c] == 11
                || bytes[c] == 12 || bytes[c] == 13)
                invariant
                    s == bytes@,
                    pos <= c <= bytes@.len(),
                    forall|k: int| pos <= k < c ==> s[k] != 44,
                    skip_space(s, pos as int) == skip_space(s, c as int),
                decreases bytes@.len() - c,
            {
                c = c + 1;
            }
            let neg = c < bytes.len() && bytes[c] == 33;
            if neg {
                c = c + 1;
            }
            let before = c;
            assert(c == skip_space(s, c as int) || c == skip_space(s, pos as int) + 1);
            assert(before == body_start(s, pos as int));
            assert(neg == is_negated(s, pos as int));
            let r = match VersionMatchRange::parse(bytes, &mut c) {
                Ok(x) => x,
                Err(e) => {
                    assert(segment_start(s, pos as int) && !range_parse_ok(s, body_start(s, pos as int)));
                    return Err(e);
                },
            };
            assert(read_from_segment(r, s, neg)) by {
                assert(segment_start(s, pos as int) && is_negated(s, pos as int) == neg && range_read(r, s, body_start(s, pos as int)));
            }
            proof {
                lemma_part_end(s, before as int);
                let e1 = part_end(s, before as int);
                if e1 < s.len() && s[e1] == 45 {
                    lemma_part_end(s, e1 + 1);
                }
                assert forall|k: int| pos <= k < c implies s[k] != 44 by {
                    if k >= before && k < e1 {
                        assert(!is_part_end(s[k]));
                    }
                }
                lemma_no_comma(s, pos as int, c as int);
            }
            let ghost pr = range@;
            let ghost pa = antirange@;
            if neg {
                antirange.push(r);
                assert(forall|i: int| 0 <= i < antirange@.len() ==> #[trigger] antirange@[i] == pa.push(r)[i]);
            } else {
                range.push(r);
                assert(forall|i: int| 0 <= i < range@.len() ==> #[trigger] range@[i] == pr.push(r)[i]);
            }
            if c >= bytes.len() {
                assert(s.subrange(0, c as int) =~= s);
                break;
            }
            proof {
                assert(s[c as int] == 44);
                assert(s.subrange(0, c as int + 1).drop_last() =~= s.subrange(0, c as int));
            }
            pos = c + 1;
        }
        Ok(VersionMatcher { range, antirange })
    }
}

/// The version that a file declares, read from its text: `None` where it is refused.
pub open spec fn parsed_version(s: Seq<char>) -> Option<(Seq<(u32, bool)>, Option<Seq<u8>>)> {
    vp_parse_spec(encode_utf8(s), 0)
}

/// `-Snapshot` or `-snapshot` at the end is read as `.99999999`.
pub open spec fn snapshot_normalized(s: Seq<char>) -> Seq<char> {
    let n = s.len() as int;
    if n >= 9 && (s.subrange(n - 9, n) == seq!['-', 'S', 'n', 'a', 'p', 's', 'h', 'o', 't']
        || s.subrange(n - 9, n) == seq!['-', 's', 'n', 'a', 'p', 's', 'h', 'o', 't']) {
        s.subrange(0, n - 9) + seq!['.', '9', '9', '9', '9', '9', '9', '9', '9']
    } else {
        s
    }
}

fn normalize_snapshot(s: &str) -> (r: String)
    ensures
        r@ == snapshot_normalized(s@),
{
    let c = chars_of(s);
    let n = c.len();
    if n >= 9 {
        let k = n - 9;
        let is_snap = c[k] == '-' && (c[k + 1] == 'S' || c[k + 1] == 's') && c[k + 2] == 'n' && c[k + 3] == 'a'
            && c[k + 4] == 'p' && c[k + 5] == 's' && c[k + 6] == 'h' && c[k + 7] == 'o' && c[k + 8] == 't';
        let ghost tail = c@.subrange(k as int, n as int);
        if is_snap {
            let mut out: Vec<char> = Vec::new();
            let mut i: usize = 0;
            while i < k
                invariant
                    k < c@.len(),
                    i <= k,
                    out@ == c@.subrange(0, i as int),
                decreases k - i,
            {
                out.push(c[i]);
                i = i + 1;
                assert(out@ =~= c@.subrange(0, i as int));
            }
            out.push('.');
            let mut j: usize = 0;
            while j < 8
                invariant
                    j <= 8,
                    out@ == c@.subrange(0, k as int) + seq!['.'] + Seq::new(j as nat, |_i: int| '9'),
                decreases 8 - j,
            {
                out.push('9');
                j = j + 1;
                assert(out@ =~= c@.subrange(0, k as int) + seq!['.'] + Seq::new(j as nat, |_i: int| '9'));
            }
            assert(out@ =~= c@.subrange(0, k as int) + seq!['.', '9', '9', '9', '9', '9', '9', '9', '9']);
            assert(tail =~= seq!['-', 'S', 'n', 'a', 'p', 's', 'h', 'o', 't']
                || tail =~= seq!['-', 's', 'n', 'a', 'p', 's', 'h', 'o', 't']);
            return string_of(out.as_slice());
        } else {
            assert(!(tail =~= seq!['-', 'S', 'n', 'a', 'p', 's', 'h', 'o', 't'])
                && !(tail =~= seq!['-', 's', 'n', 'a', 'p', 's', 'h', 'o', 't'])) by {
                if tail =~= seq!['-', 'S', 'n', 'a', 'p', 's', 'h', 'o', 't'] {
                    assert(tail[0] == '-' && tail[1] == 'S' && tail[8] == 't');
                }
                if tail =~= seq!['-', 's', 'n', 'a', 'p', 's', 'h', 'o', 't'] {
                    assert(tail[0] == '-' && tail[1] == 's' && tail[8] == 't');
                }
            }
        }
    }
    string_of(c.as_slice())
}

impl FileGameVersion {
    /// A file's game version; a snapshot suffix is read as a very late patch.
    pub fn from_string(str: String) -> (r: Self)
        ensures
            r.str@ == snapshot_normalized(str@),
    {
        FileGameVersion { str: normalize_snapshot(str.as_str()) }
    }

    /// The parsed version, with no points where the text is refused.
    pub fn vpart(&self) -> (r: VersionPart)
        ensures
            match parsed_version(self.str@) {
                Some(x) => r.parsed_as(x),
                None => r.points@.len() == 0,
            },
    {
        match VersionPart::parse_str(self.str.as_str()) {
            Ok(v) => v,
            Err(_) => VersionPart::empty(),
        }
    }
}

/// The game version the repository is configured for, such as `1.18.2` or `1.18-1.19, !1.18.1`.
#[derive(Clone, Debug)]
pub struct GameVersion {
    pub str: String,
    pub matcher: VersionMatcher,
}

impl GameVersion {
    pub open spec fn wf(&self) -> bool {
        self.matcher.wf()
    }

    /// Whether a version text, once normalized, is accepted.
    pub open spec fn accepts_text(&self, s: Seq<char>) -> bool {
        match parsed_version(s) {
            Some(x) => x.0.len() > 0 && self.matcher.accepts(x.0, qual_or_max(x.1)),
            None => false,
        }
    }

    /// Reads a configured game version; refused where it does not parse, where a range has no
    /// points, or where a range ends on a lower qualifier than it starts on.
    pub fn from_string(str: String) -> (r: Result<Self, VersionError>)
        ensures
            r matches Ok(g) ==> g.wf() && g.str == str
                && !exists|i: int| 0 <= i < g.matcher.range@.len() && (#[trigger] g.matcher.range@[i]).is_empty_spec(),
            r matches Err(e) ==> version_error_explained(encode_utf8(str@), e),
            r is Err ==> version_refusable(encode_utf8(str@)),
            r matches Ok(g) ==> g.matcher.range@.len() + g.matcher.antirange@.len() == comma_count(encode_utf8(str@)) + 1,
            r matches Ok(g) ==> forall|i: int| 0 <= i < g.matcher.range@.len()
                ==> read_from_segment(#[trigger] g.matcher.range@[i], encode_utf8(str@), false),
            r matches Ok(g) ==> forall|i: int| 0 <= i < g.matcher.antirange@.len()
                ==> read_from_segment(#[trigger] g.matcher.antirange@[i], encode_utf8(str@), true),
    {
        let ghost s = encode_utf8(str@);
        let matcher = match VersionMatcher::parse(str.as_str()) {
            Ok(m) => m,
            Err(e) => { return Err(e); },
        };
        if matcher.is_empty_recursive() {
            proof {
                let i = choose|i: int| 0 <= i < matcher.range@.len() && (#[trigger] matcher.range@[i]).is_empty_spec();
                assert(read_from_segment(matcher.range@[i], s, false));
                let p = choose|p: int| segment_start(s, p) && is_negated(s, p) == false
                    && #[trigger] range_read(matcher.range@[i], s, body_start(s, p));
                lemma_read_empty(matcher.range@[i], s, body_start(s, p));
            }
            return Err(VersionError::Empty);
        }
        let mut i: usize = 0;
        while i < matcher.range.len()
            invariant
                i <= matcher.range@.len(),
                s == encode_utf8(str@),
                forall|k: int| 0 <= k < matcher.range@.len() ==> read_from_segment(#[trigger] matcher.range@[k], s, false),
                forall|k: int| 0 <= k < i ==> (#[trigger] matcher.range@[k]).wf(),
            decreases matcher.range@.len() - i,
        {
            if !matcher.range[i].is_ordered() {
                proof {
                    assert(read_from_segment(matcher.range@[i as int], s, false));
                    let p = choose|p: int| segment_start(s, p) && is_negated(s, p) == false
                        && #[trigger] range_read(matcher.range@[i as int], s, body_start(s, p));
                    lemma_read_swapped(matcher.range@[i as int], s, body_start(s, p));
                }
                return Err(VersionError::SwappedRange);
            }
            i = i + 1;
        }
        let mut j: usize = 0;
        while j < matcher.antirange.len()
            invariant
                j <= matcher.antirange@.len(),
                s == encode_utf8(str@),
                forall|k: int| 0 <= k < matcher.antirange@.len() ==> read_from_segment(#[trigger] matcher.antirange@[k], s, true),
                forall|k: int| 0 <= k < matcher.range@.len() ==> (#[trigger] matcher.range@[k]).wf(),
                forall|k: int| 0 <= k < j ==> (#[trigger] matcher.antirange@[k]).wf(),
            decreases matcher.antirange@.len() - j,
        {
            if !matcher.antirange[j].is_ordered() {
                proof {
                    assert(read_from_segment(matcher.antirange@[j as int], s, true));
                    let p = choose|p: int| segment_start(s, p) && is_negated(s, p) == true
                        && #[trigger] range_read(matcher.antirange@[j as int], s, body_start(s, p));
                    lemma_read_swapped(matcher.antirange@[j as int], s, body_start(s, p));
                }
                return Err(VersionError::SwappedRange);
            }
            j = j + 1;
        }
        Ok(GameVersion { str, matcher })
    }

    fn accepts_version(&self, v: &VersionPart) -> (r: bool)
        requires
            self.wf(),
        ensures
            r == (v.points@.len() > 0 && self.matcher.accepts(v.points@, v.qual_view())),
    {
        if v.points.len() == 0 {
            return false;
        }
        self.matcher.matches_version(v)
    }

    /// Whether the version text `s` (normalized like a file's) is accepted.
    pub fn parse_and_match_str(&self, s: &str) -> (r: bool)
        requires
            self.wf(),
        ensures
            r == self.accepts_text(snapshot_normalized(s@)),
    {
        let n = normalize_snapshot(s);
        match VersionPart::parse_str(n.as_str()) {
            Ok(v) => {
                proof {
                    let x = parsed_version(n@)->0;
                    lemma_parsed_qual(v, x);
                }
                self.accepts_version(&v)
            },
            Err(_) => false,
        }
    }

    /// Whether one of a file's game versions is accepted.
    pub fn matches(&self, gv: &[FileGameVersion]) -> (r: bool)
        requires
            self.wf(),
        ensures
            r == exists|i: int| 0 <= i < gv@.len() && self.accepts_text((#[trigger] gv@[i]).str@),
    {
        match self.matches_idx(gv) {
            Some(_) => true,
            None => false,
        }
    }

    /// The first of a file's game versions that is accepted.
    pub fn matches_idx(&self, gv: &[FileGameVersion]) -> (r: Option<usize>)
        requires
            self.wf(),
        ensures
            match r {
                Some(i) => i < gv@.len() && self.accepts_text(gv@[i as int].str@)
                    && forall|k: int| 0 <= k < i ==> !self.accepts_text((#[trigger] gv@[k]).str@),
                None => forall|k: int| 0 <= k < gv@.len() ==> !self.accepts_text((#[trigger] gv@[k]).str@),
            },
    {
        let mut i: usize = 0;
        while i < gv.len()
            invariant
                self.wf(),
                i <= gv@.len(),
                forall|k: int| 0 <= k < i ==> !self.accepts_text((#[trigger] gv@[k]).str@),
            decreases gv@.len() - i,
        {
            let v = gv[i].vpart();
            proof {
                match parsed_version(gv@[i as int].str@) {
                    Some(x) => { lemma_parsed_qual(v, x); },
                    None => {},
                }
            }
            if self.accepts_version(&v) {
                return Some(i);
            }
            i = i + 1;
        }
        None
    }
}

} // verus!
