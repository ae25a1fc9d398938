//! Character-level text handling: whitespace, ASCII case folding, trimming
//! and splitting a command line into whitespace-separated words.
use vstd::prelude::*;
use vstd::string::StrSliceExecFns;

verus! {

/// Unicode `White_Space`, the set that Rust's `char::is_whitespace` tests.
pub open spec fn is_ws(c: char) -> bool {
    let u = c as u32;
    ||| 0x09 <= u <= 0x0D
    ||| u == 0x20
    ||| u == 0x85
    ||| u == 0xA0
    ||| u == 0x1680
    ||| 0x2000 <= u <= 0x200A
    ||| u == 0x2028
    ||| u == 0x2029
    ||| u == 0x202F
    ||| u == 0x205F
    ||| u == 0x3000
}

pub fn is_whitespace_char(c: char) -> (r: bool)
    ensures
        r == is_ws(c),
{
    let u = c as u32;
    (0x09 <= u && u <= 0x0D) || u == 0x20 || u == 0x85 || u == 0xA0 || u == 0x1680 || (0x2000 <= u
        && u <= 0x200A) || u == 0x2028 || u == 0x2029 || u == 0x202F || u == 0x205F || u == 0x3000
}

/// ASCII lower-casing of one character: `A`..`Z` become `a`..`z`, all else is kept.
pub open spec fn lower_char(c: char) -> char {
    if 'A' <= c && c <= 'Z' {
        ((c as u32) + 32) as char
    } else {
        c
    }
}

/// ASCII lower-casing of a text, as `str::to_ascii_lowercase` does.
pub open spec fn lower(s: Seq<char>) -> Seq<char> {
    s.map_values(|c: char| lower_char(c))
}

pub fn to_ascii_lower_char(c: char) -> (r: char)
    ensures
        r == lower_char(c),
{
    if 'A' <= c && c <= 'Z' {
        let u = c as u8;
        let l: u8 = u + 32;
        l as char
    } else {
        c
    }
}


/// The two character classes that the library strips from the ends of a text.
#[derive(Clone, Copy, Debug, PartialEq, Eq)]
pub enum Strip {
    Whitespace,
    Slash,
}

impl Strip {
    pub open spec fn holds(self, c: char) -> bool {
        match self {
            Strip::Whitespace => is_ws(c),
            Strip::Slash => c == '/',
        }
    }

    pub fn test(&self, c: char) -> (r: bool)
        ensures
            r == self.holds(c),
    {
        match self {
            Strip::Whitespace => is_whitespace_char(c),
            Strip::Slash => c == '/',
        }
    }
}

/// The first index at or after `i` whose character is not of class `k`
/// (or the length, when there is none).
pub open spec fn lead_from(s: Seq<char>, i: int, k: Strip) -> int
    decreases s.len() - i,
{
    if 0 <= i < s.len() && k.holds(s[i]) {
        lead_from(s, i + 1, k)
    } else {
        i
    }
}

/// Walking back from `j`, the end of the last character before `j` that is
/// not of class `k` (or 0, when there is none).
pub open spec fn trail_from(s: Seq<char>, j: int, k: Strip) -> int
    decreases j,
{
    if 0 < j <= s.len() && k.holds(s[j - 1]) {
        trail_from(s, j - 1, k)
    } else {
        j
    }
}

/// `s` without its leading and trailing characters of class `k`
/// (`str::trim` for whitespace, `str::trim_matches('/')` for slashes).
pub open spec fn strip(s: Seq<char>, k: Strip) -> Seq<char> {
    let a = lead_from(s, 0, k);
    let b = trail_from(s, s.len() as int, k);
    if a < b {
        s.subrange(a, b)
    } else {
        Seq::empty()
    }
}

pub proof fn lemma_trail_from_bounds(s: Seq<char>, j: int, k: Strip)
    requires
        0 <= j <= s.len(),
    ensures
        0 <= trail_from(s, j, k) <= j,
        trail_from(s, j, k) > 0 ==> !k.holds(s[trail_from(s, j, k) - 1]),
        forall|m: int| trail_from(s, j, k) <= m < j ==> k.holds(#[trigger] s[m]),
    decreases j,
{
    if j > 0 && k.holds(s[j - 1]) {
        lemma_trail_from_bounds(s, j - 1, k);
    }
}

/// Removes the leading and trailing characters of class `k`.
pub fn strip_chars(v: &Vec<char>, k: Strip) -> (r: Vec<char>)
    ensures
        r@ == strip(v@, k),
{
    let n = v.len();
    let mut a: usize = 0;
    while a < n && k.test(v[a])
        invariant
            a <= n == v@.len(),
            lead_from(v@, 0, k) == lead_from(v@, a as int, k),
        decreases n - a,
    {
        a = a + 1;
    }
    let mut b: usize = n;
    while b > a && k.test(v[b - 1])
        invariant
            a <= b <= n == v@.len(),
            trail_from(v@, n as int, k) == trail_from(v@, b as int, k),
        decreases b,
    {
        b = b - 1;
    }
    proof {
        lemma_trail_from_bounds(v@, b as int, k);
    }
    let mut r: Vec<char> = Vec::new();
    if a < b {
        let mut i: usize = a;
        while i < b
            invariant
                a <= i <= b <= n == v@.len(),
                r@ == v@.subrange(a as int, i as int),
            decreases b - i,
        {
            r.push(v[i]);
            i = i + 1;
        }
    }
    r
}

/// ASCII lower-casing of every character.
pub fn lower_chars(v: &Vec<char>) -> (r: Vec<char>)
    ensures
        r@ == lower(v@),
{
    let mut r: Vec<char> = Vec::new();
    let mut i: usize = 0;
    while i < v.len()
        invariant
            i <= v@.len(),
            r@ == lower(v@.take(i as int)),
        decreases v.len() - i,
    {
        r.push(to_ascii_lower_char(v[i]));
        proof {
            assert(lower(v@.take(i + 1)) =~= lower(v@.take(i as int)).push(lower_char(v@[i as int])));
        }
        i = i + 1;
    }
    proof {
        assert(v@.take(v@.len() as int) =~= v@);
    }
    r
}

/// The characters of a text.
pub fn chars_of(s: &str) -> (r: Vec<char>)
    ensures
        r@ == s@,
{
    let n = s.unicode_len();
    let mut r: Vec<char> = Vec::new();
    let mut i: usize = 0;
    while i < n
        invariant
            i <= n == s@.len(),
            r@ == s@.take(i as int),
        decreases n - i,
    {
        r.push(s.get_char(i));
        proof {
            assert(s@.take(i + 1) =~= s@.take(i as int).push(s@[i as int]));
        }
        i = i + 1;
    }
    proof {
        assert(s@.take(n as int) =~= s@);
    }
    r
}


/// The span of a word that started at `start` (if one did) and ends at `i`.
pub open spec fn close_span(start: Option<int>, i: int) -> Seq<(int, int)> {
    match start {
        Some(a) => seq![(a, i)],
        None => Seq::empty(),
    }
}

/// The spans of the whitespace-separated words of `s` from index `i` on,
/// where `start` is where the word under way began, if one is.
pub open spec fn spans_from(s: Seq<char>, i: int, start: Option<int>) -> Seq<(int, int)>
    decreases s.len() - i,
{
    if i < 0 || i >= s.len() {
        close_span(start, s.len() as int)
    } else if is_ws(s[i]) {
        close_span(start, i) + spans_from(s, i + 1, None)
    } else {
        spans_from(s, i + 1, if start is Some { start } else { Some(i) })
    }
}

/// The spans `(begin, end)` of the words of `s`, in order.
pub open spec fn word_spans(s: Seq<char>) -> Seq<(int, int)> {
    spans_from(s, 0, None)
}

/// The whitespace-separated words of `s`, as `str::split_whitespace` yields them.
pub open spec fn words(s: Seq<char>) -> Seq<Seq<char>> {
    word_spans(s).map_values(|p: (int, int)| s.subrange(p.0, p.1))
}

/// The first word of `s`, or the empty text when `s` has none.
pub open spec fn first_word(s: Seq<char>) -> Seq<char> {
    if words(s).len() > 0 {
        words(s)[0]
    } else {
        Seq::empty()
    }
}

pub open spec fn span_view(p: (usize, usize)) -> (int, int) {
    (p.0 as int, p.1 as int)
}

/// Computes the spans of the words of `v`.
pub fn word_spans_of(v: &Vec<char>) -> (r: Vec<(usize, usize)>)
    ensures
        r@.map_values(|p: (usize, usize)| span_view(p)) == word_spans(v@),
        forall|k: int| 0 <= k < r@.len() ==> r@[k].0 < #[trigger] r@[k].1 <= v@.len(),
{
    let n = v.len();
    let mut r: Vec<(usize, usize)> = Vec::new();
    let mut start: Option<usize> = None;
    let mut i: usize = 0;
    while i < n
        invariant
            i <= n == v@.len(),
            r@.map_values(|p: (usize, usize)| span_view(p)) + spans_from(
                v@,
                i as int,
                match start {
                    Some(a) => Some(a as int),
                    None => None,
                },
            ) == word_spans(v@),
            forall|k: int| 0 <= k < r@.len() ==> r@[k].0 < #[trigger] r@[k].1 <= v@.len(),
            start matches Some(a) ==> a < i,
        decreases n - i,
    {
        let ghost st = match start {
            Some(a) => Some(a as int),
            None => None,
        };
        let ghost old_r = r@;
        if is_whitespace_char(v[i]) {
            if let Some(a) = start {
                r.push((a, i));
            }
            proof {
                assert(r@.map_values(|p: (usize, usize)| span_view(p)) =~= old_r.map_values(
                    |p: (usize, usize)| span_view(p),
                ) + close_span(st, i as int));
            }
            start = None;
        } else {
            if start.is_none() {
                start = Some(i);
            }
        }
        i = i + 1;
    }
    let ghost st = match start {
        Some(a) => Some(a as int),
        None => None,
    };
    let ghost old_r = r@;
    if let Some(a) = start {
        r.push((a, n));
    }
    proof {
        assert(r@.map_values(|p: (usize, usize)| span_view(p)) =~= old_r.map_values(
            |p: (usize, usize)| span_view(p),
        ) + close_span(st, n as int));
    }
    r
}

/// Whether `a[a0..a1]` and `b[b0..b1]` hold the same characters.
pub fn segments_equal(a: &Vec<char>, a0: usize, a1: usize, b: &Vec<char>, b0: usize, b1: usize) -> (r:
    bool)
    requires
        a0 <= a1 <= a@.len(),
        b0 <= b1 <= b@.len(),
    ensures
        r == (a@.subrange(a0 as int, a1 as int) == b@.subrange(b0 as int, b1 as int)),
{
    if a1 - a0 != b1 - b0 {
        proof {
            assert(a@.subrange(a0 as int, a1 as int).len() != b@.subrange(b0 as int, b1 as int).len());
        }
        return false;
    }
    let len = a1 - a0;
    let ghost sa = a@.subrange(a0 as int, a1 as int);
    let ghost sb = b@.subrange(b0 as int, b1 as int);
    let mut k: usize = 0;
    while k < len
        invariant
            a0 <= a1 <= a@.len(),
            b0 <= b1 <= b@.len(),
            len == a1 - a0 == b1 - b0,
            k <= len,
            sa == a@.subrange(a0 as int, a1 as int),
            sb == b@.subrange(b0 as int, b1 as int),
            forall|m: int| 0 <= m < k ==> #[trigger] sa[m] == sb[m],
        decreases len - k,
    {
        if a[a0 + k] != b[b0 + k] {
            proof {
                assert(sa[k as int] != sb[k as int]);
            }
            return false;
        }
        k = k + 1;
    }
    proof {
        assert(a@.subrange(a0 as int, a1 as int) =~= b@.subrange(b0 as int, b1 as int));
    }
    true
}

/// Whether `a` and `b` hold the same characters.
pub fn chars_equal(a: &Vec<char>, b: &Vec<char>) -> (r: bool)
    ensures
        r == (a@ == b@),
{
    let r = segments_equal(a, 0, a.len(), b, 0, b.len());
    proof {
        assert(a@.subrange(0, a@.len() as int) =~= a@);
        assert(b@.subrange(0, b@.len() as int) =~= b@);
    }
    r
}

/// Whether `p` is a prefix of `s`.
pub fn is_prefix(p: &Vec<char>, s: &Vec<char>) -> (r: bool)
    ensures
        r == p@.is_prefix_of(s@),
{
    if p.len() > s.len() {
        return false;
    }
    let r = segments_equal(p, 0, p.len(), s, 0, p.len());
    proof {
        assert(p@.subrange(0, p@.len() as int) =~= p@);
    }
    r
}

} // verus!
