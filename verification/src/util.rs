//! Character classes, trimming, substring search and bounded number scanning
//! over `&str` values, with exact specifications over `Seq<char>` views.

use vstd::prelude::*;

verus! {

use vstd::string::StrSliceExecFns;

// ---------------------------------------------------------------------------
// character classes
// ---------------------------------------------------------------------------

/// The Unicode white-space characters, as `char::is_whitespace` counts them.
pub open spec fn is_ws(c: char) -> bool {
    c == ' ' || c == '\u{9}' || c == '\u{a}' || c == '\u{b}' || c == '\u{c}' || c == '\u{d}'
        || c == '\u{85}' || c == '\u{a0}' || c == '\u{1680}'
        || ('\u{2000}' <= c && c <= '\u{200a}')
        || c == '\u{2028}' || c == '\u{2029}' || c == '\u{202f}' || c == '\u{205f}'
        || c == '\u{3000}'
}

pub fn is_ws_char(c: char) -> (r: bool)
    ensures
        r == is_ws(c),
{
    c == ' ' || c == '\u{9}' || c == '\u{a}' || c == '\u{b}' || c == '\u{c}' || c == '\u{d}'
        || c == '\u{85}' || c == '\u{a0}' || c == '\u{1680}'
        || ('\u{2000}' <= c && c <= '\u{200a}')
        || c == '\u{2028}' || c == '\u{2029}' || c == '\u{202f}' || c == '\u{205f}'
        || c == '\u{3000}'
}

pub open spec fn is_digit(c: char) -> bool {
    '0' <= c && c <= '9'
}

pub open spec fn digit_val(c: char) -> int {
    c as int - '0' as int
}

pub open spec fn is_hex_digit(c: char) -> bool {
    ('0' <= c && c <= '9') || ('a' <= c && c <= 'f') || ('A' <= c && c <= 'F')
}

pub open spec fn hex_val(c: char) -> int {
    if '0' <= c && c <= '9' {
        c as int - '0' as int
    } else if 'a' <= c && c <= 'f' {
        c as int - 'a' as int + 10
    } else {
        c as int - 'A' as int + 10
    }
}

// ---------------------------------------------------------------------------
// trimming (Unicode white space, and the space character alone)
// ---------------------------------------------------------------------------

pub open spec fn skip_ws(s: Seq<char>) -> Seq<char>
    decreases s.len(),
{
    if s.len() > 0 && is_ws(s[0]) {
        skip_ws(s.drop_first())
    } else {
        s
    }
}

pub open spec fn trim_end_ws(s: Seq<char>) -> Seq<char>
    decreases s.len(),
{
    if s.len() > 0 && is_ws(s.last()) {
        trim_end_ws(s.drop_last())
    } else {
        s
    }
}

/// What `str::trim` leaves: white space stripped from both ends.
pub open spec fn trim_ws(s: Seq<char>) -> Seq<char> {
    trim_end_ws(skip_ws(s))
}

pub open spec fn skip_sp(s: Seq<char>) -> Seq<char>
    decreases s.len(),
{
    if s.len() > 0 && s[0] == ' ' {
        skip_sp(s.drop_first())
    } else {
        s
    }
}

pub open spec fn trim_end_sp(s: Seq<char>) -> Seq<char>
    decreases s.len(),
{
    if s.len() > 0 && s.last() == ' ' {
        trim_end_sp(s.drop_last())
    } else {
        s
    }
}

/// What SQL `trim` leaves: the space character stripped from both ends.
pub open spec fn trim_sp(s: Seq<char>) -> Seq<char> {
    trim_end_sp(skip_sp(s))
}

proof fn lemma_skip_ws_at(s: Seq<char>, k: int)
    requires
        0 <= k <= s.len(),
        forall|j: int| 0 <= j < k ==> is_ws(s[j]),
        k == s.len() || !is_ws(s[k]),
    ensures
        skip_ws(s) == s.subrange(k, s.len() as int),
    decreases k,
{
    if k == 0 {
        assert(s.subrange(0, s.len() as int) =~= s);
    } else {
        assert(is_ws(s[0]));
        let d = s.drop_first();
        assert(forall|j: int| 0 <= j < k - 1 ==> is_ws(#[trigger] d[j]));
        lemma_skip_ws_at(d, k - 1);
        assert(d.subrange(k - 1, d.len() as int) =~= s.subrange(k, s.len() as int));
    }
}

proof fn lemma_trim_end_ws_at(s: Seq<char>, k: int)
    requires
        0 <= k <= s.len(),
        forall|j: int| k <= j < s.len() ==> is_ws(s[j]),
        k == 0 || !is_ws(s[k - 1]),
    ensures
        trim_end_ws(s) == s.subrange(0, k),
    decreases s.len() - k,
{
    if k == s.len() {
        assert(s.subrange(0, s.len() as int) =~= s);
        if s.len() > 0 {
            assert(!is_ws(s.last()));
        }
    } else {
        assert(is_ws(s.last()));
        let d = s.drop_last();
        lemma_trim_end_ws_at(d, k);
        assert(d.subrange(0, k) =~= s.subrange(0, k));
    }
}

proof fn lemma_skip_sp_at(s: Seq<char>, k: int)
    requires
        0 <= k <= s.len(),
        forall|j: int| 0 <= j < k ==> s[j] == ' ',
        k == s.len() || s[k] != ' ',
    ensures
        skip_sp(s) == s.subrange(k, s.len() as int),
    decreases k,
{
    if k == 0 {
        assert(s.subrange(0, s.len() as int) =~= s);
    } else {
        let d = s.drop_first();
        assert(forall|j: int| 0 <= j < k - 1 ==> #[trigger] d[j] == ' ');
        lemma_skip_sp_at(d, k - 1);
        assert(d.subrange(k - 1, d.len() as int) =~= s.subrange(k, s.len() as int));
    }
}

proof fn lemma_trim_end_sp_at(s: Seq<char>, k: int)
    requires
        0 <= k <= s.len(),
        forall|j: int| k <= j < s.len() ==> s[j] == ' ',
        k == 0 || s[k - 1] != ' ',
    ensures
        trim_end_sp(s) == s.subrange(0, k),
    decreases s.len() - k,
{
    if k == s.len() {
        assert(s.subrange(0, s.len() as int) =~= s);
    } else {
        let d = s.drop_last();
        lemma_trim_end_sp_at(d, k);
        assert(d.subrange(0, k) =~= s.subrange(0, k));
    }
}

proof fn lemma_skip_ws_suffix(s: Seq<char>)
    ensures
        exists|k: int|
            0 <= k <= s.len() && skip_ws(s) == s.subrange(k, s.len() as int),
    decreases s.len(),
{
    if s.len() > 0 && is_ws(s[0]) {
        let d = s.drop_first();
        lemma_skip_ws_suffix(d);
        let k = choose|k: int|
            0 <= k <= d.len() && skip_ws(d) == d.subrange(k, d.len() as int);
        assert(d.subrange(k, d.len() as int) =~= s.subrange(k + 1, s.len() as int));
    } else {
        assert(skip_ws(s) == s.subrange(0, s.len() as int)) by {
            assert(s.subrange(0, s.len() as int) =~= s);
        }
    }
}

proof fn lemma_skip_ws_first(s: Seq<char>)
    ensures
        skip_ws(s).len() > 0 ==> !is_ws(skip_ws(s)[0]),
    decreases s.len(),
{
    if s.len() > 0 && is_ws(s[0]) {
        lemma_skip_ws_first(s.drop_first());
    }
}

proof fn lemma_skip_sp_keeps_nonspace(s: Seq<char>, k: int)
    requires
        0 <= k < s.len(),
        s[k] != ' ',
    ensures
        exists|j: int| 0 <= j < skip_sp(s).len() && #[trigger] skip_sp(s)[j] != ' ',
    decreases s.len(),
{
    if s.len() > 0 && s[0] == ' ' {
        let d = s.drop_first();
        assert(d[k - 1] == s[k]);
        lemma_skip_sp_keeps_nonspace(d, k - 1);
        let j = choose|j: int| 0 <= j < skip_sp(d).len() && #[trigger] skip_sp(d)[j] != ' ';
        assert(skip_sp(s)[j] != ' ');
    } else {
        assert(skip_sp(s)[k] != ' ');
    }
}

proof fn lemma_trim_end_sp_keeps(s: Seq<char>)
    requires
        exists|j: int| 0 <= j < s.len() && #[trigger] s[j] != ' ',
    ensures
        trim_end_sp(s).len() > 0,
    decreases s.len(),
{
    if s.len() > 0 && s.last() == ' ' {
        let j = choose|j: int| 0 <= j < s.len() && #[trigger] s[j] != ' ';
        let d = s.drop_last();
        assert(d[j] != ' ');
        lemma_trim_end_sp_keeps(d);
    }
}

/// A string that is not blank under the white-space trim is not blank
/// under the space-only trim either.
pub proof fn lemma_trim_ws_nonblank_trim_sp(s: Seq<char>)
    requires
        trim_ws(s).len() > 0,
    ensures
        trim_sp(s).len() > 0,
{
    assert(skip_ws(s).len() > 0) by {
        if skip_ws(s).len() == 0 {
            assert(trim_end_ws(skip_ws(s)).len() == 0);
        }
    }
    lemma_skip_ws_suffix(s);
    lemma_skip_ws_first(s);
    let k = choose|k: int|
        0 <= k <= s.len() && skip_ws(s) == s.subrange(k, s.len() as int);
    assert(s[k] == skip_ws(s)[0]);
    assert(!is_ws(s[k]));
    lemma_skip_sp_keeps_nonspace(s, k);
    lemma_trim_end_sp_keeps(skip_sp(s));
}

pub fn trim_ws_str<'a>(s: &'a str) -> (r: &'a str)
    ensures
        r@ == trim_ws(s@),
{
    let n: usize = s.unicode_len();
    let mut lo: usize = 0;
    while lo < n && is_ws_char(s.get_char(lo))
        invariant
            0 <= lo <= n,
            n == s@.len(),
            forall|j: int| 0 <= j < lo ==> is_ws(s@[j]),
        decreases n - lo,
    {
        lo = lo + 1;
    }
    if lo == n {
        proof {
            lemma_skip_ws_at(s@, n as int);
            assert(skip_ws(s@).len() == 0);
        }
        return s.substring_char(n, n);
    }
    let mut hi: usize = n;
    while hi > lo && is_ws_char(s.get_char(hi - 1))
        invariant
            lo <= hi <= n,
            n == s@.len(),
            forall|j: int| hi <= j < n ==> is_ws(s@[j]),
        decreases hi,
    {
        hi = hi - 1;
    }
    proof {
        lemma_skip_ws_at(s@, lo as int);
        let sub = s@.subrange(lo as int, n as int);
        assert(hi > lo) by {
            if hi == lo {
                assert(is_ws(s@[lo as int]));
            }
        }
        assert(forall|j: int| hi - lo <= j < sub.len() ==> is_ws(#[trigger] sub[j]));
        assert(!is_ws(sub[hi - lo - 1]));
        lemma_trim_end_ws_at(sub, hi - lo);
        assert(sub.subrange(0, hi - lo) =~= s@.subrange(lo as int, hi as int));
    }
    s.substring_char(lo, hi)
}

pub fn trim_sp_str<'a>(s: &'a str) -> (r: &'a str)
    ensures
        r@ == trim_sp(s@),
{
    let n: usize = s.unicode_len();
    let mut lo: usize = 0;
    while lo < n && s.get_char(lo) == ' '
        invariant
            0 <= lo <= n,
            n == s@.len(),
            forall|j: int| 0 <= j < lo ==> s@[j] == ' ',
        decreases n - lo,
    {
        lo = lo + 1;
    }
    if lo == n {
        proof {
            lemma_skip_sp_at(s@, n as int);
            assert(skip_sp(s@).len() == 0);
        }
        return s.substring_char(n, n);
    }
    let mut hi: usize = n;
    while hi > lo && s.get_char(hi - 1) == ' '
        invariant
            lo <= hi <= n,
            n == s@.len(),
            forall|j: int| hi <= j < n ==> s@[j] == ' ',
        decreases hi,
    {
        hi = hi - 1;
    }
    proof {
        lemma_skip_sp_at(s@, lo as int);
        let sub = s@.subrange(lo as int, n as int);
        assert(hi > lo) by {
            if hi == lo {
                assert(s@[lo as int] == ' ');
            }
        }
        assert(forall|j: int| hi - lo <= j < sub.len() ==> #[trigger] sub[j] == ' ');
        assert(sub[hi - lo - 1] != ' ');
        lemma_trim_end_sp_at(sub, hi - lo);
        assert(sub.subrange(0, hi - lo) =~= s@.subrange(lo as int, hi as int));
    }
    s.substring_char(lo, hi)
}

// ---------------------------------------------------------------------------
// substring search
// ---------------------------------------------------------------------------

/// Index of the first occurrence of `c` at or after `from`, if any.
pub open spec fn find_from(s: Seq<char>, from: int, c: char) -> Option<int>
    decreases s.len() - from,
{
    if from < 0 || from >= s.len() {
        None
    } else if s[from] == c {
        Some(from)
    } else {
        find_from(s, from + 1, c)
    }
}

/// Index of the first occurrence of `c1` or `c2` at or after `from`, if any.
pub open spec fn find2_from(s: Seq<char>, from: int, c1: char, c2: char) -> Option<int>
    decreases s.len() - from,
{
    if from < 0 || from >= s.len() {
        None
    } else if s[from] == c1 || s[from] == c2 {
        Some(from)
    } else {
        find2_from(s, from + 1, c1, c2)
    }
}

/// Index of the last occurrence of `c1` or `c2` at or before `from`, if any.
pub open spec fn rfind2_from(s: Seq<char>, from: int, c1: char, c2: char) -> Option<int>
    decreases from + 1,
{
    if from < 0 || from >= s.len() {
        None
    } else if s[from] == c1 || s[from] == c2 {
        Some(from)
    } else {
        rfind2_from(s, from - 1, c1, c2)
    }
}

/// Index of the last occurrence of `c` at or before `from`, if any.
pub open spec fn rfind_from(s: Seq<char>, from: int, c: char) -> Option<int>
    decreases from + 1,
{
    if from < 0 || from >= s.len() {
        None
    } else if s[from] == c {
        Some(from)
    } else {
        rfind_from(s, from - 1, c)
    }
}

pub proof fn lemma_find_from_props(s: Seq<char>, from: int, c: char)
    requires
        0 <= from <= s.len(),
    ensures
        match find_from(s, from, c) {
            Some(i) => from <= i < s.len() && s[i] == c && forall|j: int|
                from <= j < i ==> s[j] != c,
            None => forall|j: int| from <= j < s.len() ==> s[j] != c,
        },
    decreases s.len() - from,
{
    if from < s.len() && s[from] != c {
        lemma_find_from_props(s, from + 1, c);
    }
}

pub proof fn lemma_find2_from_props(s: Seq<char>, from: int, c1: char, c2: char)
    requires
        0 <= from <= s.len(),
    ensures
        match find2_from(s, from, c1, c2) {
            Some(i) => from <= i < s.len() && (s[i] == c1 || s[i] == c2) && forall|j: int|
                from <= j < i ==> (s[j] != c1 && s[j] != c2),
            None => forall|j: int| from <= j < s.len() ==> (s[j] != c1 && s[j] != c2),
        },
    decreases s.len() - from,
{
    if from < s.len() && s[from] != c1 && s[from] != c2 {
        lemma_find2_from_props(s, from + 1, c1, c2);
    }
}

/// A found position pins `find_from` down.
pub proof fn lemma_find_from_is(s: Seq<char>, from: int, c: char, k: int)
    requires
        0 <= from <= k < s.len(),
        s[k] == c,
        forall|j: int| from <= j < k ==> s[j] != c,
    ensures
        find_from(s, from, c) == Some(k),
{
    lemma_find_from_props(s, from, c);
    match find_from(s, from, c) {
        Some(i) => {
            if i < k {
                assert(s[i] != c);
            }
            if i > k {
                assert(s[k] != c);
            }
        }
        None => {
            assert(s[k] != c);
        }
    }
}

pub proof fn lemma_find2_from_is(s: Seq<char>, from: int, c1: char, c2: char, k: int)
    requires
        0 <= from <= k < s.len(),
        s[k] == c1 || s[k] == c2,
        forall|j: int| from <= j < k ==> (s[j] != c1 && s[j] != c2),
    ensures
        find2_from(s, from, c1, c2) == Some(k),
{
    lemma_find2_from_props(s, from, c1, c2);
    match find2_from(s, from, c1, c2) {
        Some(i) => {
            if i < k {
                assert(s[i] != c1 && s[i] != c2);
            }
            if i > k {
                assert(s[k] != c1 && s[k] != c2);
            }
        }
        None => {
            assert(s[k] != c1 && s[k] != c2);
        }
    }
}

pub proof fn lemma_find_from_none(s: Seq<char>, from: int, c: char)
    requires
        0 <= from <= s.len(),
        forall|j: int| from <= j < s.len() ==> s[j] != c,
    ensures
        find_from(s, from, c) is None,
{
    lemma_find_from_props(s, from, c);
    if let Some(i) = find_from(s, from, c) {
        assert(s[i] != c);
    }
}

pub proof fn lemma_find2_from_none(s: Seq<char>, from: int, c1: char, c2: char)
    requires
        0 <= from <= s.len(),
        forall|j: int| from <= j < s.len() ==> (s[j] != c1 && s[j] != c2),
    ensures
        find2_from(s, from, c1, c2) is None,
{
    lemma_find2_from_props(s, from, c1, c2);
    if let Some(i) = find2_from(s, from, c1, c2) {
        assert(s[i] != c1 && s[i] != c2);
    }
}

pub fn find_char_from(s: &str, from: usize, c: char) -> (r: Option<usize>)
    requires
        from <= s@.len(),
    ensures
        match r {
            Some(i) => find_from(s@, from as int, c) == Some(i as int) && from <= i < s@.len()
                && s@[i as int] == c,
            None => find_from(s@, from as int, c) is None,
        },
{
    let n: usize = s.unicode_len();
    let mut i: usize = from;
    while i < n
        invariant
            from <= i <= n,
            n == s@.len(),
            find_from(s@, from as int, c) == find_from(s@, i as int, c),
        decreases n - i,
    {
        if s.get_char(i) == c {
            return Some(i);
        }
        i = i + 1;
    }
    None
}

pub fn find_char2_from(s: &str, from: usize, c1: char, c2: char) -> (r: Option<usize>)
    requires
        from <= s@.len(),
    ensures
        match r {
            Some(i) => find2_from(s@, from as int, c1, c2) == Some(i as int) && from <= i
                < s@.len() && (s@[i as int] == c1 || s@[i as int] == c2),
            None => find2_from(s@, from as int, c1, c2) is None,
        },
{
    let n: usize = s.unicode_len();
    let mut i: usize = from;
    while i < n
        invariant
            from <= i <= n,
            n == s@.len(),
            find2_from(s@, from as int, c1, c2) == find2_from(s@, i as int, c1, c2),
        decreases n - i,
    {
        if s.get_char(i) == c1 || s.get_char(i) == c2 {
            return Some(i);
        }
        i = i + 1;
    }
    None
}

/// Last occurrence of `c` in the whole string, if any.
pub fn rfind_char(s: &str, c: char) -> (r: Option<usize>)
    ensures
        match r {
            Some(i) => rfind_from(s@, s@.len() - 1, c) == Some(i as int) && i < s@.len()
                && s@[i as int] == c,
            None => rfind_from(s@, s@.len() - 1, c) is None,
        },
{
    let n: usize = s.unicode_len();
    let mut i: usize = n;
    while i > 0
        invariant
            0 <= i <= n,
            n == s@.len(),
            rfind_from(s@, n - 1, c) == rfind_from(s@, i - 1, c),
        decreases i,
    {
        if s.get_char(i - 1) == c {
            return Some(i - 1);
        }
        i = i - 1;
    }
    None
}

// ---------------------------------------------------------------------------
// prefixes
// ---------------------------------------------------------------------------

/// Last occurrence of `c1` or `c2` at or before `from`, if any.
pub fn rfind_char2_from(s: &str, from: usize, c1: char, c2: char) -> (r: Option<usize>)
    requires
        from < s@.len(),
    ensures
        match r {
            Some(i) => rfind2_from(s@, from as int, c1, c2) == Some(i as int) && i <= from
                && (s@[i as int] == c1 || s@[i as int] == c2),
            None => rfind2_from(s@, from as int, c1, c2) is None,
        },
{
    let mut i: usize = from;
    loop
        invariant
            i <= from,
            from < s@.len(),
            rfind2_from(s@, from as int, c1, c2) == rfind2_from(s@, i as int, c1, c2),
        decreases i,
    {
        let c = s.get_char(i);
        if c == c1 || c == c2 {
            return Some(i);
        }
        if i == 0 {
            return None;
        }
        i = i - 1;
    }
}

/// Character-wise string equality, `r == (a@ == b@)`.
pub fn str_eq(a: &str, b: &str) -> (r: bool)
    ensures
        r == (a@ == b@),
{
    let n: usize = a.unicode_len();
    let m: usize = b.unicode_len();
    if n != m {
        return false;
    }
    let mut i: usize = 0;
    while i < n
        invariant
            i <= n,
            n == a@.len(),
            n == b@.len(),
            forall|j: int| 0 <= j < i ==> a@[j] == b@[j],
        decreases n - i,
    {
        if a.get_char(i) != b.get_char(i) {
            return false;
        }
        i = i + 1;
    }
    proof {
        assert(a@ =~= b@);
    }
    true
}

pub open spec fn has_prefix(s: Seq<char>, p: Seq<char>) -> bool {
    p.len() <= s.len() && s.subrange(0, p.len() as int) == p
}

pub fn starts_with(s: &str, p: &str) -> (r: bool)
    ensures
        r == has_prefix(s@, p@),
{
    let n: usize = s.unicode_len();
    let m: usize = p.unicode_len();
    if m > n {
        return false;
    }
    let mut i: usize = 0;
    while i < m
        invariant
            0 <= i <= m <= n,
            n == s@.len(),
            m == p@.len(),
            forall|j: int| 0 <= j < i ==> s@[j] == p@[j],
        decreases m - i,
    {
        if s.get_char(i) != p.get_char(i) {
            proof {
                assert(s@.subrange(0, m as int)[i as int] != p@[i as int]);
            }
            return false;
        }
        i = i + 1;
    }
    proof {
        assert(s@.subrange(0, m as int) =~= p@);
    }
    true
}

// ---------------------------------------------------------------------------
// bounded decimal and hexadecimal scanning
// ---------------------------------------------------------------------------

/// Outcome of scanning a span of characters as a decimal `u16`.
#[derive(Clone, Copy, Debug, PartialEq, Eq, Structural)]
pub enum NumParse {
    Value(u16),
    TooBig,
    Malformed,
}

/// Value of a digit string, most significant digit first.
pub open spec fn dec_val(s: Seq<char>) -> int
    decreases s.len(),
{
    if s.len() == 0 {
        0
    } else {
        dec_val(s.drop_last()) * 10 + digit_val(s.last())
    }
}

/// Left-to-right scan with an accumulator: a non-digit stops it as
/// `Malformed`, exceeding `u16::MAX` stops it as `TooBig`.
pub open spec fn scan_u16_rec(s: Seq<char>, acc: int) -> NumParse
    decreases s.len(),
{
    if s.len() == 0 {
        NumParse::Value(acc as u16)
    } else if !is_digit(s[0]) {
        NumParse::Malformed
    } else if acc * 10 + digit_val(s[0]) > 0xFFFF {
        NumParse::TooBig
    } else {
        scan_u16_rec(s.drop_first(), acc * 10 + digit_val(s[0]))
    }
}

/// A decimal `u16` literal: nonempty, digits only, within range.
pub open spec fn scan_u16(s: Seq<char>) -> NumParse {
    if s.len() == 0 {
        NumParse::Malformed
    } else {
        scan_u16_rec(s, 0)
    }
}

pub fn scan_u16_range(s: &str, from: usize, to: usize) -> (r: NumParse)
    requires
        from <= to <= s@.len(),
    ensures
        r == scan_u16(s@.subrange(from as int, to as int)),
{
    if from == to {
        return NumParse::Malformed;
    }
    let ghost whole = s@.subrange(from as int, to as int);
    let mut acc: u32 = 0;
    let mut i: usize = from;
    while i < to
        invariant
            from <= i <= to <= s@.len(),
            acc <= 0xFFFF,
            whole == s@.subrange(from as int, to as int),
            whole.len() > 0,
            scan_u16(whole) == scan_u16_rec(
                s@.subrange(i as int, to as int),
                acc as int,
            ),
        decreases to - i,
    {
        let ghost rest = s@.subrange(i as int, to as int);
        let c = s.get_char(i);
        proof {
            assert(rest[0] == s@[i as int]);
        }
        if !(c >= '0' && c <= '9') {
            return NumParse::Malformed;
        }
        let d: u32 = c as u32 - '0' as u32;
        if acc * 10 + d > 0xFFFF {
            return NumParse::TooBig;
        }
        acc = acc * 10 + d;
        i = i + 1;
        proof {
            assert(rest.drop_first() =~= s@.subrange(i as int, to as int));
        }
    }
    proof {
        assert(s@.subrange(i as int, to as int).len() == 0);
    }
    NumParse::Value(acc as u16)
}

pub open spec fn pow16(k: nat) -> int
    decreases k,
{
    if k == 0 {
        1
    } else {
        16 * pow16((k - 1) as nat)
    }
}

proof fn lemma_pow16_le(j: nat, k: nat)
    requires
        j <= k,
    ensures
        pow16(j) <= pow16(k),
        pow16(j) >= 1,
    decreases k,
{
    if k > 0 {
        if j == k {
            lemma_pow16_le((j - 1) as nat, (k - 1) as nat);
        } else {
            lemma_pow16_le(j, (k - 1) as nat);
        }
    }
}

proof fn lemma_pow16_values()
    ensures
        pow16(7) == 0x10000000,
        pow16(8) == 0x100000000,
{
    assert(pow16(0) == 1);
    assert(pow16(1) == 16);
    assert(pow16(2) == 0x100);
    assert(pow16(3) == 0x1000);
    assert(pow16(4) == 0x10000);
    assert(pow16(5) == 0x100000);
    assert(pow16(6) == 0x1000000);
    assert(pow16(7) == 0x10000000);
    assert(pow16(8) == 0x100000000);
}

/// Right-extension scan of a hexadecimal string, accumulator first.
pub open spec fn scan_hex_rec(s: Seq<char>, acc: int) -> Option<int>
    decreases s.len(),
{
    if s.len() == 0 {
        Some(acc)
    } else if !is_hex_digit(s[0]) {
        None
    } else {
        scan_hex_rec(s.drop_first(), acc * 16 + hex_val(s[0]))
    }
}

/// A serial literal: one to eight hexadecimal digits.
pub open spec fn scan_hex(s: Seq<char>) -> Option<u32> {
    if s.len() == 0 || s.len() > 8 {
        None
    } else {
        match scan_hex_rec(s, 0) {
            Some(v) => Some(v as u32),
            None => None,
        }
    }
}

proof fn lemma_scan_hex_rec_bound(s: Seq<char>, acc: int)
    requires
        0 <= acc,
    ensures
        scan_hex_rec(s, acc) matches Some(v) ==> 0 <= v < (acc + 1) * pow16(s.len()),
    decreases s.len(),
{
    lemma_pow16_le(0, s.len());
    if s.len() > 0 && is_hex_digit(s[0]) {
        let acc2 = acc * 16 + hex_val(s[0]);
        lemma_scan_hex_rec_bound(s.drop_first(), acc2);
        lemma_pow16_le(0, (s.len() - 1) as nat);
        assert((acc2 + 1) * pow16((s.len() - 1) as nat) <= (acc + 1) * pow16(s.len())) by {
            assert(acc2 + 1 <= acc * 16 + 16);
            assert(pow16(s.len()) == 16 * pow16((s.len() - 1) as nat));
            vstd::arithmetic::mul::lemma_mul_inequality(
                acc2 + 1,
                (acc + 1) * 16,
                pow16((s.len() - 1) as nat),
            );
            vstd::arithmetic::mul::lemma_mul_is_associative(acc + 1, 16, pow16((s.len() - 1) as nat));
        }
    }
}

pub fn scan_hex_range(s: &str, from: usize, to: usize) -> (r: Option<u32>)
    requires
        from <= to <= s@.len(),
    ensures
        r == scan_hex(s@.subrange(from as int, to as int)),
{
    if from == to || to - from > 8 {
        return None;
    }
    let ghost whole = s@.subrange(from as int, to as int);
    let mut acc: u32 = 0;
    let mut i: usize = from;
    while i < to
        invariant
            from <= i <= to <= s@.len(),
            to - from <= 8,
            whole == s@.subrange(from as int, to as int),
            1 <= whole.len() <= 8,
            acc < pow16((i - from) as nat),
            scan_hex_rec(whole, 0) == scan_hex_rec(
                s@.subrange(i as int, to as int),
                acc as int,
            ),
        decreases to - i,
    {
        let ghost rest = s@.subrange(i as int, to as int);
        let c = s.get_char(i);
        proof {
            assert(rest[0] == s@[i as int]);
        }
        let d: u32;
        if c >= '0' && c <= '9' {
            d = c as u32 - '0' as u32;
        } else if c >= 'a' && c <= 'f' {
            d = c as u32 - 'a' as u32 + 10;
        } else if c >= 'A' && c <= 'F' {
            d = c as u32 - 'A' as u32 + 10;
        } else {
            return None;
        }
        proof {
            lemma_pow16_le((i - from) as nat, 7);
            lemma_pow16_values();
        }
        acc = acc * 16 + d;
        i = i + 1;
        proof {
            assert(rest.drop_first() =~= s@.subrange(i as int, to as int));
            assert(acc < pow16((i - from) as nat));
        }
    }
    proof {
        assert(s@.subrange(i as int, to as int).len() == 0);
        lemma_scan_hex_rec_bound(whole, 0);
        lemma_pow16_le(whole.len(), 8);
        lemma_pow16_values();
    }
    Some(acc)
}

} // verus!
