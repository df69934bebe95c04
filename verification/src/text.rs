//! Character-sequence utilities shared by the grammar compiler and the
//! argv lexer: line and word splitting, trimming, case-insensitive search.
//!
//! Every executable function returns exactly what the spec function of the
//! same name computes on the view of its input.

use vstd::prelude::*;

verus! {

/// The views of a vector of character vectors.
pub open spec fn sv(v: Seq<Vec<char>>) -> Seq<Seq<char>> {
    v.map_values(|x: Vec<char>| x@)
}

/// A horizontal whitespace character (line splitting handles `\n`).
pub open spec fn is_blank(c: char) -> bool {
    c == ' ' || c == '\t' || c == '\r'
}

/// The code of `c` with an ASCII capital letter folded to lower case.
pub open spec fn lower_code(c: char) -> int {
    if 65 <= c as u32 <= 90 {
        c as u32 + 32
    } else {
        c as u32 as int
    }
}

/// Case-insensitive (ASCII) character equality.
pub open spec fn ci_eq(a: char, b: char) -> bool {
    lower_code(a) == lower_code(b)
}

/// `needle` occurs in `hay` at position `i`, compared case-insensitively.
pub open spec fn match_at_ci(hay: Seq<char>, needle: Seq<char>, i: int) -> bool {
    &&& 0 <= i
    &&& i + needle.len() <= hay.len()
    &&& forall|j: int| 0 <= j < needle.len() ==> ci_eq(hay[i + j], #[trigger] needle[j])
}

/// The first position at or after `i` where `needle` occurs in `hay`
/// case-insensitively, or `-1`.
pub open spec fn find_ci_from(hay: Seq<char>, needle: Seq<char>, i: int) -> int
    decreases hay.len() - i,
{
    if i < 0 || i + needle.len() > hay.len() {
        -1
    } else if match_at_ci(hay, needle, i) {
        i
    } else {
        find_ci_from(hay, needle, i + 1)
    }
}

/// The first position at or after `i` holding exactly `c`, or `-1`.
pub open spec fn find_char_from(s: Seq<char>, c: char, i: int) -> int
    decreases s.len() - i,
{
    if i < 0 || i >= s.len() {
        -1
    } else if s[i] == c {
        i
    } else {
        find_char_from(s, c, i + 1)
    }
}

/// The first position at or after `i` holding a non-blank character, or
/// the length of `s`.
pub open spec fn skip_blanks(s: Seq<char>, i: int) -> int
    decreases s.len() - i,
{
    if i < 0 || i >= s.len() {
        s.len() as int
    } else if is_blank(s[i]) {
        skip_blanks(s, i + 1)
    } else {
        i
    }
}

/// The first position at or after `i` holding a blank character, or the
/// length of `s`.
pub open spec fn scan_to_blank(s: Seq<char>, i: int) -> int
    decreases s.len() - i,
{
    if i < 0 || i >= s.len() {
        s.len() as int
    } else if is_blank(s[i]) {
        i
    } else {
        scan_to_blank(s, i + 1)
    }
}

/// The length of `s` with trailing blanks removed.
pub open spec fn rtrim_len(s: Seq<char>) -> int
    decreases s.len(),
{
    if s.len() == 0 {
        0
    } else if is_blank(s.last()) {
        rtrim_len(s.drop_last())
    } else {
        s.len() as int
    }
}

/// `s` without leading and trailing blanks.
pub open spec fn trim(s: Seq<char>) -> Seq<char> {
    let a = skip_blanks(s, 0);
    let b = rtrim_len(s);
    if a <= b {
        s.subrange(a, b)
    } else {
        Seq::empty()
    }
}

/// `s` split on `sep`; the separators are dropped, empty pieces kept.
pub open spec fn split_on(s: Seq<char>, sep: char) -> Seq<Seq<char>>
    decreases s.len(),
    via split_on_decreases
{
    let i = find_char_from(s, sep, 0);
    if i < 0 {
        seq![s]
    } else {
        seq![s.subrange(0, i)] + split_on(s.subrange(i + 1, s.len() as int), sep)
    }
}

#[via_fn]
proof fn split_on_decreases(s: Seq<char>, sep: char) {
    lemma_find_char_from(s, sep, 0);
}

/// The maximal blank-separated words of `s`, in order.
pub open spec fn words_of(s: Seq<char>) -> Seq<Seq<char>>
    decreases s.len(),
    via words_of_decreases
{
    let a = skip_blanks(s, 0);
    if a >= s.len() {
        Seq::empty()
    } else {
        let b = scan_to_blank(s, a + 1);
        seq![s.subrange(a, b)] + words_of(s.subrange(b, s.len() as int))
    }
}

#[via_fn]
proof fn words_of_decreases(s: Seq<char>) {
    lemma_scan_bounds(s, 0);
    let a = skip_blanks(s, 0);
    if a < s.len() {
        lemma_scan_bounds(s, a + 1);
    }
}

/// `p` is a prefix of `s`.
pub open spec fn begins_with(s: Seq<char>, p: Seq<char>) -> bool {
    s.len() >= p.len() && s.subrange(0, p.len() as int) == p
}

/// `find_char_from` returns `-1` or a position in `[i, s.len())` holding `c`.
pub proof fn lemma_find_char_from(s: Seq<char>, c: char, i: int)
    requires
        0 <= i,
    ensures
        find_char_from(s, c, i) == -1 || (i <= find_char_from(s, c, i) < s.len()
            && s[find_char_from(s, c, i)] == c),
    decreases s.len() - i,
{
    if !(i >= s.len() || s[i] == c) {
        lemma_find_char_from(s, c, i + 1);
    }
}

/// `skip_blanks` and `scan_to_blank` return positions in `[i, s.len()]`.
pub proof fn lemma_scan_bounds(s: Seq<char>, i: int)
    requires
        0 <= i <= s.len(),
    ensures
        i <= skip_blanks(s, i) <= s.len(),
        i <= scan_to_blank(s, i) <= s.len(),
    decreases s.len() - i,
{
    if i < s.len() {
        lemma_scan_bounds(s, i + 1);
    }
}

/// `find_ci_from` returns `-1` or a position in `[i, hay.len() - needle.len()]`.
pub proof fn lemma_find_ci_bounds(hay: Seq<char>, needle: Seq<char>, i: int)
    requires
        0 <= i,
    ensures
        find_ci_from(hay, needle, i) == -1 || (i <= find_ci_from(hay, needle, i) && find_ci_from(
            hay,
            needle,
            i,
        ) + needle.len() <= hay.len()),
    decreases hay.len() - i,
{
    if !(i + needle.len() > hay.len() || match_at_ci(hay, needle, i)) {
        lemma_find_ci_bounds(hay, needle, i + 1);
    }
}

/// Copies `v[i..j]` into a fresh vector.
pub fn copy_range(v: &Vec<char>, i: usize, j: usize) -> (r: Vec<char>)
    requires
        i <= j <= v@.len(),
    ensures
        r@ == v@.subrange(i as int, j as int),
{
    let mut r: Vec<char> = Vec::new();
    let mut k: usize = i;
    while k < j
        invariant
            i <= k <= j <= v@.len(),
            r@ == v@.subrange(i as int, k as int),
        decreases j - k,
    {
        r.push(v[k]);
        assert(v@.subrange(i as int, k + 1 as int) == v@.subrange(i as int, k as int).push(
            v@[k as int],
        ));
        k = k + 1;
    }
    r
}

/// The views of a vector of strings.
pub open spec fn strings_model(v: Seq<String>) -> Seq<Seq<char>> {
    v.map_values(|s: String| s@)
}

/// Copies a whole character vector.
pub fn dup_chars(v: &Vec<char>) -> (r: Vec<char>)
    ensures
        r@ == v@,
{
    let r = copy_range(v, 0, v.len());
    proof {
        assert(v@.subrange(0, v@.len() as int) =~= v@);
    }
    r
}

/// Copies an optional character vector.
pub fn dup_opt(o: &Option<Vec<char>>) -> (r: Option<Vec<char>>)
    ensures
        match r {
            Option::Some(v) => o matches Option::Some(w) && v@ == w@,
            Option::None => o is None,
        },
{
    match o {
        Option::Some(v) => Option::Some(dup_chars(v)),
        Option::None => Option::None,
    }
}

/// Whether two character vectors hold the same characters.
pub fn seq_eq(a: &Vec<char>, b: &Vec<char>) -> (r: bool)
    ensures
        r == (a@ == b@),
{
    if a.len() != b.len() {
        return false;
    }
    let mut k: usize = 0;
    while k < a.len()
        invariant
            0 <= k <= a@.len(),
            a@.len() == b@.len(),
            forall|j: int| 0 <= j < k ==> a@[j] == b@[j],
        decreases a@.len() - k,
    {
        if a[k] != b[k] {
            return false;
        }
        k = k + 1;
    }
    proof {
        assert(a@ =~= b@);
    }
    true
}

/// The characters of `s`, in order.
pub fn to_chars(s: &str) -> (v: Vec<char>)
    ensures
        v@ == s@,
{
    let n = s.unicode_len();
    let mut v: Vec<char> = Vec::new();
    let mut k: usize = 0;
    while k < n
        invariant
            0 <= k <= n,
            n == s@.len(),
            v@ == s@.subrange(0, k as int),
        decreases n - k,
    {
        v.push(s.get_char(k));
        assert(s@.subrange(0, k + 1 as int) == s@.subrange(0, k as int).push(s@[k as int]));
        k = k + 1;
    }
    proof {
        assert(s@.subrange(0, s@.len() as int) == s@);
    }
    v
}

/// Relies on `String::push`: appends one character to the string.
#[verifier::external_body]
fn push_char(s: &mut String, c: char)
    ensures
        final(s)@ == old(s)@.push(c),
{
    s.push(c);
}

/// A `String` holding exactly the characters of `v`.
pub fn from_chars(v: &Vec<char>) -> (s: String)
    ensures
        s@ == v@,
{
    let mut s = String::new();
    let mut k: usize = 0;
    while k < v.len()
        invariant
            0 <= k <= v@.len(),
            s@ == v@.subrange(0, k as int),
        decreases v@.len() - k,
    {
        push_char(&mut s, v[k]);
        assert(v@.subrange(0, k + 1 as int) == v@.subrange(0, k as int).push(v@[k as int]));
        k = k + 1;
    }
    proof {
        assert(v@.subrange(0, v@.len() as int) == v@);
    }
    s
}

/// Mirrors `find_char_from` on a vector.
pub fn find_char(v: &Vec<char>, c: char, from: usize) -> (r: Option<usize>)
    ensures
        match r {
            Some(j) => find_char_from(v@, c, from as int) == j,
            None => find_char_from(v@, c, from as int) == -1,
        },
    decreases v@.len() - from,
{
    if from >= v.len() {
        None
    } else if v[from] == c {
        Some(from)
    } else {
        find_char(v, c, from + 1)
    }
}

/// Mirrors `skip_blanks` on a vector.
pub fn skip_blanks_x(v: &Vec<char>, from: usize) -> (r: usize)
    requires
        from <= v@.len(),
    ensures
        r == skip_blanks(v@, from as int),
        from <= r <= v@.len(),
    decreases v@.len() - from,
{
    if from >= v.len() {
        v.len()
    } else if v[from] == ' ' || v[from] == '\t' || v[from] == '\r' {
        skip_blanks_x(v, from + 1)
    } else {
        from
    }
}

/// Mirrors `scan_to_blank` on a vector.
pub fn scan_to_blank_x(v: &Vec<char>, from: usize) -> (r: usize)
    requires
        from <= v@.len(),
    ensures
        r == scan_to_blank(v@, from as int),
        from <= r <= v@.len(),
    decreases v@.len() - from,
{
    if from >= v.len() {
        v.len()
    } else if v[from] == ' ' || v[from] == '\t' || v[from] == '\r' {
        from
    } else {
        scan_to_blank_x(v, from + 1)
    }
}

/// Mirrors `rtrim_len` on a vector.
pub fn rtrim_len_x(v: &Vec<char>) -> (r: usize)
    ensures
        r == rtrim_len(v@),
        r <= v@.len(),
{
    let mut k: usize = v.len();
    proof {
        assert(v@.subrange(0, v@.len() as int) =~= v@);
    }
    while k > 0
        invariant
            0 <= k <= v@.len(),
            rtrim_len(v@) == rtrim_len(v@.subrange(0, k as int)),
        decreases k,
    {
        let c = v[k - 1];
        if c == ' ' || c == '\t' || c == '\r' {
            proof {
                assert(v@.subrange(0, k as int).drop_last() =~= v@.subrange(0, k - 1 as int));
            }
            k = k - 1;
        } else {
            proof {
                assert(rtrim_len(v@.subrange(0, k as int)) == k);
            }
            return k;
        }
    }
    proof {
        assert(v@.subrange(0, 0) =~= Seq::<char>::empty());
    }
    0
}

/// Mirrors `trim` on a vector.
pub fn trim_x(v: &Vec<char>) -> (r: Vec<char>)
    ensures
        r@ == trim(v@),
{
    let a = skip_blanks_x(v, 0);
    let b = rtrim_len_x(v);
    if a <= b {
        copy_range(v, a, b)
    } else {
        proof {
            assert(trim(v@) =~= Seq::<char>::empty());
        }
        Vec::new()
    }
}

/// Mirrors `begins_with` on vectors.
pub fn begins_with_x(v: &Vec<char>, p: &Vec<char>) -> (r: bool)
    ensures
        r == begins_with(v@, p@),
{
    if v.len() < p.len() {
        return false;
    }
    let mut k: usize = 0;
    while k < p.len()
        invariant
            0 <= k <= p@.len() <= v@.len(),
            forall|j: int| 0 <= j < k ==> v@[j] == p@[j],
        decreases p@.len() - k,
    {
        if v[k] != p[k] {
            proof {
                assert(v@.subrange(0, p@.len() as int)[k as int] != p@[k as int]);
            }
            return false;
        }
        k = k + 1;
    }
    proof {
        assert(v@.subrange(0, p@.len() as int) =~= p@);
    }
    true
}

/// Mirrors `match_at_ci` on vectors.
pub fn match_at_ci_x(hay: &Vec<char>, needle: &Vec<char>, i: usize) -> (r: bool)
    ensures
        r == match_at_ci(hay@, needle@, i as int),
{
    if i > hay.len() || needle.len() > hay.len() - i {
        return false;
    }
    let mut k: usize = 0;
    while k < needle.len()
        invariant
            0 <= k <= needle@.len(),
            i + needle@.len() <= hay@.len() <= usize::MAX,
            forall|j: int| 0 <= j < k ==> ci_eq(hay@[i + j], #[trigger] needle@[j]),
        decreases needle@.len() - k,
    {
        let hc = hay[i + k] as u32;
        let nc = needle[k] as u32;
        let hl = if 65 <= hc && hc <= 90 {
            hc + 32
        } else {
            hc
        };
        let nl = if 65 <= nc && nc <= 90 {
            nc + 32
        } else {
            nc
        };
        if hl != nl {
            return false;
        }
        k = k + 1;
    }
    true
}

/// Mirrors `find_ci_from` on vectors.
pub fn find_ci(hay: &Vec<char>, needle: &Vec<char>, from: usize) -> (r: Option<usize>)
    ensures
        match r {
            Some(j) => find_ci_from(hay@, needle@, from as int) == j,
            None => find_ci_from(hay@, needle@, from as int) == -1,
        },
    decreases hay@.len() - from,
{
    if from > hay.len() || needle.len() > hay.len() - from {
        None
    } else if match_at_ci_x(hay, needle, from) {
        Some(from)
    } else {
        find_ci(hay, needle, from + 1)
    }
}

/// Mirrors `split_on` on a vector.
pub fn split_on_x(v: &Vec<char>, sep: char) -> (r: Vec<Vec<char>>)
    ensures
        sv(r@) == split_on(v@, sep),
    decreases v@.len(),
{
    let mut r: Vec<Vec<char>> = Vec::new();
    match find_char(v, sep, 0) {
        None => {
            proof {
                lemma_find_char_from(v@, sep, 0);
            }
            r.push(copy_range(v, 0, v.len()));
            proof {
                assert(v@.subrange(0, v@.len() as int) == v@);
                assert(sv(r@) =~= split_on(v@, sep));
            }
            r
        },
        Some(i) => {
            proof {
                lemma_find_char_from(v@, sep, 0);
            }
            let n = v.len();
            let head = copy_range(v, 0, i);
            let tail = copy_range(v, i + 1, n);
            let mut rest = split_on_x(&tail, sep);
            let ghost rest0 = sv(rest@);
            r.push(head);
            r.append(&mut rest);
            proof {
                assert(sv(r@) =~= seq![v@.subrange(0, i as int)] + rest0);
                assert(sv(r@) =~= split_on(v@, sep));
            }
            r
        },
    }
}

/// Mirrors `words_of` on a vector.
pub fn words(v: &Vec<char>) -> (r: Vec<Vec<char>>)
    ensures
        sv(r@) == words_of(v@),
    decreases v@.len(),
{
    let a = skip_blanks_x(v, 0);
    if a >= v.len() {
        let r: Vec<Vec<char>> = Vec::new();
        proof {
            assert(sv(r@) =~= words_of(v@));
        }
        r
    } else {
        let b = scan_to_blank_x(v, a + 1);
        let head = copy_range(v, a, b);
        let tail = copy_range(v, b, v.len());
        let mut rest = words(&tail);
        let ghost rest0 = sv(rest@);
        let mut r: Vec<Vec<char>> = Vec::new();
        r.push(head);
        r.append(&mut rest);
        proof {
            assert(sv(r@) =~= seq![v@.subrange(a as int, b as int)] + rest0);
            assert(sv(r@) =~= words_of(v@));
        }
        r
    }
}

} // verus!
