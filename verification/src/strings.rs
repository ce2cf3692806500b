//! Small string operations of `std` that the rest of the library builds on.
use vstd::prelude::*;

verus! {

/// `String::push`: appends one character.
#[verifier::external_body]
pub fn push_char(s: &mut String, c: char)
    ensures
        final(s)@ == old(s)@.push(c),
{
    s.push(c);
}

/// `<str as PartialEq>::eq`: two string slices are equal exactly when their characters are.
#[verifier::external_body]
pub fn str_eq(a: &str, b: &str) -> (r: bool)
    ensures
        r == (a@ == b@),
{
    a == b
}

/// Copies a string slice into a new `String` with the same characters.
pub fn to_owned_string(s: &str) -> (r: String)
    ensures
        r@ == s@,
{
    String::from_str(s)
}

/// Appends a string slice to a `String`.
pub fn push_str(out: &mut String, s: &str)
    ensures
        final(out)@ == old(out)@ + s@,
{
    out.append(s);
}

/// `s` ends with `suffix`.
pub open spec fn ends_with(s: Seq<char>, suffix: Seq<char>) -> bool {
    suffix.len() <= s.len() && s.subrange(s.len() - suffix.len(), s.len() as int) == suffix
}

/// `needle` occurs in `s` at position `i`.
pub open spec fn occurs_at(s: Seq<char>, needle: Seq<char>, i: int) -> bool {
    0 <= i && i + needle.len() <= s.len() && s.subrange(i, i + needle.len()) == needle
}

/// The first position, from `i` on, at which `needle` occurs in `s`.
pub open spec fn find_from(s: Seq<char>, needle: Seq<char>, i: int) -> Option<int>
    decreases s.len() + 1 - i,
{
    if i < 0 || i + needle.len() > s.len() {
        None
    } else if occurs_at(s, needle, i) {
        Some(i)
    } else {
        find_from(s, needle, i + 1)
    }
}

/// The first position at which `needle` occurs in `s`, if any.
pub open spec fn find_first(s: Seq<char>, needle: Seq<char>) -> Option<int> {
    find_from(s, needle, 0)
}

pub proof fn lemma_find_from(s: Seq<char>, needle: Seq<char>, i: int)
    requires
        0 <= i,
    ensures
        find_from(s, needle, i) matches Some(j) ==> i <= j && occurs_at(s, needle, j) && forall|k: int|
            i <= k < j ==> !occurs_at(s, needle, k),
        find_from(s, needle, i) is None ==> forall|k: int| i <= k ==> !occurs_at(s, needle, k),
    decreases s.len() + 1 - i,
{
    if i + needle.len() > s.len() {
    } else if occurs_at(s, needle, i) {
    } else {
        lemma_find_from(s, needle, i + 1);
    }
}

/// Whether `needle` occurs in `hay` at position `i`.
pub fn occurs_at_exec(hay: &Vec<char>, needle: &Vec<char>, i: usize) -> (r: bool)
    ensures
        r == occurs_at(hay@, needle@, i as int),
{
    if i > hay.len() || needle.len() > hay.len() - i {
        return false;
    }
    let m = needle.len();
    let n = hay.len();
    let mut k: usize = 0;
    while k < m
        invariant
            m == needle@.len(),
            n == hay@.len(),
            i + m <= n,
            k <= m,
            forall|q: int| 0 <= q < k ==> hay@[i + q] == needle@[q],
        decreases m - k,
    {
        if hay[i + k] != needle[k] {
            assert(hay@.subrange(i as int, i + m)[k as int] != needle@[k as int]);
            return false;
        }
        k = k + 1;
    }
    assert(hay@.subrange(i as int, i + m) =~= needle@);
    true
}

/// The first position at which `needle` occurs in `hay` (see `find_first`).
pub fn find_chars(hay: &Vec<char>, needle: &Vec<char>) -> (r: Option<usize>)
    ensures
        r matches Some(i) ==> find_first(hay@, needle@) == Some(i as int),
        r is None ==> find_first(hay@, needle@) is None,
{
    let n = hay.len();
    if needle.len() == 0 {
        assert(hay@.subrange(0, 0) =~= needle@);
        return Some(0);
    }
    let mut i: usize = 0;
    while needle.len() <= n - i
        invariant
            n == hay@.len(),
            needle@.len() >= 1,
            i <= n,
            find_first(hay@, needle@) == find_from(hay@, needle@, i as int),
        decreases n - i,
    {
        if occurs_at_exec(hay, needle, i) {
            return Some(i);
        }
        i = i + 1;
    }
    None
}

/// The characters of `s`, one per element.
pub fn to_chars(s: &str) -> (r: Vec<char>)
    ensures
        r@ == s@,
{
    let mut out: Vec<char> = Vec::new();
    for c in it: s.chars()
        invariant
            out@ == it.seq().take(it.index() as int),
    {
        out.push(c);
    }
    out
}

/// Whether `s` ends with `suffix`.
pub fn ends_with_exec(s: &str, suffix: &str) -> (r: bool)
    ensures
        r == ends_with(s@, suffix@),
{
    let sv = to_chars(s);
    let xv = to_chars(suffix);
    let n = sv.len();
    let m = xv.len();
    if m > n {
        return false;
    }
    let mut i: usize = 0;
    while i < m
        invariant
            n == s@.len(),
            m == suffix@.len(),
            sv@ == s@,
            xv@ == suffix@,
            m <= n,
            i <= m,
            forall|k: int| 0 <= k < i ==> s@[n - m + k] == suffix@[k],
        decreases m - i,
    {
        if sv[n - m + i] != xv[i] {
            assert(s@.subrange(n - m, n as int)[i as int] != suffix@[i as int]);
            return false;
        }
        i = i + 1;
    }
    assert(s@.subrange(n - m, n as int) =~= suffix@);
    true
}

/// Lexicographic order of character sequences, which is the order of `str`
/// (UTF-8 bytes compare as the characters they encode).
pub open spec fn seq_lt(a: Seq<char>, b: Seq<char>) -> bool
    decreases a.len(),
{
    if a.len() == 0 {
        b.len() > 0
    } else if b.len() == 0 {
        false
    } else if a[0] != b[0] {
        (a[0] as int) < (b[0] as int)
    } else {
        seq_lt(a.drop_first(), b.drop_first())
    }
}

pub proof fn lemma_seq_lt_irreflexive(a: Seq<char>)
    ensures
        !seq_lt(a, a),
    decreases a.len(),
{
    if a.len() > 0 {
        lemma_seq_lt_irreflexive(a.drop_first());
    }
}

pub proof fn lemma_seq_lt_transitive(a: Seq<char>, b: Seq<char>, c: Seq<char>)
    requires
        seq_lt(a, b),
        seq_lt(b, c),
    ensures
        seq_lt(a, c),
    decreases a.len(),
{
    if a.len() > 0 && b.len() > 0 && c.len() > 0 {
        if a[0] == b[0] && b[0] == c[0] {
            lemma_seq_lt_transitive(a.drop_first(), b.drop_first(), c.drop_first());
        }
    }
}

pub proof fn lemma_seq_lt_total(a: Seq<char>, b: Seq<char>)
    requires
        a != b,
    ensures
        seq_lt(a, b) || seq_lt(b, a),
    decreases a.len(),
{
    if a.len() > 0 && b.len() > 0 {
        if a[0] == b[0] {
            if a.drop_first() == b.drop_first() {
                assert(a =~= seq![a[0]] + a.drop_first());
                assert(b =~= seq![b[0]] + b.drop_first());
            }
            lemma_seq_lt_total(a.drop_first(), b.drop_first());
        } else {
            assert((a[0] as int) != (b[0] as int));
        }
    } else if a.len() == 0 && b.len() == 0 {
        assert(a =~= b);
    }
}

proof fn lemma_seq_lt_skip(a: Seq<char>, b: Seq<char>, i: int)
    requires
        0 <= i < a.len(),
        i < b.len(),
        a[i] == b[i],
    ensures
        seq_lt(a.skip(i), b.skip(i)) == seq_lt(a.skip(i + 1), b.skip(i + 1)),
{
    assert(a.skip(i).drop_first() =~= a.skip(i + 1));
    assert(b.skip(i).drop_first() =~= b.skip(i + 1));
}

/// Whether `a` comes before `b` in the order of `str` (see `seq_lt`).
pub fn str_lt(a: &str, b: &str) -> (r: bool)
    ensures
        r == seq_lt(a@, b@),
{
    let av = to_chars(a);
    let bv = to_chars(b);
    assert(a@.skip(0) =~= a@);
    assert(b@.skip(0) =~= b@);
    let mut i: usize = 0;
    while i < av.len() && i < bv.len()
        invariant
            av@ == a@,
            bv@ == b@,
            i <= a@.len(),
            i <= b@.len(),
            seq_lt(a@, b@) == seq_lt(a@.skip(i as int), b@.skip(i as int)),
        decreases a@.len() - i,
    {
        if av[i] != bv[i] {
            assert(a@.skip(i as int)[0] == a@[i as int]);
            assert(b@.skip(i as int)[0] == b@[i as int]);
            let x: char = av[i];
            let y: char = bv[i];
            return x < y;
        }
        proof { lemma_seq_lt_skip(a@, b@, i as int); }
        i = i + 1;
    }
    i < bv.len()
}

proof fn lemma_find_from_skip(s: Seq<char>, needle: Seq<char>, pos: int, k: int)
    requires
        0 <= pos <= k,
        pos <= s.len(),
    ensures
        find_from(s, needle, k) == match find_from(s.skip(pos), needle, k - pos) {
            Some(j) => Some(j + pos),
            None => None::<int>,
        },
    decreases s.len() + 1 - k,
{
    let t = s.skip(pos);
    if k + needle.len() > s.len() {
    } else {
        if occurs_at(s, needle, k) {
            assert(t.subrange(k - pos, k - pos + needle.len()) =~= s.subrange(k, k + needle.len()));
        } else {
            assert(t.subrange(k - pos, k - pos + needle.len()) =~= s.subrange(k, k + needle.len()));
            lemma_find_from_skip(s, needle, pos, k + 1);
        }
    }
}

/// `s` with every occurrence of `from` (left to right, not overlapping)
/// replaced by `to`.
pub open spec fn spec_replace_all(s: Seq<char>, from: Seq<char>, to: Seq<char>) -> Seq<char>
    decreases s.len(),
{
    if from.len() == 0 {
        s
    } else {
        match find_first(s, from) {
            Some(i) => {
                proof { lemma_find_from(s, from, 0); }
                s.subrange(0, i) + to + spec_replace_all(s.skip(i + from.len()), from, to)
            },
            None => s,
        }
    }
}

/// The first position, from `start` on, at which `needle` occurs in `hay` (see `find_from`).
pub fn find_chars_from(hay: &Vec<char>, needle: &Vec<char>, start: usize) -> (r: Option<usize>)
    requires
        needle@.len() > 0,
        start <= hay@.len(),
    ensures
        r matches Some(i) ==> find_from(hay@, needle@, start as int) == Some(i as int),
        r is None ==> find_from(hay@, needle@, start as int) is None,
{
    let n = hay.len();
    let mut i: usize = start;
    while needle.len() <= n - i
        invariant
            n == hay@.len(),
            needle@.len() >= 1,
            start <= i <= n,
            find_from(hay@, needle@, start as int) == find_from(hay@, needle@, i as int),
        decreases n - i,
    {
        if occurs_at_exec(hay, needle, i) {
            return Some(i);
        }
        i = i + 1;
    }
    None
}

/// Replaces every occurrence of `from` in `s` by `to` (see `spec_replace_all`).
pub fn replace_all(s: &str, from: &str, to: &str) -> (r: String)
    requires
        from@.len() > 0,
    ensures
        r@ == spec_replace_all(s@, from@, to@),
{
    let cv = to_chars(s);
    let fv = to_chars(from);
    let n = cv.len();
    let m = fv.len();
    let mut out = String::new();
    let mut pos: usize = 0;
    assert(cv@.skip(0) =~= cv@);
    while pos <= n
        invariant
            cv@ == s@,
            fv@ == from@,
            n == cv@.len(),
            m == fv@.len(),
            m > 0,
            pos <= n,
            out@ + spec_replace_all(cv@.skip(pos as int), fv@, to@) == spec_replace_all(s@, from@, to@),
        decreases n - pos,
    {
        let ghost rest = cv@.skip(pos as int);
        proof { lemma_find_from_skip(cv@, fv@, pos as int, pos as int); }
        assert(find_first(rest, fv@) == find_from(rest, fv@, 0));
        match find_chars_from(&cv, &fv, pos) {
            Some(i) => {
                proof { lemma_find_from(cv@, fv@, pos as int); }
                let ghost ri = i - pos;
                assert(find_first(rest, fv@) == Some(ri));
                let mut k: usize = pos;
                let ghost out0 = out@;
                while k < i
                    invariant
                        pos <= k <= i,
                        i <= n,
                        n == cv@.len(),
                        out@ == out0 + cv@.subrange(pos as int, k as int),
                    decreases i - k,
                {
                    push_char(&mut out, cv[k]);
                    assert(out@ =~= out0 + cv@.subrange(pos as int, k + 1));
                    k = k + 1;
                }
                push_str(&mut out, to);
                assert(rest.subrange(0, ri) =~= cv@.subrange(pos as int, i as int));
                assert(rest.skip(ri + m) =~= cv@.skip(i + m));
                assert(out@ + spec_replace_all(cv@.skip(i + m), fv@, to@) =~= out0 + spec_replace_all(rest, fv@, to@));
                pos = i + m;
            },
            None => {
                let mut k: usize = pos;
                let ghost out0 = out@;
                while k < n
                    invariant
                        pos <= k <= n,
                        n == cv@.len(),
                        out@ == out0 + cv@.subrange(pos as int, k as int),
                    decreases n - k,
                {
                    push_char(&mut out, cv[k]);
                    assert(out@ =~= out0 + cv@.subrange(pos as int, k + 1));
                    k = k + 1;
                }
                assert(cv@.subrange(pos as int, n as int) =~= rest);
                return out;
            },
        }
    }
    out
}

/// Whether `c` has the Unicode `White_Space` property (what
/// `char::is_whitespace` answers): tab to carriage return, space, next
/// line, no-break space, ogham space mark, the spaces from en quad to hair
/// space, the line and paragraph separators, narrow no-break space, medium
/// mathematical space and ideographic space.
pub open spec fn is_white(c: char) -> bool {
    let u = c as u32;
    ||| 0x09 <= u <= 0x0D
    ||| u == 0x20
    ||| u == 0x85
    ||| u == 0xA0
    ||| u == 0x1680
    ||| 0x2000 <= u <= 0x200A
    ||| u == 0x2028
    ||| u == 0x2029
    ||| u == 0x202F
    ||| u == 0x205F
    ||| u == 0x3000
}

/// Whether `c` is white space (see `is_white`).
pub fn char_is_whitespace(c: char) -> (r: bool)
    ensures
        r == is_white(c),
{
    let u = c as u32;
    (0x09 <= u && u <= 0x0D) || u == 0x20 || u == 0x85 || u == 0xA0 || u == 0x1680 || (0x2000 <= u && u <= 0x200A)
        || u == 0x2028 || u == 0x2029 || u == 0x202F || u == 0x205F || u == 0x3000
}

/// The number of leading white-space characters of `s` from `i` on.
pub open spec fn lead_ws(s: Seq<char>, i: int) -> int
    decreases s.len() - i,
{
    if i < 0 || i >= s.len() || !is_white(s[i]) {
        i
    } else {
        lead_ws(s, i + 1)
    }
}

/// The position after the last character of `s`, before `j`, that is not white space.
pub open spec fn trail_ws(s: Seq<char>, lo: int, j: int) -> int
    decreases j - lo,
{
    if j <= lo || !is_white(s[j - 1]) {
        j
    } else {
        trail_ws(s, lo, j - 1)
    }
}

/// `s` without leading and trailing white space (`str::trim`).
pub open spec fn spec_trim(s: Seq<char>) -> Seq<char> {
    let a = lead_ws(s, 0);
    s.subrange(a, trail_ws(s, a, s.len() as int))
}

proof fn lemma_lead_ws(s: Seq<char>, i: int)
    requires
        0 <= i <= s.len(),
    ensures
        i <= lead_ws(s, i) <= s.len(),
    decreases s.len() - i,
{
    if i < s.len() && is_white(s[i]) {
        lemma_lead_ws(s, i + 1);
    }
}

proof fn lemma_trail_ws(s: Seq<char>, lo: int, j: int)
    requires
        lo <= j,
    ensures
        lo <= trail_ws(s, lo, j) <= j,
    decreases j - lo,
{
    if j > lo && is_white(s[j - 1]) {
        lemma_trail_ws(s, lo, j - 1);
    }
}

proof fn lemma_lead_ws_full(s: Seq<char>, i: int)
    requires
        0 <= i <= s.len(),
    ensures
        i <= lead_ws(s, i) <= s.len(),
        forall|k: int| i <= k < lead_ws(s, i) ==> is_white(s[k]),
        lead_ws(s, i) < s.len() ==> !is_white(s[lead_ws(s, i)]),
    decreases s.len() - i,
{
    if i < s.len() && is_white(s[i]) {
        lemma_lead_ws_full(s, i + 1);
    }
}

proof fn lemma_trail_ws_full(s: Seq<char>, lo: int, j: int)
    requires
        0 <= lo <= j <= s.len(),
    ensures
        lo <= trail_ws(s, lo, j) <= j,
        forall|k: int| trail_ws(s, lo, j) <= k < j ==> is_white(s[k]),
        trail_ws(s, lo, j) > lo ==> !is_white(s[trail_ws(s, lo, j) - 1]),
    decreases j - lo,
{
    if j > lo && is_white(s[j - 1]) {
        lemma_trail_ws_full(s, lo, j - 1);
    }
}

/// Trimming takes off exactly the white space at both ends: `s` is white
/// space, then the trimmed text, then white space, and the trimmed text,
/// when not empty, neither starts nor ends with white space.
pub proof fn law_trim_shape(s: Seq<char>)
    ensures
        exists|a: int, b: int|
            0 <= a <= b <= s.len() && spec_trim(s) == s.subrange(a, b) && (forall|k: int|
                0 <= k < a ==> is_white(#[trigger] s[k])) && (forall|k: int| b <= k < s.len() ==> is_white(
                #[trigger] s[k],
            )) && (a < b ==> !is_white(s[a]) && !is_white(s[b - 1])),
{
    let a = lead_ws(s, 0);
    lemma_lead_ws_full(s, 0);
    let b = trail_ws(s, a, s.len() as int);
    lemma_trail_ws_full(s, a, s.len() as int);
    if a < b {
        assert(a < s.len());
    } else {
        assert forall|k: int| b <= k < s.len() implies is_white(#[trigger] s[k]) by {}
    }
    assert(0 <= a <= b <= s.len() && spec_trim(s) == s.subrange(a, b));
}

proof fn lemma_trim_at(s: Seq<char>, a: int, b: int)
    requires
        0 <= a < b <= s.len(),
        forall|k: int| 0 <= k < a ==> is_white(#[trigger] s[k]),
        forall|k: int| b <= k < s.len() ==> is_white(#[trigger] s[k]),
        !is_white(s[a]),
        !is_white(s[b - 1]),
    ensures
        spec_trim(s) == s.subrange(a, b),
{
    lemma_lead_ws_full(s, 0);
    let l = lead_ws(s, 0);
    if l < a {
        assert(is_white(s[l]));
    }
    if l > a {
        assert(is_white(s[a]));
    }
    assert(l == a);
    lemma_trail_ws_full(s, a, s.len() as int);
    let t = trail_ws(s, a, s.len() as int);
    if t > b {
        assert(is_white(s[t - 1]));
    }
    if t < b {
        assert(is_white(s[b - 1]));
    }
}

proof fn lemma_trim_white(s: Seq<char>)
    requires
        forall|k: int| 0 <= k < s.len() ==> is_white(#[trigger] s[k]),
    ensures
        spec_trim(s).len() == 0,
{
    lemma_lead_ws_full(s, 0);
    let l = lead_ws(s, 0);
    if l < s.len() {
        assert(is_white(s[l]));
    }
    lemma_trail_ws_full(s, l, s.len() as int);
}

/// White space added at either end of a text does not change its trimmed form.
pub proof fn lemma_trim_padded(text: Seq<char>, before: Seq<char>, after: Seq<char>)
    requires
        forall|k: int| 0 <= k < before.len() ==> is_white(#[trigger] before[k]),
        forall|k: int| 0 <= k < after.len() ==> is_white(#[trigger] after[k]),
    ensures
        spec_trim(before + text + after) == spec_trim(text),
{
    law_trim_shape(text);
    let (a0, b0) = choose|a: int, b: int|
        0 <= a <= b <= text.len() && spec_trim(text) == text.subrange(a, b) && (forall|k: int|
            0 <= k < a ==> is_white(#[trigger] text[k])) && (forall|k: int| b <= k < text.len() ==> is_white(
            #[trigger] text[k],
        )) && (a < b ==> !is_white(text[a]) && !is_white(text[b - 1]));
    let s = before + text + after;
    let m = before.len() as int;
    if a0 < b0 {
        assert forall|k: int| 0 <= k < m + a0 implies is_white(#[trigger] s[k]) by {
            if k >= m {
                assert(s[k] == text[k - m]);
            }
        }
        assert forall|k: int| m + b0 <= k < s.len() implies is_white(#[trigger] s[k]) by {
            if k < m + text.len() {
                assert(s[k] == text[k - m]);
            } else {
                assert(s[k] == after[k - m - text.len()]);
            }
        }
        assert(s[m + a0] == text[a0]);
        assert(s[m + b0 - 1] == text[b0 - 1]);
        lemma_trim_at(s, m + a0, m + b0);
        assert(s.subrange(m + a0, m + b0) =~= text.subrange(a0, b0));
    } else {
        assert forall|k: int| 0 <= k < text.len() implies is_white(#[trigger] text[k]) by {
            if k >= a0 {
                assert(b0 <= k);
            }
        }
        assert forall|k: int| 0 <= k < s.len() implies is_white(#[trigger] s[k]) by {
            if k >= m && k < m + text.len() {
                assert(s[k] == text[k - m]);
            } else if k >= m + text.len() {
                assert(s[k] == after[k - m - text.len()]);
            }
        }
        lemma_trim_white(s);
        lemma_trim_white(text);
        assert(spec_trim(s) =~= spec_trim(text));
    }
}

/// `s` without leading and trailing white space (see `spec_trim`).
pub fn trim(s: &str) -> (r: String)
    ensures
        r@ == spec_trim(s@),
{
    let cv = to_chars(s);
    let n = cv.len();
    let mut a: usize = 0;
    while a < n && char_is_whitespace(cv[a])
        invariant
            n == cv@.len(),
            cv@ == s@,
            a <= n,
            lead_ws(s@, 0) == lead_ws(s@, a as int),
        decreases n - a,
    {
        a = a + 1;
    }
    let mut b: usize = n;
    while b > a && char_is_whitespace(cv[b - 1])
        invariant
            n == cv@.len(),
            cv@ == s@,
            a <= b <= n,
            lead_ws(s@, 0) == a,
            trail_ws(s@, a as int, n as int) == trail_ws(s@, a as int, b as int),
        decreases b - a,
    {
        b = b - 1;
    }
    s.substring_char(a, b).to_string()
}


// ─── Decimal text ──────────────────────────────────────────────────

/// The character of a decimal digit.
pub open spec fn digit_char(d: int) -> char {
    if d == 0 {
        '0'
    } else if d == 1 {
        '1'
    } else if d == 2 {
        '2'
    } else if d == 3 {
        '3'
    } else if d == 4 {
        '4'
    } else if d == 5 {
        '5'
    } else if d == 6 {
        '6'
    } else if d == 7 {
        '7'
    } else if d == 8 {
        '8'
    } else {
        '9'
    }
}

/// The decimal text of `n`, without leading zeros.
pub open spec fn decimal(n: nat) -> Seq<char>
    decreases n,
{
    if n < 10 {
        seq![digit_char(n as int)]
    } else {
        decimal(n / 10).push(digit_char((n % 10) as int))
    }
}

fn digit(d: u64) -> (c: char)
    requires
        d < 10,
    ensures
        c == digit_char(d as int),
{
    if d == 0 {
        '0'
    } else if d == 1 {
        '1'
    } else if d == 2 {
        '2'
    } else if d == 3 {
        '3'
    } else if d == 4 {
        '4'
    } else if d == 5 {
        '5'
    } else if d == 6 {
        '6'
    } else if d == 7 {
        '7'
    } else if d == 8 {
        '8'
    } else {
        '9'
    }
}

/// The decimal text of a number (see `decimal`).
pub fn decimal_string(n: u64) -> (r: String)
    ensures
        r@ == decimal(n as nat),
    decreases n,
{
    let mut s = if n < 10 {
        String::new()
    } else {
        decimal_string(n / 10)
    };
    push_char(&mut s, digit(n % 10));
    s
}

} // verus!
