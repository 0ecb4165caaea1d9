//! Character-level text helpers shared by the protocol modules.
use vstd::prelude::*;

verus! {

/// The ASCII digit character for `d`, which must be below ten.
pub open spec fn digit_char(d: nat) -> char {
    if d == 0 { '0' }
    else if d == 1 { '1' }
    else if d == 2 { '2' }
    else if d == 3 { '3' }
    else if d == 4 { '4' }
    else if d == 5 { '5' }
    else if d == 6 { '6' }
    else if d == 7 { '7' }
    else if d == 8 { '8' }
    else { '9' }
}

/// The shortest decimal representation of `n` (no sign, no leading zeros).
pub open spec fn decimal(n: nat) -> Seq<char>
    decreases n,
{
    if n < 10 {
        seq![digit_char(n)]
    } else {
        decimal(n / 10).push(digit_char(n % 10))
    }
}

fn digit_str(d: u64) -> (s: &'static str)
    requires
        d < 10,
    ensures
        s@ == seq![digit_char(d as nat)],
{
    proof {
        reveal_strlit("0");
        reveal_strlit("1");
        reveal_strlit("2");
        reveal_strlit("3");
        reveal_strlit("4");
        reveal_strlit("5");
        reveal_strlit("6");
        reveal_strlit("7");
        reveal_strlit("8");
        reveal_strlit("9");
    }
    if d == 0 { "0" }
    else if d == 1 { "1" }
    else if d == 2 { "2" }
    else if d == 3 { "3" }
    else if d == 4 { "4" }
    else if d == 5 { "5" }
    else if d == 6 { "6" }
    else if d == 7 { "7" }
    else if d == 8 { "8" }
    else { "9" }
}

/// Appends the decimal representation of `n` to `out`.
pub fn push_decimal(out: &mut String, n: u64)
    ensures
        final(out)@ == old(out)@ + decimal(n as nat),
    decreases n,
{
    if n >= 10 {
        push_decimal(out, n / 10);
    }
    let d = digit_str(n % 10);
    out.append(d);
    proof {
        assert(decimal(n as nat) == if n < 10 { seq![digit_char(n as nat)] } else {
            decimal((n / 10) as nat).push(digit_char((n % 10) as nat))
        });
    }
}

/// The characters of `s`, in order.
pub fn chars_of(s: &str) -> (v: Vec<char>)
    ensures
        v@ == s@,
{
    let mut v: Vec<char> = Vec::new();
    for c in it: s.chars()
        invariant
            v@ == it.seq().take(it.index() as int),
            it.seq() == s@,
    {
        v.push(c);
    }
    v
}

/// ASCII lower-casing of a single character; every other character is left as it is.
pub open spec fn ascii_lower(c: char) -> char {
    if 'A' <= c && c <= 'Z' {
        ((c as u32) + 32) as char
    } else {
        c
    }
}

/// Equality of two character sequences up to ASCII case.
pub open spec fn ascii_ci_eq(a: Seq<char>, b: Seq<char>) -> bool {
    &&& a.len() == b.len()
    &&& forall|i: int| 0 <= i < a.len() ==> #[trigger] ascii_lower(a[i]) == ascii_lower(b[i])
}

/// Executable form of `ascii_lower`.
pub fn to_ascii_lower(c: char) -> (r: char)
    ensures
        r == ascii_lower(c),
{
    if 'A' <= c && c <= 'Z' {
        let code: u32 = c as u32;
        let lowered: u8 = (code + 32) as u8;
        lowered as char
    } else {
        c
    }
}

/// Whether `s[from..to]` equals `lit` up to ASCII case.
pub fn range_eq_ignore_ascii_case(s: &[char], from: usize, to: usize, lit: &[char]) -> (r: bool)
    requires
        from <= to <= s@.len(),
    ensures
        r == ascii_ci_eq(s@.subrange(from as int, to as int), lit@),
{
    if to - from != lit.len() {
        return false;
    }
    let mut k: usize = 0;
    while k < lit.len()
        invariant
            from <= to <= s@.len(),
            to - from == lit@.len(),
            0 <= k <= lit@.len(),
            forall|j: int|
                0 <= j < k ==> #[trigger] ascii_lower(s@[from + j]) == ascii_lower(lit@[j]),
        decreases lit@.len() - k,
    {
        if to_ascii_lower(s[from + k]) != to_ascii_lower(lit[k]) {
            assert(s@.subrange(from as int, to as int)[k as int] == s@[from + k]);
            return false;
        }
        k = k + 1;
    }
    assert forall|j: int| 0 <= j < lit@.len() implies #[trigger] ascii_lower(
        s@.subrange(from as int, to as int)[j],
    ) == ascii_lower(lit@[j]) by {
        assert(s@.subrange(from as int, to as int)[j] == s@[from + j]);
    }
    true
}

/// The position of the first `c` at or after `i` in `s`, or `s.len()` when there is none.
pub open spec fn scan_for(s: Seq<char>, c: char, i: int) -> int
    decreases s.len() - i,
{
    if i < 0 || i >= s.len() {
        s.len() as int
    } else if s[i] == c {
        i
    } else {
        scan_for(s, c, i + 1)
    }
}

/// The position of the first `c` in `s`, or `s.len()` when `c` does not occur.
pub open spec fn first_index(s: Seq<char>, c: char) -> int {
    scan_for(s, c, 0)
}

/// `scan_for` lands inside the sequence or at its end, on a `c` or at the end, and skips no `c`.
pub proof fn lemma_scan_for(s: Seq<char>, c: char, i: int)
    requires
        0 <= i <= s.len(),
    ensures
        i <= scan_for(s, c, i) <= s.len(),
        scan_for(s, c, i) < s.len() ==> s[scan_for(s, c, i)] == c,
        forall|k: int| i <= k < scan_for(s, c, i) ==> s[k] != c,
    decreases s.len() - i,
{
    if i < s.len() && s[i] != c {
        lemma_scan_for(s, c, i + 1);
    }
}

/// The position of the first `c` in `s[from..to]`, counted from `from`; `to` when there is none.
pub fn find_char(s: &[char], c: char, from: usize, to: usize) -> (r: usize)
    requires
        from <= to <= s@.len(),
    ensures
        r == from + first_index(s@.subrange(from as int, to as int), c),
        from <= r <= to,
{
    let ghost sub = s@.subrange(from as int, to as int);
    let mut k: usize = from;
    while k < to
        invariant
            from <= k <= to <= s@.len(),
            sub == s@.subrange(from as int, to as int),
            scan_for(sub, c, k - from) == scan_for(sub, c, 0),
        decreases to - k,
    {
        assert(sub[k - from] == s@[k as int]);
        if s[k] == c {
            proof { lemma_scan_for(sub, c, 0); }
            return k;
        }
        k = k + 1;
    }
    proof { lemma_scan_for(sub, c, 0); }
    k
}

/// Unicode `White_Space` characters, the separators of whitespace-split text.
pub open spec fn is_white_space(c: char) -> bool {
    ||| '\u{9}' <= c && c <= '\u{d}'
    ||| c == ' '
    ||| c == '\u{85}'
    ||| c == '\u{a0}'
    ||| c == '\u{1680}'
    ||| '\u{2000}' <= c && c <= '\u{200a}'
    ||| c == '\u{2028}'
    ||| c == '\u{2029}'
    ||| c == '\u{202f}'
    ||| c == '\u{205f}'
    ||| c == '\u{3000}'
}

/// Executable form of `is_white_space`.
pub fn white_space(c: char) -> (r: bool)
    ensures
        r == is_white_space(c),
{
    ('\u{9}' <= c && c <= '\u{d}') || c == ' ' || c == '\u{85}' || c == '\u{a0}' || c == '\u{1680}'
        || ('\u{2000}' <= c && c <= '\u{200a}') || c == '\u{2028}' || c == '\u{2029}'
        || c == '\u{202f}' || c == '\u{205f}' || c == '\u{3000}'
}

/// The position of the first character at or after `i` whose whitespace-ness is `want`,
/// or `s.len()` when there is none.
pub open spec fn scan_ws(s: Seq<char>, i: int, want: bool) -> int
    decreases s.len() - i,
{
    if i < 0 || i >= s.len() {
        s.len() as int
    } else if is_white_space(s[i]) == want {
        i
    } else {
        scan_ws(s, i + 1, want)
    }
}

/// `scan_ws` lands inside the sequence or at its end, on a match or at the end, skipping none.
pub proof fn lemma_scan_ws(s: Seq<char>, i: int, want: bool)
    requires
        0 <= i <= s.len(),
    ensures
        i <= scan_ws(s, i, want) <= s.len(),
        scan_ws(s, i, want) < s.len() ==> is_white_space(s[scan_ws(s, i, want)]) == want,
        forall|k: int| i <= k < scan_ws(s, i, want) ==> is_white_space(s[k]) != want,
    decreases s.len() - i,
{
    if i < s.len() && is_white_space(s[i]) != want {
        lemma_scan_ws(s, i + 1, want);
    }
}

/// Scanning `s` from `i + k` is scanning its suffix from `i` at `k`, shifted by `i`.
pub proof fn lemma_scan_ws_shift(s: Seq<char>, i: int, k: int, want: bool)
    requires
        0 <= i <= s.len(),
        0 <= k <= s.len() - i,
    ensures
        scan_ws(s, i + k, want) == i + scan_ws(s.subrange(i, s.len() as int), k, want),
    decreases s.len() - i - k,
{
    let t = s.subrange(i, s.len() as int);
    if i + k < s.len() {
        assert(t[k] == s[i + k]);
        if is_white_space(s[i + k]) != want {
            lemma_scan_ws_shift(s, i, k + 1, want);
        }
    }
}

/// The `n`-th (from zero) maximal run of non-whitespace characters of `s`, if there is one.
pub open spec fn nth_token(s: Seq<char>, n: nat) -> Option<Seq<char>>
    decreases s.len(),
{
    let start = scan_ws(s, 0, false);
    let end = scan_ws(s, start, true);
    if start >= s.len() || start < 0 {
        None
    } else if n == 0 {
        Some(s.subrange(start, end))
    } else if start < end <= s.len() {
        nth_token(s.skip(end), (n - 1) as nat)
    } else {
        None
    }
}

/// The position of the first character of `s[from..to]` whose whitespace-ness is `want`,
/// counted from `from`; `to` when there is none.
pub fn find_ws(s: &[char], want: bool, from: usize, to: usize) -> (r: usize)
    requires
        from <= to <= s@.len(),
    ensures
        r == from + scan_ws(s@.subrange(from as int, to as int), 0, want),
        from <= r <= to,
{
    let ghost sub = s@.subrange(from as int, to as int);
    let mut k: usize = from;
    while k < to
        invariant
            from <= k <= to <= s@.len(),
            sub == s@.subrange(from as int, to as int),
            scan_ws(sub, k - from, want) == scan_ws(sub, 0, want),
        decreases to - k,
    {
        assert(sub[k - from] == s@[k as int]);
        if white_space(s[k]) == want {
            proof { lemma_scan_ws(sub, 0, want); }
            return k;
        }
        k = k + 1;
    }
    proof { lemma_scan_ws(sub, 0, want); }
    k
}

/// Decimal representations consist of ASCII digits.
pub proof fn lemma_decimal_ascii(n: nat)
    ensures
        vstd::utf8::is_ascii_chars(decimal(n)),
        forall|i: int| 0 <= i < decimal(n).len() ==> '0' <= #[trigger] decimal(n)[i] <= '9',
    decreases n,
{
    if n >= 10 {
        lemma_decimal_ascii(n / 10);
    }
}

/// A concatenation of ASCII sequences is ASCII.
pub proof fn lemma_ascii_concat(a: Seq<char>, b: Seq<char>)
    requires
        vstd::utf8::is_ascii_chars(a),
        vstd::utf8::is_ascii_chars(b),
    ensures
        vstd::utf8::is_ascii_chars(a + b),
{
    assert forall|i: int| 0 <= i < (a + b).len() implies '\0' <= #[trigger] (a + b)[i] <= '\u{7f}' by {
        if i < a.len() {
            assert((a + b)[i] == a[i]);
        } else {
            assert((a + b)[i] == b[i - a.len()]);
        }
    }
}

/// Whether the characters `s[from..to]` spell `lit` exactly.
pub fn range_is(s: &[char], from: usize, to: usize, lit: &str) -> (r: bool)
    requires
        from <= to <= s@.len(),
    ensures
        r == (s@.subrange(from as int, to as int) == lit@),
{
    let l = chars_of(lit);
    if to - from != l.len() {
        return false;
    }
    let mut k: usize = 0;
    while k < l.len()
        invariant
            from <= to <= s@.len(),
            to - from == l@.len(),
            l@ == lit@,
            0 <= k <= l@.len(),
            forall|j: int| 0 <= j < k ==> s@[from + j] == l@[j],
        decreases l@.len() - k,
    {
        if s[from + k] != l[k] {
            assert(s@.subrange(from as int, to as int)[k as int] != lit@[k as int]);
            return false;
        }
        k = k + 1;
    }
    assert(s@.subrange(from as int, to as int) =~= lit@);
    true
}

} // verus!
