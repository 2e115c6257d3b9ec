//! Text primitives over `Seq<char>`: whitespace per Unicode White_Space,
//! trimming, searching, splitting and decimal rendering, each with the
//! specification the rest of the crate states its contracts in.

use vstd::prelude::*;
use vstd::std_specs::iter::IteratorSpec;

verus! {

/// Appends one character to a `String`.
#[verifier::external_body]
pub(crate) fn push_char(s: &mut String, c: char)
    ensures
        final(s)@ == old(s)@.push(c),
{
    s.push(c);
}

/// Builds a `String` holding exactly the given characters.
pub fn string_from_chars(v: &[char]) -> (s: String)
    ensures
        s@ == v@,
{
    let mut s = String::new();
    let mut i: usize = 0;
    while i < v.len()
        invariant
            i <= v@.len(),
            s@ == v@.subrange(0, i as int),
        decreases v@.len() - i,
    {
        push_char(&mut s, v[i]);
        i = i + 1;
        assert(s@ =~= v@.subrange(0, i as int));
    }
    assert(s@ =~= v@);
    s
}

/// The characters of a string slice, in order.
pub fn chars_of(s: &str) -> (v: Vec<char>)
    ensures
        v@ == s@,
{
    broadcast use vstd::string::group_string_axioms;
    let mut v: Vec<char> = Vec::new();
    let mut chars = s.chars();
    loop
        invariant
            chars.obeys_prophetic_iter_laws(),
            v@ + chars.remaining() == s@,
            chars.decrease() is Some,
        ensures
            v@ == s@,
        decreases chars.decrease()->0,
    {
        match chars.next() {
            Some(c) => {
                v.push(c);
            },
            None => {
                assert(v@ =~= s@);
                break;
            },
        }
    }
    v
}


/// Unicode White_Space, the set `str::trim` and `str::split_whitespace`
/// strip and split on.
pub open spec fn is_ws(c: char) -> bool {
    let u = c as u32;
    ||| 0x09 <= u <= 0x0d
    ||| u == 0x20
    ||| u == 0x85
    ||| u == 0xa0
    ||| u == 0x1680
    ||| 0x2000 <= u <= 0x200a
    ||| u == 0x2028
    ||| u == 0x2029
    ||| u == 0x202f
    ||| u == 0x205f
    ||| u == 0x3000
}

/// Whether `c` is Unicode White_Space.
pub fn is_whitespace(c: char) -> (b: bool)
    ensures
        b == is_ws(c),
{
    let u = c as u32;
    (0x09 <= u && u <= 0x0d) || u == 0x20 || u == 0x85 || u == 0xa0 || u == 0x1680 || (0x2000
        <= u && u <= 0x200a) || u == 0x2028 || u == 0x2029 || u == 0x202f || u == 0x205f || u
        == 0x3000
}

/// `s` without its leading whitespace.
pub open spec fn trim_start(s: Seq<char>) -> Seq<char>
    decreases s.len(),
{
    if s.len() > 0 && is_ws(s[0]) {
        trim_start(s.drop_first())
    } else {
        s
    }
}

/// `s` without its trailing whitespace.
pub open spec fn trim_end(s: Seq<char>) -> Seq<char>
    decreases s.len(),
{
    if s.len() > 0 && is_ws(s.last()) {
        trim_end(s.drop_last())
    } else {
        s
    }
}

/// `s` without leading and trailing whitespace, as `str::trim` gives it.
pub open spec fn trim(s: Seq<char>) -> Seq<char> {
    trim_end(trim_start(s))
}

/// The bounds of `trim(v)` inside `v`.
pub fn trim_bounds(v: &[char]) -> (r: (usize, usize))
    ensures
        r.0 <= r.1 <= v@.len(),
        v@.subrange(r.0 as int, r.1 as int) == trim(v@),
{
    let n = v.len();
    let mut i: usize = 0;
    assert(v@.subrange(0, n as int) =~= v@);
    while i < n && is_whitespace(v[i])
        invariant
            i <= n == v@.len(),
            trim_start(v@) == trim_start(v@.subrange(i as int, n as int)),
        decreases n - i,
    {
        assert(v@.subrange(i as int, n as int).drop_first() =~= v@.subrange(i + 1, n as int));
        i = i + 1;
    }
    assert(trim_start(v@) == v@.subrange(i as int, n as int));
    let mut j: usize = n;
    while j > i && is_whitespace(v[j - 1])
        invariant
            i <= j <= n == v@.len(),
            trim(v@) == trim_end(v@.subrange(i as int, j as int)),
        decreases j,
    {
        assert(v@.subrange(i as int, j as int).drop_last() =~= v@.subrange(i as int, j - 1));
        j = j - 1;
    }
    (i, j)
}

/// The characters of `v` trimmed.
pub fn trimmed(v: &[char]) -> (r: Vec<char>)
    ensures
        r@ == trim(v@),
{
    let (a, b) = trim_bounds(v);
    slice_of(v, a, b)
}

/// A copy of `v[a..b]`.
pub fn slice_of(v: &[char], a: usize, b: usize) -> (r: Vec<char>)
    requires
        a <= b <= v@.len(),
    ensures
        r@ == v@.subrange(a as int, b as int),
{
    let mut r: Vec<char> = Vec::new();
    let mut k: usize = a;
    while k < b
        invariant
            a <= k <= b <= v@.len(),
            r@ == v@.subrange(a as int, k as int),
        decreases b - k,
    {
        r.push(v[k]);
        k = k + 1;
        assert(r@ =~= v@.subrange(a as int, k as int));
    }
    r
}

/// Whether `p` occurs in `s` at position `i`.
pub open spec fn occurs_at(s: Seq<char>, p: Seq<char>, i: int) -> bool {
    0 <= i && i + p.len() <= s.len() && s.subrange(i, i + p.len()) == p
}

/// Whether `p` occurs anywhere in `s`, as `str::contains` decides it.
pub open spec fn contains(s: Seq<char>, p: Seq<char>) -> bool {
    exists|i: int| occurs_at(s, p, i)
}

/// Whether `s` ends with `p`.
pub open spec fn ends_with(s: Seq<char>, p: Seq<char>) -> bool {
    p.len() <= s.len() && s.subrange(s.len() - p.len(), s.len() as int) == p
}

/// Whether `s` starts with `p`.
pub open spec fn starts_with(s: Seq<char>, p: Seq<char>) -> bool {
    p.len() <= s.len() && s.subrange(0, p.len() as int) == p
}

/// Whether `v[i..i + p.len()]` equals `p`.
pub fn matches_at(v: &[char], p: &[char], i: usize) -> (b: bool)
    requires
        i <= v@.len(),
    ensures
        b == occurs_at(v@, p@, i as int),
{
    let n = v.len();
    if p.len() > n - i {
        return false;
    }
    let mut k: usize = 0;
    while k < p.len()
        invariant
            i + p@.len() <= n == v@.len(),
            k <= p@.len(),
            forall|m: int| 0 <= m < k ==> v@[i + m] == p@[m],
        decreases p@.len() - k,
    {
        if v[i + k] != p[k] {
            assert(v@.subrange(i as int, i + p@.len())[k as int] != p@[k as int]);
            return false;
        }
        k = k + 1;
    }
    assert(v@.subrange(i as int, i + p@.len()) =~= p@);
    true
}

/// Whether `p` occurs in `v`.
pub fn contains_chars(v: &[char], p: &[char]) -> (b: bool)
    ensures
        b == contains(v@, p@),
{
    if p.len() == 0 {
        assert(v@.subrange(0, 0) =~= p@);
        assert(occurs_at(v@, p@, 0));
        return true;
    }
    if p.len() > v.len() {
        assert forall|m: int| !occurs_at(v@, p@, m) by {}
        return false;
    }
    let n = v.len();
    let last = n - p.len();
    assert(last < n);
    let mut i: usize = 0;
    while i <= last
        invariant
            last + p@.len() == v@.len(),
            last < n,
            p@.len() > 0,
            i <= last + 1,
            forall|m: int| 0 <= m < i ==> !occurs_at(v@, p@, m),
        decreases last + 1 - i,
    {
        if matches_at(v, p, i) {
            return true;
        }
        i = i + 1;
    }
    assert forall|m: int| !occurs_at(v@, p@, m) by {
        if 0 <= m && m + p@.len() <= v@.len() {
            assert(m < i);
        }
    }
    false
}

/// Whether `v` ends with `p`.
pub fn ends_with_chars(v: &[char], p: &[char]) -> (b: bool)
    ensures
        b == ends_with(v@, p@),
{
    if p.len() > v.len() {
        return false;
    }
    matches_at(v, p, v.len() - p.len())
}

/// Whether `v` starts with `p`.
pub fn starts_with_chars(v: &[char], p: &[char]) -> (b: bool)
    ensures
        b == starts_with(v@, p@),
{
    if p.len() > v.len() {
        return false;
    }
    matches_at(v, p, 0)
}

/// Whether two character sequences are equal.
pub fn chars_equal(a: &[char], b: &[char]) -> (r: bool)
    ensures
        r == (a@ == b@),
{
    if a.len() != b.len() {
        return false;
    }
    let r = matches_at(a, b, 0);
    assert(r ==> a@.subrange(0, a@.len() as int) =~= a@);
    assert(a@ == b@ ==> a@.subrange(0, b@.len() as int) =~= a@);
    r
}


/// The ASCII digit for `d < 10`.
pub open spec fn digit(d: nat) -> char {
    (48 + d) as char
}

/// The decimal rendering of `n`, as integer `Display` writes it.
pub open spec fn decimal(n: nat) -> Seq<char>
    decreases n,
{
    if n < 10 {
        seq![digit(n)]
    } else {
        decimal(n / 10).push(digit(n % 10))
    }
}

/// Appends the decimal rendering of `n`.
pub fn push_decimal(s: &mut String, n: u64)
    ensures
        final(s)@ == old(s)@ + decimal(n as nat),
    decreases n,
{
    if n >= 10 {
        push_decimal(s, n / 10);
    }
    let d: u8 = (n % 10) as u8;
    push_char(s, (48u8 + d) as char);
    assert(decimal(n as nat) == if n < 10 {
        seq![digit(n as nat)]
    } else {
        decimal((n / 10) as nat).push(digit((n % 10) as nat))
    });
}

/// The decimal rendering of `n` as a new string.
pub fn decimal_string(n: u64) -> (s: String)
    ensures
        s@ == decimal(n as nat),
{
    let mut s = String::new();
    push_decimal(&mut s, n);
    assert(s@ =~= decimal(n as nat));
    s
}

/// The lowercase hexadecimal digit for `d < 16`.
pub open spec fn hex_digit(d: nat) -> char {
    if d < 10 {
        (48 + d) as char
    } else {
        (87 + d) as char
    }
}

/// A byte as two lowercase hexadecimal digits, as `{:02x}` writes it.
pub open spec fn hex_byte(b: u8) -> Seq<char> {
    seq![hex_digit((b / 16) as nat), hex_digit((b % 16) as nat)]
}

/// The bytes of `bs` in lowercase hexadecimal, two digits each.
pub open spec fn hex(bs: Seq<u8>) -> Seq<char>
    decreases bs.len(),
{
    if bs.len() == 0 {
        seq![]
    } else {
        hex(bs.drop_last()) + hex_byte(bs.last())
    }
}

/// Two hex digits per byte.
pub proof fn lemma_hex_len(bs: Seq<u8>)
    ensures
        hex(bs).len() == 2 * bs.len(),
    decreases bs.len(),
{
    if bs.len() > 0 {
        lemma_hex_len(bs.drop_last());
    }
}

fn hex_digit_char(d: u8) -> (c: char)
    requires
        d < 16,
    ensures
        c == hex_digit(d as nat),
{
    if d < 10 {
        (48u8 + d) as char
    } else {
        (87u8 + d) as char
    }
}

/// The lowercase hexadecimal rendering of `bs`.
pub fn hex_string(bs: &[u8]) -> (s: String)
    ensures
        s@ == hex(bs@),
{
    let mut s = String::new();
    let mut i: usize = 0;
    while i < bs.len()
        invariant
            i <= bs@.len(),
            s@ == hex(bs@.subrange(0, i as int)),
        decreases bs@.len() - i,
    {
        let b = bs[i];
        push_char(&mut s, hex_digit_char(b / 16));
        push_char(&mut s, hex_digit_char(b % 16));
        assert(bs@.subrange(0, i + 1).drop_last() =~= bs@.subrange(0, i as int));
        assert(s@ =~= hex(bs@.subrange(0, i + 1)));
        i = i + 1;
    }
    assert(bs@.subrange(0, bs@.len() as int) =~= bs@);
    s
}

/// Whether `c` is an ASCII decimal digit.
pub open spec fn is_digit(c: char) -> bool {
    48 <= c as u32 <= 57
}

/// The value of a run of decimal digits.
pub open spec fn digits_value(s: Seq<char>) -> nat
    decreases s.len(),
{
    if s.len() == 0 {
        0
    } else {
        digits_value(s.drop_last()) * 10 + (s.last() as u32 - 48) as nat
    }
}

/// Whether every character of `s` is an ASCII digit.
pub open spec fn all_digits(s: Seq<char>) -> bool {
    forall|i: int| 0 <= i < s.len() ==> is_digit(s[i])
}

/// `s` without one leading `+`.
pub open spec fn unsigned_part(s: Seq<char>) -> Seq<char> {
    if s.len() > 0 && s[0] == '+' {
        s.drop_first()
    } else {
        s
    }
}

/// The value `u64::from_str` gives `s`: an optional `+`, then at least
/// one ASCII digit and nothing else, the value fitting in 64 bits.
pub open spec fn parse_u64(s: Seq<char>) -> Option<u64> {
    let body = unsigned_part(s);
    if body.len() > 0 && all_digits(body) && digits_value(body) <= u64::MAX {
        Some(digits_value(body) as u64)
    } else {
        None
    }
}

proof fn lemma_digits_value_prefix(s: Seq<char>, k: int)
    requires
        0 <= k <= s.len(),
        all_digits(s),
    ensures
        digits_value(s.subrange(0, k)) <= digits_value(s),
    decreases s.len() - k,
{
    if k < s.len() {
        lemma_digits_value_prefix(s, k + 1);
        assert(s.subrange(0, k + 1).drop_last() =~= s.subrange(0, k));
    } else {
        assert(s.subrange(0, k) =~= s);
    }
}

/// Parses `v` as `u64::from_str` does.
pub fn parse_u64_chars(v: &[char]) -> (r: Option<u64>)
    ensures
        r == parse_u64(v@),
{
    let n = v.len();
    let start: usize = if n > 0 && v[0] == '+' {
        1
    } else {
        0
    };
    let ghost body = unsigned_part(v@);
    assert(body =~= v@.subrange(start as int, n as int));
    if start == n {
        return None;
    }
    let mut i: usize = start;
    let mut value: u64 = 0;
    while i < n
        invariant
            start <= i <= n == v@.len(),
            body == v@.subrange(start as int, n as int),
            body == unsigned_part(v@),
            forall|m: int| start <= m < i ==> is_digit(v@[m]),
            value as nat == digits_value(v@.subrange(start as int, i as int)),
        decreases n - i,
    {
        let c = v[i];
        let u = c as u32;
        if u < 48 || u > 57 {
            assert(body[i - start] == c);
            return None;
        }
        let d = (u - 48) as u64;
        assert(v@.subrange(start as int, i + 1).drop_last() =~= v@.subrange(start as int, i as int));
        if value > (u64::MAX - d) / 10 {
            proof {
                let k = (i + 1 - start) as int;
                assert(v@.subrange(start as int, i + 1) =~= body.subrange(0, k));
                assert(digits_value(body.subrange(0, k)) == value * 10 + d);
                assert(value * 10 + d > u64::MAX) by (nonlinear_arith)
                    requires value > (u64::MAX - d) / 10, d <= 9;
                if all_digits(body) {
                    lemma_digits_value_prefix(body, k);
                }
            }
            return None;
        }
        assert(value * 10 + d <= u64::MAX) by (nonlinear_arith)
            requires value <= (u64::MAX - d) / 10, d <= 9;
        value = value * 10 + d;
        i = i + 1;
    }
    Some(value)
}


/// The number of leading characters of `s` that are not whitespace.
pub open spec fn word_len(s: Seq<char>) -> nat
    decreases s.len(),
{
    if s.len() == 0 || is_ws(s[0]) {
        0
    } else {
        1 + word_len(s.drop_first())
    }
}

/// A word is no longer than the text it starts, and not empty when the
/// text starts with a non-space.
pub proof fn lemma_word_len_bound(s: Seq<char>)
    ensures
        word_len(s) <= s.len(),
        s.len() > 0 && !is_ws(s[0]) ==> word_len(s) > 0,
    decreases s.len(),
{
    if s.len() > 0 && !is_ws(s[0]) {
        lemma_word_len_bound(s.drop_first());
    }
}

/// The whitespace-separated words of `s`, as `str::split_whitespace`
/// yields them.
pub open spec fn words(s: Seq<char>) -> Seq<Seq<char>>
    decreases s.len(),
{
    if s.len() == 0 {
        seq![]
    } else if is_ws(s[0]) {
        words(s.drop_first())
    } else {
        let k = word_len(s);
        proof {
            lemma_word_len_bound(s);
        }
        seq![s.subrange(0, k as int)] + words(s.subrange(k as int, s.len() as int))
    }
}

proof fn lemma_word_len_exact(s: Seq<char>, k: int)
    requires
        0 <= k <= s.len(),
        forall|m: int| 0 <= m < k ==> !is_ws(s[m]),
        k == s.len() || is_ws(s[k]),
    ensures
        word_len(s) == k,
    decreases k,
{
    if k > 0 {
        lemma_word_len_exact(s.drop_first(), k - 1);
    }
}

/// The characters a word spans are not whitespace.
proof fn lemma_word_chars(s: Seq<char>)
    ensures
        forall|m: int| 0 <= m < word_len(s) ==> !is_ws(#[trigger] s[m]),
    decreases s.len(),
{
    if s.len() > 0 && !is_ws(s[0]) {
        lemma_word_chars(s.drop_first());
        lemma_word_len_bound(s);
        assert forall|m: int| 0 <= m < word_len(s) implies !is_ws(#[trigger] s[m]) by {
            if m > 0 {
                assert(s[m] == s.drop_first()[m - 1]);
            }
        }
    }
}

/// Every word of `s` is a non-empty run of non-whitespace characters that
/// occurs in `s`.
pub proof fn lemma_words_in_text(s: Seq<char>)
    ensures
        forall|i: int|
            0 <= i < words(s).len() ==> {
                let w = #[trigger] words(s)[i];
                &&& w.len() > 0
                &&& forall|j: int| 0 <= j < w.len() ==> !is_ws(w[j])
                &&& contains(s, w)
            },
    decreases s.len(),
{
    if s.len() == 0 {
    } else if is_ws(s[0]) {
        let t = s.drop_first();
        lemma_words_in_text(t);
        assert forall|i: int| 0 <= i < words(s).len() implies {
            let w = #[trigger] words(s)[i];
            &&& w.len() > 0
            &&& forall|j: int| 0 <= j < w.len() ==> !is_ws(w[j])
            &&& contains(s, w)
        } by {
            let w = words(s)[i];
            assert(w == words(t)[i]);
            assert(contains(t, w));
            let p = choose|p: int| occurs_at(t, w, p);
            assert(s.subrange(p + 1, p + 1 + w.len()) =~= t.subrange(p, p + w.len()));
            assert(occurs_at(s, w, p + 1));
        }
    } else {
        let k = word_len(s) as int;
        lemma_word_len_bound(s);
        lemma_word_chars(s);
        let t = s.subrange(k, s.len() as int);
        lemma_words_in_text(t);
        assert forall|i: int| 0 <= i < words(s).len() implies {
            let w = #[trigger] words(s)[i];
            &&& w.len() > 0
            &&& forall|j: int| 0 <= j < w.len() ==> !is_ws(w[j])
            &&& contains(s, w)
        } by {
            let w = words(s)[i];
            if i == 0 {
                assert(w == s.subrange(0, k));
                assert forall|j: int| 0 <= j < w.len() implies !is_ws(w[j]) by {
                    assert(w[j] == s[j]);
                }
                assert(occurs_at(s, w, 0));
            } else {
                assert(w == words(t)[i - 1]);
                assert(contains(t, w));
                let p = choose|p: int| occurs_at(t, w, p);
                assert(s.subrange(p + k, p + k + w.len()) =~= t.subrange(p, p + w.len()));
                assert(occurs_at(s, w, p + k));
            }
        }
    }
}

/// The run before `c` ends at the first `c`.
pub proof fn lemma_run_len_at(s: Seq<char>, c: char, k: int)
    requires
        0 <= k < s.len(),
        s[k] == c,
        forall|m: int| 0 <= m < k ==> s[m] != c,
    ensures
        run_len(s, c) == k,
{
    lemma_run_len_bound(s, c);
    let r = run_len(s, c) as int;
    if r < k {
        assert(s[r] != c);
    } else if r > k {
        assert(s[k] != c);
    }
}

/// The words of `v` as `str::split_whitespace` yields them.
pub fn split_words(v: &[char]) -> (r: Vec<Vec<char>>)
    ensures
        r@.map_values(|w: Vec<char>| w@) == words(v@),
{
    let n = v.len();
    let mut r: Vec<Vec<char>> = Vec::new();
    let mut i: usize = 0;
    assert(v@.subrange(0, n as int) =~= v@);
    while i < n
        invariant
            i <= n == v@.len(),
            r@.map_values(|w: Vec<char>| w@) + words(v@.subrange(i as int, n as int)) == words(v@),
        decreases n - i,
    {
        let ghost rest = v@.subrange(i as int, n as int);
        if is_whitespace(v[i]) {
            assert(rest.drop_first() =~= v@.subrange(i + 1, n as int));
            i = i + 1;
        } else {
            let mut j: usize = i + 1;
            while j < n && !is_whitespace(v[j])
                invariant
                    i < j <= n == v@.len(),
                    forall|m: int| i <= m < j ==> !is_ws(v@[m]),
                decreases n - j,
            {
                j = j + 1;
            }
            proof {
                lemma_word_len_exact(rest, j - i);
                assert(rest.subrange(0, j - i) =~= v@.subrange(i as int, j as int));
                assert(rest.subrange(j - i, rest.len() as int) =~= v@.subrange(j as int, n as int));
            }
            let w = slice_of(v, i, j);
            let ghost before = r@.map_values(|w: Vec<char>| w@);
            r.push(w);
            assert(r@.map_values(|w: Vec<char>| w@) =~= before.push(v@.subrange(i as int, j as int)));
            assert(before + words(rest) =~= before.push(v@.subrange(i as int, j as int)) + words(
                v@.subrange(j as int, n as int),
            ));
            i = j;
        }
    }
    assert(v@.subrange(n as int, n as int) =~= Seq::<char>::empty());
    assert(r@.map_values(|w: Vec<char>| w@) =~= r@.map_values(|w: Vec<char>| w@) + words(
        Seq::<char>::empty(),
    ));
    r
}

/// The number of leading characters of `s` other than `c`.
pub open spec fn run_len(s: Seq<char>, c: char) -> nat
    decreases s.len(),
{
    if s.len() == 0 || s[0] == c {
        0
    } else {
        1 + run_len(s.drop_first(), c)
    }
}

/// The run before the first `c` stays inside `s` and ends at a `c`.
pub proof fn lemma_run_len_bound(s: Seq<char>, c: char)
    ensures
        run_len(s, c) <= s.len(),
        run_len(s, c) < s.len() ==> s[run_len(s, c) as int] == c,
        forall|m: int| 0 <= m < run_len(s, c) ==> s[m] != c,
    decreases s.len(),
{
    if s.len() > 0 && s[0] != c {
        lemma_run_len_bound(s.drop_first(), c);
        assert forall|m: int| 0 <= m < run_len(s, c) implies s[m] != c by {
            if m > 0 {
                assert(s[m] == s.drop_first()[m - 1]);
            }
        }
    }
}

/// The pieces of `s` between occurrences of `c`; one more piece than there
/// are occurrences.
pub open spec fn pieces(s: Seq<char>, c: char) -> Seq<Seq<char>>
    decreases s.len(),
{
    let k = run_len(s, c);
    proof {
        lemma_run_len_bound(s, c);
    }
    if k == s.len() {
        seq![s]
    } else {
        seq![s.subrange(0, k as int)] + pieces(s.subrange(k + 1 as int, s.len() as int), c)
    }
}

/// The pieces of `v` between occurrences of `c`.
pub fn split_at_char(v: &[char], c: char) -> (r: Vec<Vec<char>>)
    ensures
        r@.map_values(|w: Vec<char>| w@) == pieces(v@, c),
        r@.len() >= 1,
{
    let n = v.len();
    let mut r: Vec<Vec<char>> = Vec::new();
    let mut i: usize = 0;
    assert(v@.subrange(0, n as int) =~= v@);
    loop
        invariant_except_break
            i <= n == v@.len(),
            r@.map_values(|w: Vec<char>| w@) + pieces(v@.subrange(i as int, n as int), c) == pieces(v@, c),
        ensures
            r@.map_values(|w: Vec<char>| w@) == pieces(v@, c),
            r@.len() >= 1,
        decreases n - i,
    {
        let ghost rest = v@.subrange(i as int, n as int);
        let mut j: usize = i;
        while j < n && v[j] != c
            invariant
                i <= j <= n == v@.len(),
                forall|m: int| i <= m < j ==> v@[m] != c,
            decreases n - j,
        {
            j = j + 1;
        }
        proof {
            lemma_run_len_bound(rest, c);
            let k = run_len(rest, c) as int;
            if k < j - i {
                assert(rest[k] == v@[i + k]);
            }
            if k > j - i {
                assert(rest[j - i] == v@[j as int]);
            }
            assert(k == j - i);
            assert(rest.subrange(0, j - i) =~= v@.subrange(i as int, j as int));
        }
        let w = slice_of(v, i, j);
        let ghost before = r@.map_values(|w: Vec<char>| w@);
        r.push(w);
        assert(r@.map_values(|w: Vec<char>| w@) =~= before.push(v@.subrange(i as int, j as int)));
        if j == n {
            assert(rest =~= v@.subrange(i as int, j as int));
            assert(pieces(rest, c) =~= seq![rest]);
            assert(before + pieces(rest, c) =~= before.push(rest));
            break;
        }
        proof {
            assert(rest.subrange(j - i + 1, rest.len() as int) =~= v@.subrange(j + 1, n as int));
            assert(before + pieces(rest, c) =~= before.push(v@.subrange(i as int, j as int))
                + pieces(v@.subrange(j + 1, n as int), c));
        }
        i = j + 1;
    }
    r
}


/// Unicode full lowercase mapping of `s`, as `str::to_lowercase` computes it.
pub uninterp spec fn lowercase(s: Seq<char>) -> Seq<char>;

/// `str::to_lowercase`: the Unicode lowercase of `s`. The mapping is left
/// named; no clause states its tables.
#[verifier::external_body]
pub(crate) fn to_lowercase(s: &str) -> (r: String)
    ensures
        r@ == lowercase(s@),
{
    s.to_lowercase()
}

/// The text `String::from_utf8_lossy` makes of `b`.
pub uninterp spec fn utf8_lossy(b: Seq<u8>) -> Seq<char>;

/// `String::from_utf8_lossy`: valid UTF-8 decodes as itself; the text made
/// of invalid input (U+FFFD for each maximal invalid sequence) is left named.
#[verifier::external_body]
pub(crate) fn from_utf8_lossy(b: &[u8]) -> (r: String)
    ensures
        r@ == utf8_lossy(b@),
        vstd::utf8::valid_utf8(b@) ==> r@ == vstd::utf8::decode_utf8(b@),
{
    String::from_utf8_lossy(b).into_owned()
}

/// Whether `s` is one dotted-quad octet as `Ipv4Addr::from_str` reads it:
/// one to three ASCII digits, no leading zero unless the octet is `0`, and
/// a value of at most 255.
pub open spec fn is_octet(s: Seq<char>) -> bool {
    &&& 1 <= s.len() <= 3
    &&& all_digits(s)
    &&& (s.len() > 1 ==> s[0] != '0')
    &&& digits_value(s) <= 255
}

/// Whether `Ipv4Addr::from_str` accepts `s`: four octets joined by dots.
pub open spec fn is_ipv4(s: Seq<char>) -> bool {
    let parts = pieces(s, '.');
    parts.len() == 4 && forall|i: int| 0 <= i < 4 ==> #[trigger] is_octet(parts[i])
}

fn octet_ok(v: &[char]) -> (b: bool)
    ensures
        b == is_octet(v@),
{
    if v.len() < 1 || v.len() > 3 {
        return false;
    }
    if v.len() > 1 && v[0] == '0' {
        return false;
    }
    match parse_u64_chars(v) {
        Some(n) => {
            proof {
                if v@[0] == '+' {
                    assert(!is_digit(v@[0]));
                }
                assert(unsigned_part(v@) == v@ || v@[0] == '+');
            }
            if v[0] == '+' {
                return false;
            }
            n <= 255
        },
        None => {
            proof {
                if v@[0] != '+' {
                    assert(unsigned_part(v@) == v@);
                }
            }
            false
        },
    }
}

/// Whether `v` parses as an IPv4 address.
pub fn parses_as_ipv4(v: &[char]) -> (b: bool)
    ensures
        b == is_ipv4(v@),
{
    let parts = split_at_char(v, '.');
    let ghost views = parts@.map_values(|w: Vec<char>| w@);
    if parts.len() != 4 {
        return false;
    }
    let mut i: usize = 0;
    while i < 4
        invariant
            parts@.len() == 4,
            views == parts@.map_values(|w: Vec<char>| w@),
            views == pieces(v@, '.'),
            i <= 4,
            forall|m: int| 0 <= m < i ==> #[trigger] is_octet(views[m]),
        decreases 4 - i,
    {
        if !octet_ok(parts[i].as_slice()) {
            assert(views[i as int] == parts@[i as int]@);
            return false;
        }
        assert(views[i as int] == parts@[i as int]@);
        i = i + 1;
    }
    true
}

/// A `String` holding `s`.
pub fn owned(s: &str) -> (r: String)
    ensures
        r@ == s@,
{
    String::from_str(s)
}

/// `a` followed by `b`.
pub fn concat(a: &str, b: &str) -> (r: String)
    ensures
        r@ == a@ + b@,
{
    let mut r = String::from_str(a);
    r.append(b);
    r
}

/// `ws` joined with `sep` between consecutive elements, as `[T]::join` does.
pub open spec fn join_with(ws: Seq<Seq<char>>, sep: Seq<char>) -> Seq<char>
    decreases ws.len(),
{
    if ws.len() == 0 {
        seq![]
    } else if ws.len() == 1 {
        ws[0]
    } else {
        join_with(ws.drop_last(), sep) + sep + ws.last()
    }
}

/// Joins `ws` with `sep`.
pub fn join_strings(ws: &Vec<String>, sep: &str) -> (r: String)
    ensures
        r@ == join_with(ws.deep_view(), sep@),
{
    let mut r = String::new();
    let mut i: usize = 0;
    while i < ws.len()
        invariant
            i <= ws@.len(),
            r@ == join_with(ws.deep_view().take(i as int), sep@),
        decreases ws@.len() - i,
    {
        if i != 0 {
            r.append(sep);
        }
        r.append(ws[i].as_str());
        assert(ws.deep_view().take(i + 1).drop_last() =~= ws.deep_view().take(i as int));
        proof {
            if i == 0 {
                assert(r@ =~= join_with(ws.deep_view().take(1), sep@));
            }
        }
        i = i + 1;
    }
    assert(ws.deep_view().take(ws@.len() as int) =~= ws.deep_view());
    r
}


/// Whether `c` is a lowercase hexadecimal digit.
pub open spec fn is_hex_char(c: char) -> bool {
    (48 <= c as u32 <= 57) || (97 <= c as u32 <= 102)
}

/// Hex text holds only lowercase hex digits.
pub proof fn lemma_hex_chars(bs: Seq<u8>)
    ensures
        forall|i: int| 0 <= i < hex(bs).len() ==> is_hex_char(#[trigger] hex(bs)[i]),
    decreases bs.len(),
{
    if bs.len() > 0 {
        lemma_hex_chars(bs.drop_last());
        let b = bs.last();
        assert(b / 16 < 16 && b % 16 < 16);
        let h = hex_byte(b);
        assert(is_hex_char(h[0]) && is_hex_char(h[1]));
        assert forall|i: int| 0 <= i < hex(bs).len() implies is_hex_char(#[trigger] hex(bs)[i]) by {
            let front = hex(bs.drop_last());
            if i < front.len() {
                assert(hex(bs)[i] == front[i]);
            } else {
                assert(hex(bs)[i] == h[i - front.len()]);
            }
        }
    }
}

/// Without a `c`, the run is the whole text.
pub proof fn lemma_run_len_absent(s: Seq<char>, c: char)
    requires
        forall|i: int| 0 <= i < s.len() ==> s[i] != c,
    ensures
        run_len(s, c) == s.len(),
    decreases s.len(),
{
    if s.len() > 0 {
        lemma_run_len_absent(s.drop_first(), c);
    }
}

/// The last piece of `s + [c] + g` at `c` is `g` when `g` holds no `c`.
pub proof fn lemma_pieces_last(s: Seq<char>, c: char, g: Seq<char>)
    requires
        forall|i: int| 0 <= i < g.len() ==> g[i] != c,
    ensures
        pieces(s + seq![c] + g, c).last() == g,
        pieces(s + seq![c] + g, c).len() > 0,
    decreases s.len(),
{
    let t = s + seq![c] + g;
    lemma_run_len_bound(t, c);
    let k = run_len(t, c) as int;
    assert(t[s.len() as int] == c);
    assert(k <= s.len());
    let rest = t.subrange(k + 1, t.len() as int);
    if k == s.len() {
        assert(rest =~= g);
        lemma_run_len_absent(g, c);
        assert(pieces(g, c) =~= seq![g]);
    } else {
        let s2 = s.subrange(k + 1, s.len() as int);
        assert(rest =~= s2 + seq![c] + g);
        lemma_pieces_last(s2, c, g);
    }
}

/// A sequence that neither starts nor ends with whitespace trims to itself.
pub proof fn lemma_trim_unchanged(s: Seq<char>)
    requires
        s.len() > 0 ==> !is_ws(s[0]) && !is_ws(s.last()),
    ensures
        trim(s) == s,
{
}


/// Splitting `s + [c] + t` at `c`, when `s` holds no `c`, gives `s` and
/// then the pieces of `t`.
pub proof fn lemma_pieces_cons(s: Seq<char>, c: char, t: Seq<char>)
    requires
        forall|i: int| 0 <= i < s.len() ==> s[i] != c,
    ensures
        pieces(s + seq![c] + t, c) == seq![s] + pieces(t, c),
{
    let u = s + seq![c] + t;
    lemma_run_len_bound(u, c);
    let k = run_len(u, c) as int;
    assert(u[s.len() as int] == c);
    if k < s.len() {
        assert(u[k] == s[k]);
    }
    assert(k == s.len());
    assert(u.subrange(0, k) =~= s);
    assert(u.subrange(k + 1, u.len() as int) =~= t);
}

/// Splitting always gives at least one piece.
pub proof fn lemma_pieces_nonempty(s: Seq<char>, c: char)
    ensures
        pieces(s, c).len() >= 1,
    decreases s.len(),
{
    lemma_run_len_bound(s, c);
    let k = run_len(s, c);
    if k < s.len() {
        lemma_pieces_nonempty(s.subrange(k + 1 as int, s.len() as int), c);
    }
}

/// The decimal rendering of `n` is all digits, starts with a digit, and
/// reads back as `n`.
pub proof fn lemma_decimal_digits(n: nat)
    ensures
        decimal(n).len() > 0,
        all_digits(decimal(n)),
        digits_value(decimal(n)) == n,
    decreases n,
{
    if n >= 10 {
        lemma_decimal_digits(n / 10);
        let d = decimal(n / 10);
        assert(decimal(n) == d.push(digit(n % 10)));
        assert(decimal(n).drop_last() =~= d);
        assert(digit(n % 10) as u32 == 48 + n % 10);
        assert(decimal(n).last() == digit(n % 10));
        assert(digits_value(decimal(n)) == digits_value(d) * 10 + n % 10);
        assert(n == (n / 10) * 10 + n % 10);
        assert forall|i: int| 0 <= i < decimal(n).len() implies is_digit(decimal(n)[i]) by {
            if i < d.len() {
                assert(decimal(n)[i] == d[i]);
            }
        }
    } else {
        assert(decimal(n).drop_last() =~= Seq::<char>::empty());
        assert(digit(n) as u32 == 48 + n);
        assert(decimal(n).last() == digit(n));
        assert(digits_value(decimal(n)) == digits_value(Seq::<char>::empty()) * 10 + n);
    }
}

/// `u64::from_str` reads the decimal rendering of `n` back as `n`.
pub proof fn lemma_parse_decimal(n: u64)
    ensures
        parse_u64(decimal(n as nat)) == Some(n),
{
    lemma_decimal_digits(n as nat);
    let d = decimal(n as nat);
    assert(is_digit(d[0]));
    assert(unsigned_part(d) == d);
}

} // verus!
