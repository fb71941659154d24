//! Character-level helpers shared by the scanners: whitespace, leading runs,
//! line splitting and conversion between strings and character vectors.

use vstd::prelude::*;
use vstd::string::StringExecFns;

verus! {

/// The characters that `char::is_whitespace` accepts: the Unicode
/// `White_Space` property.
pub open spec fn is_ws(c: char) -> bool {
    ||| ('\u{9}' <= c && c <= '\u{d}')
    ||| c == ' '
    ||| c == '\u{85}'
    ||| c == '\u{a0}'
    ||| c == '\u{1680}'
    ||| ('\u{2000}' <= c && c <= '\u{200a}')
    ||| c == '\u{2028}'
    ||| c == '\u{2029}'
    ||| c == '\u{202f}'
    ||| c == '\u{205f}'
    ||| c == '\u{3000}'
}

/// Whether every character of `s` is whitespace (so `s.trim()` is empty).
pub open spec fn all_ws(s: Seq<char>) -> bool {
    forall|i: int| 0 <= i < s.len() ==> is_ws(#[trigger] s[i])
}

/// The length of the longest prefix of `s` whose characters all satisfy `p`.
pub open spec fn leading(s: Seq<char>, p: spec_fn(char) -> bool) -> nat
    decreases s.len(),
{
    if s.len() == 0 || !p(s[0]) {
        0
    } else {
        1 + leading(s.drop_first(), p)
    }
}

/// Number of leading whitespace characters.
pub open spec fn lead_ws(s: Seq<char>) -> nat {
    leading(s, |c: char| is_ws(c))
}

/// Number of leading non-whitespace characters.
pub open spec fn lead_word(s: Seq<char>) -> nat {
    leading(s, |c: char| !is_ws(c))
}

/// Number of leading copies of `x`.
pub open spec fn lead_eq(s: Seq<char>, x: char) -> nat
    decreases s.len(),
{
    if s.len() == 0 || s[0] != x {
        0
    } else {
        1 + lead_eq(s.drop_first(), x)
    }
}

/// Number of leading spaces and tabs.
pub open spec fn lead_blank(s: Seq<char>) -> nat {
    leading(s, |c: char| c == ' ' || c == '\t')
}

/// `str::trim_start`.
pub open spec fn trim_start(s: Seq<char>) -> Seq<char> {
    s.skip(lead_ws(s) as int)
}

/// ASCII lower-casing of one character (`char::to_ascii_lowercase`).
pub open spec fn ascii_lower(c: char) -> char {
    if 'A' <= c && c <= 'Z' {
        ((c as u32) + 32) as char
    } else {
        c
    }
}

/// `eq_ignore_ascii_case` between two character sequences.
pub open spec fn eq_ignore_ascii_case(a: Seq<char>, b: Seq<char>) -> bool {
    &&& a.len() == b.len()
    &&& forall|i: int| 0 <= i < a.len() ==> ascii_lower(#[trigger] a[i]) == ascii_lower(b[i])
}

/// The number of bytes that `c` takes in UTF-8 (`char::len_utf8`).
pub open spec fn utf8_len(c: char) -> nat {
    if (c as u32) < 0x80 {
        1
    } else if (c as u32) < 0x800 {
        2
    } else if (c as u32) < 0x10000 {
        3
    } else {
        4
    }
}

/// The number of bytes that `s` takes in UTF-8.
pub open spec fn utf8_size(s: Seq<char>) -> nat
    decreases s.len(),
{
    if s.len() == 0 {
        0
    } else {
        utf8_size(s.drop_last()) + utf8_len(s.last())
    }
}

/// Index of the first `'\n'` in `s`, or `s.len()` when there is none.
pub open spec fn newline_index(s: Seq<char>) -> nat
    decreases s.len(),
{
    if s.len() == 0 || s[0] == '\n' {
        0
    } else {
        1 + newline_index(s.drop_first())
    }
}

/// Removes one trailing `'\r'`.
pub open spec fn strip_cr(l: Seq<char>) -> Seq<char> {
    if l.len() > 0 && l.last() == '\r' {
        l.drop_last()
    } else {
        l
    }
}

/// `str::lines`: the text split at `"\n"` and `"\r\n"`; a final line ending
/// produces no empty last line, and a lone `'\r'` at the very end is kept.
pub open spec fn lines(s: Seq<char>) -> Seq<Seq<char>>
    decreases s.len(),
{
    if s.len() == 0 {
        seq![]
    } else {
        let i = newline_index(s);
        if i < s.len() {
            seq![strip_cr(s.take(i as int))] + lines(s.skip(i + 1 as int))
        } else {
            seq![s]
        }
    }
}

pub proof fn lemma_leading(s: Seq<char>, p: spec_fn(char) -> bool, i: int)
    requires
        0 <= i <= s.len(),
        forall|j: int| 0 <= j < i ==> p(#[trigger] s[j]),
        i == s.len() || !p(s[i]),
    ensures
        leading(s, p) == i,
    decreases i,
{
    if i > 0 {
        assert forall|j: int| 0 <= j < i - 1 implies p(#[trigger] s.drop_first()[j]) by {
            assert(s.drop_first()[j] == s[j + 1]);
        }
        if i < s.len() {
            assert(s.drop_first()[i - 1] == s[i]);
        }
        lemma_leading(s.drop_first(), p, i - 1);
    }
}

pub proof fn lemma_leading_bound(s: Seq<char>, p: spec_fn(char) -> bool)
    ensures
        leading(s, p) <= s.len(),
        forall|j: int| 0 <= j < leading(s, p) ==> p(#[trigger] s[j]),
        leading(s, p) < s.len() ==> !p(s[leading(s, p) as int]),
    decreases s.len(),
{
    if s.len() > 0 && p(s[0]) {
        lemma_leading_bound(s.drop_first(), p);
        assert forall|j: int| 0 <= j < leading(s, p) implies p(#[trigger] s[j]) by {
            if j > 0 {
                assert(s[j] == s.drop_first()[j - 1]);
            }
        }
        if leading(s, p) < s.len() {
            assert(s[leading(s, p) as int] == s.drop_first()[leading(s, p) - 1]);
        }
    }
}

pub proof fn lemma_lead_eq(s: Seq<char>, x: char, i: int)
    requires
        0 <= i <= s.len(),
        forall|j: int| 0 <= j < i ==> #[trigger] s[j] == x,
        i == s.len() || s[i] != x,
    ensures
        lead_eq(s, x) == i,
    decreases i,
{
    if i > 0 {
        assert forall|j: int| 0 <= j < i - 1 implies #[trigger] s.drop_first()[j] == x by {
            assert(s.drop_first()[j] == s[j + 1]);
        }
        if i < s.len() {
            assert(s.drop_first()[i - 1] == s[i]);
        }
        lemma_lead_eq(s.drop_first(), x, i - 1);
    }
}

pub proof fn lemma_newline_index(s: Seq<char>, i: int)
    requires
        0 <= i <= s.len(),
        forall|j: int| 0 <= j < i ==> #[trigger] s[j] != '\n',
        i == s.len() || s[i] == '\n',
    ensures
        newline_index(s) == i,
    decreases i,
{
    if i > 0 {
        assert forall|j: int| 0 <= j < i - 1 implies #[trigger] s.drop_first()[j] != '\n' by {
            assert(s.drop_first()[j] == s[j + 1]);
        }
        if i < s.len() {
            assert(s.drop_first()[i - 1] == s[i]);
        }
        lemma_newline_index(s.drop_first(), i - 1);
    }
}

pub fn char_is_ws(c: char) -> (b: bool)
    ensures
        b == is_ws(c),
{
    ('\u{9}' <= c && c <= '\u{d}') || c == ' ' || c == '\u{85}' || c == '\u{a0}' || c == '\u{1680}'
        || ('\u{2000}' <= c && c <= '\u{200a}') || c == '\u{2028}' || c == '\u{2029}' || c
        == '\u{202f}' || c == '\u{205f}' || c == '\u{3000}'
}

pub fn to_ascii_lower(c: char) -> (r: char)
    ensures
        r == ascii_lower(c),
{
    if 'A' <= c && c <= 'Z' {
        let b: u8 = (c as u32) as u8;
        (b + 32) as char
    } else {
        c
    }
}

/// Number of leading whitespace characters of `v[from..]`.
pub fn count_ws(v: &Vec<char>, from: usize) -> (n: usize)
    requires
        from <= v.len(),
    ensures
        n == lead_ws(v@.skip(from as int)),
        from + n <= v.len(),
{
    let ghost t = v@.skip(from as int);
    let mut i = from;
    while i < v.len() && char_is_ws(v[i])
        invariant
            from <= i <= v.len(),
            t == v@.skip(from as int),
            forall|j: int| 0 <= j < i - from ==> is_ws(#[trigger] t[j]),
        decreases v.len() - i,
    {
        i += 1;
    }
    proof {
        let p = |c: char| is_ws(c);
        assert forall|j: int| 0 <= j < i - from implies p(#[trigger] t[j]) by {}
        lemma_leading(t, p, i - from);
    }
    i - from
}

/// Number of leading non-whitespace characters of `v[from..]`.
pub fn count_word(v: &Vec<char>, from: usize) -> (n: usize)
    requires
        from <= v.len(),
    ensures
        n == lead_word(v@.skip(from as int)),
        from + n <= v.len(),
{
    let ghost t = v@.skip(from as int);
    let mut i = from;
    while i < v.len() && !char_is_ws(v[i])
        invariant
            from <= i <= v.len(),
            t == v@.skip(from as int),
            forall|j: int| 0 <= j < i - from ==> !is_ws(#[trigger] t[j]),
        decreases v.len() - i,
    {
        i += 1;
    }
    proof {
        let p = |c: char| !is_ws(c);
        assert forall|j: int| 0 <= j < i - from implies p(#[trigger] t[j]) by {}
        lemma_leading(t, p, i - from);
    }
    i - from
}

/// Number of leading copies of `x` in `v[from..]`.
pub fn count_eq(v: &Vec<char>, from: usize, x: char) -> (n: usize)
    requires
        from <= v.len(),
    ensures
        n == lead_eq(v@.skip(from as int), x),
        from + n <= v.len(),
{
    let ghost t = v@.skip(from as int);
    let mut i = from;
    while i < v.len() && v[i] == x
        invariant
            from <= i <= v.len(),
            t == v@.skip(from as int),
            forall|j: int| 0 <= j < i - from ==> #[trigger] t[j] == x,
        decreases v.len() - i,
    {
        i += 1;
    }
    proof {
        lemma_lead_eq(t, x, i - from);
    }
    i - from
}

/// Number of leading spaces and tabs of `v`.
pub fn count_blank(v: &Vec<char>) -> (n: usize)
    ensures
        n == lead_blank(v@),
        n <= v.len(),
{
    let mut i: usize = 0;
    while i < v.len() && (v[i] == ' ' || v[i] == '\t')
        invariant
            i <= v.len(),
            forall|j: int| 0 <= j < i ==> (#[trigger] v@[j] == ' ' || v@[j] == '\t'),
        decreases v.len() - i,
    {
        i += 1;
    }
    proof {
        let p = |c: char| c == ' ' || c == '\t';
        assert forall|j: int| 0 <= j < i implies p(#[trigger] v@[j]) by {}
        lemma_leading(v@, p, i as int);
    }
    i
}

/// Whether every character of `v[from..]` is whitespace.
pub fn all_ws_from(v: &Vec<char>, from: usize) -> (b: bool)
    requires
        from <= v.len(),
    ensures
        b == all_ws(v@.skip(from as int)),
{
    let n = count_ws(v, from);
    proof {
        lemma_leading_bound(v@.skip(from as int), |c: char| is_ws(c));
    }
    from + n == v.len()
}

/// Splits `s` into its lines, as `str::lines` does.
pub fn split_lines(s: &Vec<char>) -> (out: Vec<Vec<char>>)
    ensures
        out.deep_view() == lines(s@),
{
    let mut out: Vec<Vec<char>> = Vec::new();
    let mut cur: Vec<char> = Vec::new();
    let mut st: usize = 0;
    let mut i: usize = 0;
    proof {
        assert(s@.skip(0) == s@);
        assert(out.deep_view() =~= Seq::<Seq<char>>::empty());
    }
    while i < s.len()
        invariant
            st <= i <= s.len(),
            cur@ == s@.subrange(st as int, i as int),
            forall|j: int| st <= j < i ==> #[trigger] s@[j] != '\n',
            lines(s@) == out.deep_view() + lines(s@.skip(st as int)),
        decreases s.len() - i,
    {
        let c = s[i];
        if c == '\n' {
            let ghost t = s@.skip(st as int);
            proof {
                lemma_newline_index(t, i - st);
                assert(t.take(i - st) == cur@);
                assert(t.skip(i - st + 1) == s@.skip(i + 1));
            }
            let mut line = cur;
            let n = line.len();
            if n > 0 && line[n - 1] == '\r' {
                line.pop();
            }
            let ghost before = out.deep_view();
            out.push(line);
            proof {
                assert(out@.last().deep_view() =~= strip_cr(t.take(i - st)));
                assert(out.deep_view() =~= before + seq![strip_cr(t.take(i - st))]);
            }
            cur = Vec::new();
            st = i + 1;
        } else {
            cur.push(c);
        }
        i += 1;
    }
    proof {
        let t = s@.skip(st as int);
        lemma_newline_index(t, t.len() as int);
        assert(t == cur@);
    }
    if cur.len() > 0 {
        let ghost before = out.deep_view();
        out.push(cur);
        proof {
            assert(out@.last().deep_view() =~= cur@);
            assert(out.deep_view() =~= before + lines(s@.skip(st as int)));
        }
    } else {
        proof {
            assert(out.deep_view() == out.deep_view() + Seq::<Seq<char>>::empty());
        }
    }
    out
}

/// The `i`-th line of `ls`, seen through `deep_view`, is its view.
pub proof fn lemma_lines_deep(ls: &Vec<Vec<char>>, i: int)
    requires
        0 <= i < ls.len(),
    ensures
        ls.deep_view()[i] == ls@[i]@,
{
    assert(ls@[i].deep_view() =~= ls@[i]@);
}

/// The decimal digit `d` (below ten) as a character.
pub open spec fn digit(d: nat) -> char {
    ((d + 48) as u8) as char
}

/// The decimal representation of `n`, without leading zeros.
pub open spec fn decimal(n: nat) -> Seq<char>
    decreases n,
{
    if n < 10 {
        seq![digit(n)]
    } else {
        decimal(n / 10).push(digit(n % 10))
    }
}

/// Appends the decimal representation of `n` to `out`.
pub fn push_decimal(out: &mut Vec<char>, n: usize)
    ensures
        final(out)@ == old(out)@ + decimal(n as nat),
    decreases n,
{
    if n >= 10 {
        push_decimal(out, n / 10);
    }
    let d: u8 = (n % 10) as u8;
    out.push((d + 48) as char);
}

/// The decimal representation of `n`.
pub fn decimal_string(n: usize) -> (s: String)
    ensures
        s@ == decimal(n as nat),
{
    let mut v: Vec<char> = Vec::new();
    push_decimal(&mut v, n);
    proof {
        assert(v@ == Seq::<char>::empty() + decimal(n as nat));
        assert(Seq::<char>::empty() + decimal(n as nat) == decimal(n as nat));
    }
    string_of(v.as_slice())
}

/// Whether `needle` occurs in `hay` as a contiguous run.
pub open spec fn has_sub(hay: Seq<char>, needle: Seq<char>) -> bool {
    exists|i: int|
        0 <= i && i + needle.len() <= hay.len() && #[trigger] hay.subrange(i, i + needle.len())
            == needle
}

/// Whether `needle` occurs in `hay` (`str::contains`).
pub fn contains_seq(hay: &Vec<char>, needle: &Vec<char>) -> (b: bool)
    ensures
        b == has_sub(hay@, needle@),
{
    if needle.len() > hay.len() {
        return false;
    }
    let last = hay.len() - needle.len();
    let mut i: usize = 0;
    loop
        invariant
            i <= last,
            last == hay.len() - needle.len(),
            needle.len() <= hay.len(),
            forall|j: int| 0 <= j < i ==> #[trigger] hay@.subrange(j, j + needle.len()) != needle@,
        ensures
            forall|j: int|
                0 <= j <= last ==> #[trigger] hay@.subrange(j, j + needle.len()) != needle@,
        decreases last - i,
    {
        let mut k: usize = 0;
        let mut same = true;
        while k < needle.len()
            invariant
                k <= needle.len(),
                i <= last,
                last == hay.len() - needle.len(),
                same == (forall|m: int| 0 <= m < k ==> hay@[i + m] == needle@[m]),
            decreases needle.len() - k,
        {
            if hay[i + k] != needle[k] {
                same = false;
            }
            k += 1;
        }
        if same {
            assert(hay@.subrange(i as int, i + needle.len()) =~= needle@);
            return true;
        }
        proof {
            let m = choose|m: int| 0 <= m < needle.len() && hay@[i + m] != needle@[m];
            assert(hay@.subrange(i as int, i + needle.len())[m] != needle@[m]);
        }
        if i == last {
            break;
        }
        i += 1;
    }
    proof {
        assert forall|j: int|
            0 <= j && j + needle.len() <= hay.len() implies #[trigger] hay@.subrange(
            j,
            j + needle.len(),
        ) != needle@ by {
            assert(j <= last);
        }
    }
    false
}

pub proof fn lemma_has_sub_concat(a: Seq<char>, b: Seq<char>, c: Seq<char>, m: Seq<char>)
    requires
        has_sub(b, m),
    ensures
        has_sub(a + b + c, m),
{
    let i = choose|i: int| 0 <= i && i + m.len() <= b.len() && #[trigger] b.subrange(i, i + m.len()) == m;
    let s = a + b + c;
    assert(s.subrange(a.len() + i, a.len() + i + m.len()) =~= b.subrange(i, i + m.len()));
}

/// The view of an optional string slice.
pub open spec fn opt_str(o: Option<&str>) -> Option<Seq<char>> {
    match o {
        Some(s) => Some(s@),
        None => None,
    }
}

/// The view of an optional string.
pub open spec fn opt_string(o: Option<String>) -> Option<Seq<char>> {
    match o {
        Some(s) => Some(s@),
        None => None,
    }
}

/// Number of trailing whitespace characters.
pub open spec fn trail_ws(s: Seq<char>) -> nat
    decreases s.len(),
{
    if s.len() == 0 || !is_ws(s.last()) {
        0
    } else {
        1 + trail_ws(s.drop_last())
    }
}

/// `str::trim`.
pub open spec fn trim(s: Seq<char>) -> Seq<char> {
    let t = trim_start(s);
    t.take(t.len() - trail_ws(t))
}

/// ASCII lower-casing of a whole sequence (`str::to_ascii_lowercase`).
pub open spec fn lower(s: Seq<char>) -> Seq<char> {
    s.map_values(|c: char| ascii_lower(c))
}

/// `sep`-joined pieces: `items[0] + sep + items[1] + ...`.
pub open spec fn join(items: Seq<Seq<char>>, sep: Seq<char>) -> Seq<char>
    decreases items.len(),
{
    if items.len() == 0 {
        seq![]
    } else if items.len() == 1 {
        items[0]
    } else {
        join(items.drop_last(), sep) + sep + items.last()
    }
}

pub proof fn lemma_trail_ws(s: Seq<char>, i: int)
    requires
        0 <= i <= s.len(),
        forall|j: int| s.len() - i <= j < s.len() ==> is_ws(#[trigger] s[j]),
        i == s.len() || !is_ws(s[s.len() - i - 1]),
    ensures
        trail_ws(s) == i,
    decreases i,
{
    if i > 0 {
        assert forall|j: int| s.len() - 1 - (i - 1) <= j < s.len() - 1 implies is_ws(
            #[trigger] s.drop_last()[j],
        ) by {
            assert(s.drop_last()[j] == s[j]);
        }
        if i < s.len() {
            assert(s.drop_last()[s.len() - 1 - (i - 1) - 1] == s[s.len() - i - 1]);
        }
        lemma_trail_ws(s.drop_last(), i - 1);
    }
}

/// `s.trim()`, as characters.
pub fn trim_chars(s: &Vec<char>) -> (t: Vec<char>)
    ensures
        t@ == trim(s@),
{
    let a = count_ws(s, 0);
    proof {
        assert(s@.skip(0) == s@);
    }
    let mut b = s.len();
    while b > a && char_is_ws(s[b - 1])
        invariant
            a <= b <= s.len(),
            a == lead_ws(s@),
            forall|j: int| b <= j < s.len() ==> is_ws(#[trigger] s@[j]),
        decreases b,
    {
        b -= 1;
    }
    let ghost ts = trim_start(s@);
    proof {
        assert(ts == s@.skip(a as int));
        assert forall|j: int| ts.len() - (s.len() - b) <= j < ts.len() implies is_ws(
            #[trigger] ts[j],
        ) by {
            assert(ts[j] == s@[a + j]);
        }
        if b > a {
            assert(ts[ts.len() - (s.len() - b) - 1] == s@[b - 1]);
        }
        lemma_trail_ws(ts, (s.len() - b) as int);
    }
    let mut t: Vec<char> = Vec::new();
    let mut i = a;
    while i < b
        invariant
            a <= i <= b <= s.len(),
            t@ == s@.subrange(a as int, i as int),
        decreases b - i,
    {
        t.push(s[i]);
        i += 1;
    }
    proof {
        assert(t@ =~= ts.take(ts.len() - trail_ws(ts)));
    }
    t
}

/// `s.to_ascii_lowercase()`, as characters.
pub fn lower_chars(s: &Vec<char>) -> (t: Vec<char>)
    ensures
        t@ == lower(s@),
{
    let mut t: Vec<char> = Vec::new();
    let mut i: usize = 0;
    while i < s.len()
        invariant
            i <= s.len(),
            t@ == lower(s@).take(i as int),
        decreases s.len() - i,
    {
        t.push(to_ascii_lower(s[i]));
        proof {
            assert(lower(s@).take(i + 1) == lower(s@).take(i as int).push(ascii_lower(s@[i as int])));
        }
        i += 1;
    }
    proof {
        assert(lower(s@).take(i as int) == lower(s@));
    }
    t
}

/// Whether two character vectors are equal.
pub fn chars_eq(a: &Vec<char>, b: &Vec<char>) -> (r: bool)
    ensures
        r == (a@ == b@),
{
    if a.len() != b.len() {
        return false;
    }
    let mut i: usize = 0;
    while i < a.len()
        invariant
            i <= a.len(),
            a.len() == b.len(),
            forall|j: int| 0 <= j < i ==> a@[j] == b@[j],
        decreases a.len() - i,
    {
        if a[i] != b[i] {
            return false;
        }
        i += 1;
    }
    proof {
        assert(a@ =~= b@);
    }
    true
}

/// Joins `items` with `sep` between them.
pub fn join_strings(items: &Vec<String>, sep: &str) -> (r: String)
    ensures
        r@ == join(items.deep_view(), sep@),
{
    let ghost iv = items.deep_view();
    let mut r = String::new();
    let mut i: usize = 0;
    while i < items.len()
        invariant
            i <= items.len(),
            iv == items.deep_view(),
            r@ == join(iv.take(i as int), sep@),
        decreases items.len() - i,
    {
        if i > 0 {
            r.append(sep);
        }
        r.append(items[i].as_str());
        proof {
            assert(iv.take(i + 1).drop_last() == iv.take(i as int));
            if i == 0 {
                assert(r@ == iv.take(1)[0]);
            }
        }
        i += 1;
    }
    proof {
        assert(iv.take(i as int) == iv);
    }
    r
}

/// The characters of `s`, in order.
pub fn chars_of(s: &str) -> (v: Vec<char>)
    ensures
        v@ == s@,
{
    let mut v: Vec<char> = Vec::new();
    for c in it: s.chars()
        invariant
            v@ == it.seq().take(it.index() as int),
            it.seq() == s@,
    {
        v.push(c);
        assert(v@ == it.seq().take(it.index() + 1));
    }
    v
}

/// `String`'s `FromIterator<&char>`: the string made of the characters of
/// `v`, in order.
#[verifier::external_body]
pub fn string_of(v: &[char]) -> (s: String)
    ensures
        s@ == v@,
{
    v.iter().collect()
}

} // verus!
