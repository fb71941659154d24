//! Mermaid fences in Markdown: ```` ```mermaid ```` and `~~~mermaid` blocks.

use vstd::prelude::*;

use crate::extract::{sources, Block};
use crate::text::{
    all_ws, all_ws_from, count_blank, count_eq, count_word, count_ws, eq_ignore_ascii_case,
    lead_blank, lead_eq, lead_word, lead_ws, lines, split_lines, to_ascii_lower, trim_start,
    utf8_len, utf8_size, chars_of, string_of, lemma_lines_deep, newline_index, strip_cr,
    lemma_newline_index,
};

verus! {

/// The word that opens a fence's info string.
pub open spec fn info_word(rest: Seq<char>) -> Seq<char> {
    let u = trim_start(rest);
    u.take(lead_word(u) as int)
}

/// Whether the info string after a fence names mermaid (ASCII case ignored).
pub open spec fn is_mermaid_info(rest: Seq<char>) -> bool {
    eq_ignore_ascii_case(info_word(rest), seq!['m', 'e', 'r', 'm', 'a', 'i', 'd'])
}

/// A fence that a line opens.
pub struct Fence {
    /// The fence character, a backtick or a tilde.
    pub ch: char,
    /// How many fence characters open it (at least three).
    pub len: nat,
    /// The width in bytes of the whitespace before the fence.
    pub indent: nat,
    /// Whether the info string names mermaid.
    pub mermaid: bool,
}

/// The fence that `line` opens, if it opens one: after leading whitespace,
/// three or more backticks or tildes.
pub open spec fn opening_fence(line: Seq<char>) -> Option<Fence> {
    let t = trim_start(line);
    if t.len() == 0 || !(t[0] == '`' || t[0] == '~') {
        None
    } else {
        let n = lead_eq(t, t[0]);
        if n < 3 {
            None
        } else {
            Some(
                Fence {
                    ch: t[0],
                    len: n,
                    indent: utf8_size(line.take(lead_ws(line) as int)),
                    mermaid: is_mermaid_info(t.skip(n as int)),
                },
            )
        }
    }
}

/// Whether `line` closes a fence of `len` characters `ch`: after leading
/// whitespace, at least `len` of them and nothing but whitespace after.
pub open spec fn closes_fence(line: Seq<char>, ch: char, len: nat) -> bool {
    let t = trim_start(line);
    let k = lead_eq(t, ch);
    k >= len && all_ws(t.skip(k as int))
}

/// Index of the first line of `ls` that closes the fence, or `ls.len()`.
pub open spec fn close_index(ls: Seq<Seq<char>>, ch: char, len: nat) -> nat
    decreases ls.len(),
{
    if ls.len() == 0 || closes_fence(ls[0], ch, len) {
        0
    } else {
        1 + close_index(ls.drop_first(), ch, len)
    }
}

/// One body line of a block: the line without as many leading spaces and
/// tabs as the opening fence was indented (counted in bytes), and a newline.
pub open spec fn body_line(l: Seq<char>, indent: nat) -> Seq<char> {
    let k = if lead_blank(l) < indent {
        lead_blank(l)
    } else {
        indent
    };
    l.skip(k as int).push('\n')
}

/// The source of a block made of the body lines `ls`.
pub open spec fn body_source(ls: Seq<Seq<char>>, indent: nat) -> Seq<char>
    decreases ls.len(),
{
    if ls.len() == 0 {
        seq![]
    } else {
        body_source(ls.drop_last(), indent) + body_line(ls.last(), indent)
    }
}

/// The mermaid sources in the lines `ls`.  A line that opens a fence starts
/// a block that runs to the first line closing it (or to the end); the
/// block is kept when the fence is a mermaid one and its source is not
/// blank.  Lines inside any fence never open another one, so mermaid
/// examples nested in other code blocks are not taken.
pub open spec fn scan_lines(ls: Seq<Seq<char>>) -> Seq<Seq<char>>
    decreases ls.len(),
{
    if ls.len() == 0 {
        seq![]
    } else {
        match opening_fence(ls[0]) {
            None => scan_lines(ls.drop_first()),
            Some(f) => {
                let rest = ls.drop_first();
                let k = close_index(rest, f.ch, f.len);
                let after = if k < rest.len() {
                    rest.skip(k + 1 as int)
                } else {
                    seq![]
                };
                let src = body_source(rest.take(k as int), f.indent);
                if f.mermaid && !all_ws(src) {
                    seq![src] + scan_lines(after)
                } else {
                    scan_lines(after)
                }
            },
        }
    }
}

/// The mermaid sources of a Markdown document, in document order.
pub open spec fn markdown_blocks(md: Seq<char>) -> Seq<Seq<char>> {
    scan_lines(lines(md))
}


proof fn lemma_close_index(ls: Seq<Seq<char>>, ch: char, len: nat, i: int)
    requires
        0 <= i <= ls.len(),
        forall|j: int| 0 <= j < i ==> !closes_fence(#[trigger] ls[j], ch, len),
        i == ls.len() || closes_fence(ls[i], ch, len),
    ensures
        close_index(ls, ch, len) == i,
    decreases i,
{
    if i > 0 {
        assert forall|j: int| 0 <= j < i - 1 implies !closes_fence(
            #[trigger] ls.drop_first()[j],
            ch,
            len,
        ) by {
            assert(ls.drop_first()[j] == ls[j + 1]);
        }
        if i < ls.len() {
            assert(ls.drop_first()[i - 1] == ls[i]);
        }
        lemma_close_index(ls.drop_first(), ch, len, i - 1);
    }
}

/// A fence is as long as the run of fence characters that opens it, mermaid
/// or not: the line's first non-blank character is the fence character,
/// and every copy of it that follows in that run counts (at least three).
pub proof fn law_fence_length(line: Seq<char>)
    ensures
        opening_fence(line) matches Some(f) ==> {
            &&& trim_start(line).len() > 0
            &&& f.ch == trim_start(line)[0]
            &&& (f.ch == '`' || f.ch == '~')
            &&& f.len == lead_eq(trim_start(line), f.ch)
            &&& f.len >= 3
        },
{
}

/// A line that starts (after blanks) with fewer fence characters than the
/// fence was opened with never closes it: a fence opened by `len`
/// characters stays open over any run of such lines.
pub proof fn law_short_lines_keep_fence_open(ls: Seq<Seq<char>>, ch: char, len: nat, k: int)
    requires
        0 <= k <= ls.len(),
        forall|i: int| 0 <= i < k ==> lead_eq(trim_start(#[trigger] ls[i]), ch) < len,
    ensures
        close_index(ls, ch, len) >= k,
    decreases k,
{
    if k > 0 {
        assert(!closes_fence(ls[0], ch, len));
        assert forall|i: int| 0 <= i < k - 1 implies lead_eq(
            trim_start(#[trigger] ls.drop_first()[i]),
            ch,
        ) < len by {
            assert(ls.drop_first()[i] == ls[i + 1]);
        }
        law_short_lines_keep_fence_open(ls.drop_first(), ch, len, k - 1);
    }
}

proof fn lemma_utf8_size_bound(s: Seq<char>)
    ensures
        utf8_size(s) <= 4 * s.len(),
    decreases s.len(),
{
    if s.len() > 0 {
        lemma_utf8_size_bound(s.drop_last());
    }
}

proof fn lemma_scan_blocks(ls: Seq<Seq<char>>)
    ensures
        forall|i: int|
            0 <= i < scan_lines(ls).len() ==> !all_ws(#[trigger] scan_lines(ls)[i])
                && scan_lines(ls)[i].last() == '\n',
    decreases ls.len(),
{
    if ls.len() > 0 {
        match opening_fence(ls[0]) {
            None => {
                lemma_scan_blocks(ls.drop_first());
                assert(scan_lines(ls) == scan_lines(ls.drop_first()));
            },
            Some(f) => {
                let rest = ls.drop_first();
                let k = close_index(rest, f.ch, f.len);
                let after = if k < rest.len() {
                    rest.skip(k + 1 as int)
                } else {
                    seq![]
                };
                lemma_close_index_bound(rest, f.ch, f.len);
                lemma_scan_blocks(after);
                let body = rest.take(k as int);
                let src = body_source(body, f.indent);
                if f.mermaid && !all_ws(src) {
                    if body.len() == 0 {
                        assert(src.len() == 0);
                    }
                    assert(src.last() == '\n');
                    assert forall|i: int| 0 <= i < scan_lines(ls).len() implies !all_ws(
                        #[trigger] scan_lines(ls)[i],
                    ) && scan_lines(ls)[i].last() == '\n' by {
                        if i > 0 {
                            assert(scan_lines(ls)[i] == scan_lines(after)[i - 1]);
                        }
                    }
                } else {
                    assert(scan_lines(ls) == scan_lines(after));
                }
            },
        }
    }
}

proof fn lemma_close_index_bound(ls: Seq<Seq<char>>, ch: char, len: nat)
    ensures
        close_index(ls, ch, len) <= ls.len(),
    decreases ls.len(),
{
    if ls.len() > 0 && !closes_fence(ls[0], ch, len) {
        lemma_close_index_bound(ls.drop_first(), ch, len);
    }
}

/// Every block taken from a Markdown document has a source that is not
/// blank and that ends with a newline.
pub proof fn law_markdown_blocks_well_formed(md: Seq<char>)
    ensures
        forall|i: int|
            0 <= i < markdown_blocks(md).len() ==> !all_ws(#[trigger] markdown_blocks(md)[i])
                && markdown_blocks(md)[i].last() == '\n',
{
    lemma_scan_blocks(lines(md));
}

/// Whether scanning `ls` ends outside any fence: every fence that a line
/// opens is closed by a later line.
pub open spec fn fences_closed(ls: Seq<Seq<char>>) -> bool
    decreases ls.len(),
{
    if ls.len() == 0 {
        true
    } else {
        match opening_fence(ls[0]) {
            None => fences_closed(ls.drop_first()),
            Some(f) => {
                let rest = ls.drop_first();
                let k = close_index(rest, f.ch, f.len);
                k < rest.len() && fences_closed(rest.skip(k + 1 as int))
            },
        }
    }
}

proof fn lemma_close_index_concat(r1: Seq<Seq<char>>, r2: Seq<Seq<char>>, ch: char, len: nat)
    requires
        close_index(r1, ch, len) < r1.len(),
    ensures
        close_index(r1 + r2, ch, len) == close_index(r1, ch, len),
    decreases r1.len(),
{
    assert((r1 + r2)[0] == r1[0]);
    if !closes_fence(r1[0], ch, len) {
        assert((r1 + r2).drop_first() == r1.drop_first() + r2);
        lemma_close_index_concat(r1.drop_first(), r2, ch, len);
    }
}

proof fn lemma_scan_concat(l1: Seq<Seq<char>>, l2: Seq<Seq<char>>)
    requires
        fences_closed(l1),
    ensures
        scan_lines(l1 + l2) == scan_lines(l1) + scan_lines(l2),
    decreases l1.len(),
{
    if l1.len() == 0 {
        assert(l1 + l2 == l2);
        assert(scan_lines(l1) + scan_lines(l2) == scan_lines(l2));
    } else {
        let l = l1 + l2;
        assert(l[0] == l1[0]);
        assert(l.drop_first() == l1.drop_first() + l2);
        match opening_fence(l1[0]) {
            None => {
                lemma_scan_concat(l1.drop_first(), l2);
            },
            Some(f) => {
                let rest1 = l1.drop_first();
                let rest = l.drop_first();
                let k = close_index(rest1, f.ch, f.len);
                lemma_close_index_concat(rest1, l2, f.ch, f.len);
                assert(rest.take(k as int) == rest1.take(k as int));
                assert(rest.skip(k + 1 as int) == rest1.skip(k + 1 as int) + l2);
                lemma_scan_concat(rest1.skip(k + 1 as int), l2);
                let src = body_source(rest1.take(k as int), f.indent);
                if f.mermaid && !all_ws(src) {
                    assert(seq![src] + scan_lines(rest1.skip(k + 1 as int)) + scan_lines(l2) == seq![
                        src,
                    ] + (scan_lines(rest1.skip(k + 1 as int)) + scan_lines(l2)));
                }
            },
        }
    }
}

proof fn lemma_newline_index_bound(s: Seq<char>)
    ensures
        newline_index(s) <= s.len(),
        forall|j: int| 0 <= j < newline_index(s) ==> #[trigger] s[j] != '\n',
        newline_index(s) < s.len() ==> s[newline_index(s) as int] == '\n',
    decreases s.len(),
{
    if s.len() > 0 && s[0] != '\n' {
        lemma_newline_index_bound(s.drop_first());
        assert forall|j: int| 0 <= j < newline_index(s) implies #[trigger] s[j] != '\n' by {
            if j > 0 {
                assert(s[j] == s.drop_first()[j - 1]);
            }
        }
        if newline_index(s) < s.len() {
            assert(s[newline_index(s) as int] == s.drop_first()[newline_index(s) - 1]);
        }
    }
}

proof fn lemma_lines_concat(a: Seq<char>, b: Seq<char>)
    requires
        a.len() == 0 || a.last() == '\n',
    ensures
        lines(a + b) == lines(a) + lines(b),
    decreases a.len(),
{
    if a.len() == 0 {
        assert(a + b == b);
        assert(lines(a) + lines(b) == lines(b));
    } else {
        let s = a + b;
        lemma_newline_index_bound(a);
        let i = newline_index(a);
        if i == a.len() {
            assert(a[a.len() - 1] == '\n');
        }
        assert(i < a.len());
        assert forall|j: int| 0 <= j < i implies #[trigger] s[j] != '\n' by {
            assert(s[j] == a[j]);
        }
        assert(s[i as int] == a[i as int]);
        lemma_newline_index(s, i as int);
        assert(s.take(i as int) == a.take(i as int));
        let a2 = a.skip(i + 1 as int);
        assert(s.skip(i + 1 as int) == a2 + b);
        if a2.len() > 0 {
            assert(a2.last() == a.last());
        }
        lemma_lines_concat(a2, b);
        assert(seq![strip_cr(a.take(i as int))] + lines(a2) + lines(b) == seq![
            strip_cr(a.take(i as int)),
        ] + (lines(a2) + lines(b)));
    }
}

/// Concatenating two Markdown documents concatenates their blocks, when the
/// first one ends with a line break (or is empty) and leaves no fence open.
pub proof fn law_markdown_concat(a: Seq<char>, b: Seq<char>)
    requires
        a.len() == 0 || a.last() == '\n',
        fences_closed(lines(a)),
    ensures
        markdown_blocks(a + b) == markdown_blocks(a) + markdown_blocks(b),
{
    lemma_lines_concat(a, b);
    lemma_scan_concat(lines(a), lines(b));
}

/// The byte width of `c`.
fn utf8_width(c: char) -> (n: u128)
    ensures
        n == utf8_len(c),
{
    let u = c as u32;
    if u < 0x80 {
        1
    } else if u < 0x800 {
        2
    } else if u < 0x10000 {
        3
    } else {
        4
    }
}

/// The byte width of the first `w` characters of `line`.
fn prefix_width(line: &Vec<char>, w: usize) -> (n: u128)
    requires
        w <= line.len(),
    ensures
        n == utf8_size(line@.take(w as int)),
{
    let mut total: u128 = 0;
    let mut k: usize = 0;
    while k < w
        invariant
            k <= w <= line.len(),
            total == utf8_size(line@.take(k as int)),
            total <= 4 * k,
        decreases w - k,
    {
        proof {
            assert(line@.take(k + 1).drop_last() == line@.take(k as int));
        }
        total = total + utf8_width(line[k]);
        k += 1;
    }
    total
}

/// A fence as the scanner holds it.
struct FenceInfo {
    ch: char,
    len: usize,
    indent: u128,
    mermaid: bool,
}

spec fn fence_matches(r: Option<FenceInfo>, f: Option<Fence>) -> bool {
    match (r, f) {
        (None, None) => true,
        (Some(a), Some(b)) => a.ch == b.ch && a.len == b.len && a.indent == b.indent && a.mermaid
            == b.mermaid,
        _ => false,
    }
}

/// The fence that `line` opens, if any.
#[verifier::rlimit(40)]
fn open_fence(line: &Vec<char>) -> (r: Option<FenceInfo>)
    ensures
        fence_matches(r, opening_fence(line@)),
{
    let w = count_ws(line, 0);
    proof {
        assert(line@.skip(0) == line@);
    }
    let ghost t = trim_start(line@);
    if w == line.len() {
        return None;
    }
    let ch = line[w];
    assert(t[0] == ch);
    if ch != '`' && ch != '~' {
        return None;
    }
    let n = count_eq(line, w, ch);
    if n < 3 {
        return None;
    }
    let indent = prefix_width(line, w);
    let p = w + n;
    let w2 = count_ws(line, p);
    let q = p + w2;
    let m = count_word(line, q);
    proof {
        assert(t.skip(n as int) == line@.skip(p as int));
        assert(trim_start(line@.skip(p as int)) == line@.skip(q as int));
    }
    let ghost word = info_word(line@.skip(p as int));
    assert(word == line@.subrange(q as int, q + m));
    let target = ['m', 'e', 'r', 'm', 'a', 'i', 'd'];
    let mut mermaid = m == 7;
    if mermaid {
        let mut k: usize = 0;
        while k < 7
            invariant
                k <= 7,
                m == 7,
                q + m <= line.len(),
                word == line@.subrange(q as int, q + m),
                target@ == seq!['m', 'e', 'r', 'm', 'a', 'i', 'd'],
                mermaid == (forall|j: int|
                    0 <= j < k ==> ascii_lower_eq(#[trigger] word[j], target@[j])),
            decreases 7 - k,
        {
            let same = to_ascii_lower(line[q + k]) == to_ascii_lower(target[k]);
            proof {
                assert(word[k as int] == line@[q + k]);
                if mermaid && same {
                    assert forall|j: int| 0 <= j < k + 1 implies ascii_lower_eq(
                        #[trigger] word[j],
                        target@[j],
                    ) by {}
                }
            }
            mermaid = mermaid && same;
            k += 1;
        }
    }
    proof {
        assert(target@ == seq!['m', 'e', 'r', 'm', 'a', 'i', 'd']);
    }
    Some(FenceInfo { ch, len: n, indent, mermaid })
}

spec fn ascii_lower_eq(a: char, b: char) -> bool {
    crate::text::ascii_lower(a) == crate::text::ascii_lower(b)
}

/// Whether `line` closes a fence of `len` characters `ch`.
fn closes(line: &Vec<char>, ch: char, len: usize) -> (b: bool)
    ensures
        b == closes_fence(line@, ch, len as nat),
{
    let w = count_ws(line, 0);
    proof {
        assert(line@.skip(0) == line@);
    }
    let k = count_eq(line, w, ch);
    proof {
        assert(trim_start(line@).skip(k as int) == line@.skip(w + k));
    }
    k >= len && all_ws_from(line, w + k)
}

/// Appends the body line made of `line` to `src`.
fn push_body_line(src: &mut Vec<char>, line: &Vec<char>, indent: u128)
    ensures
        final(src)@ == old(src)@ + body_line(line@, indent as nat),
{
    let b = count_blank(line);
    let k: usize = if (b as u128) < indent {
        b
    } else {
        indent as usize
    };
    let ghost start = src@;
    let mut i = k;
    while i < line.len()
        invariant
            k <= i <= line.len(),
            src@ == start + line@.subrange(k as int, i as int),
        decreases line.len() - i,
    {
        src.push(line[i]);
        i += 1;
    }
    src.push('\n');
    proof {
        assert(line@.subrange(k as int, line.len() as int) == line@.skip(k as int));
    }
}

/// Extracts the mermaid fenced blocks (```` ``` ```` or `~~~`) of a Markdown
/// document, in order.  A fence whose info word is not `mermaid` is skipped
/// to its end, so that fences and mermaid examples nested in other code
/// blocks are not taken; blocks whose source is blank are dropped.
pub fn extract_from_markdown(md: &str) -> (blocks: Vec<Block>)
    ensures
        sources(blocks@) == markdown_blocks(md@),
{
    let chars = chars_of(md);
    let ls = split_lines(&chars);
    let ghost all = ls.deep_view();
    let mut blocks: Vec<Block> = Vec::new();
    let mut i: usize = 0;
    proof {
        assert(all.skip(0) == all);
        assert(sources(blocks@) =~= Seq::<Seq<char>>::empty());
    }
    while i < ls.len()
        invariant
            i <= ls.len(),
            all == ls.deep_view(),
            all == lines(md@),
            scan_lines(all) == sources(blocks@) + scan_lines(all.skip(i as int)),
        decreases ls.len() - i,
    {
        let ghost here = all.skip(i as int);
        proof {
            lemma_lines_deep(&ls, i as int);
            assert(here[0] == ls@[i as int]@);
            assert(here.drop_first() == all.skip(i + 1));
        }
        match open_fence(&ls[i]) {
            None => {
                i += 1;
            },
            Some(f) => {
                let ghost rest = here.drop_first();
                let mut src: Vec<char> = Vec::new();
                let mut j = i + 1;
                proof {
                    assert(rest.take(0) =~= Seq::<Seq<char>>::empty());
                }
                while j < ls.len() && !closes(&ls[j], f.ch, f.len)
                    invariant
                        i < j <= ls.len(),
                        all == ls.deep_view(),
                        rest == all.skip(i + 1),
                        forall|k: int| 0 <= k < j - i - 1 ==> !closes_fence(
                            #[trigger] rest[k],
                            f.ch,
                            f.len as nat,
                        ),
                        f.mermaid ==> src@ == body_source(
                            rest.take(j - i - 1),
                            f.indent as nat,
                        ),
                    decreases ls.len() - j,
                {
                    proof {
                        lemma_lines_deep(&ls, j as int);
                        assert(rest[j - i - 1] == ls@[j as int]@);
                        assert(rest.take(j - i).drop_last() == rest.take(j - i - 1));
                    }
                    if f.mermaid {
                        push_body_line(&mut src, &ls[j], f.indent);
                    }
                    j += 1;
                }
                proof {
                    if j < ls.len() {
                        lemma_lines_deep(&ls, j as int);
                        assert(rest[j - i - 1] == ls@[j as int]@);
                    }
                    lemma_close_index(rest, f.ch, f.len as nat, j - i - 1);
                }
                if f.mermaid && !all_ws_from(&src, 0) {
                    proof {
                        assert(src@.skip(0) == src@);
                    }
                    let ghost before = sources(blocks@);
                    blocks.push(Block { source: string_of(src.as_slice()) });
                    proof {
                        assert(sources(blocks@) =~= before + seq![src@]);
                    }
                } else {
                    proof {
                        assert(src@.skip(0) == src@);
                    }
                }
                if j < ls.len() {
                    proof {
                        assert(rest.skip(j - i) == all.skip(j + 1));
                    }
                    i = j + 1;
                } else {
                    proof {
                        assert(all.skip(j as int) =~= Seq::<Seq<char>>::empty());
                    }
                    i = j;
                }
            },
        }
    }
    blocks
}

} // verus!
