//! Mermaid blocks in HTML: `<pre class="mermaid">`, `<div class="mermaid">`
//! and `<pre><code class="language-mermaid">` (the output of Markdown
//! converters), found with regular expressions.

use vstd::prelude::*;
use vstd::string::StringExecFns;

use crate::entities::{decode_html_entities, html_unescape};
use crate::extract::{sources, Block};
use crate::pattern::{
    captures, interleave, match_texts, regex_captures, regex_split, split, whole, Group, GroupView,
};
use crate::pattern::{is_match, regex_is_match};
use crate::text::{
    all_ws, all_ws_from, ascii_lower, chars_of, contains_seq, has_sub, lemma_has_sub_concat,
    string_of, to_ascii_lower,
};

verus! {

/// A mermaid block.  The class value must hold `mermaid` as a whole token
/// (`mermaid-wrapper` does not count), and the attribute name must follow
/// whitespace (`data-class` does not count).  `<pre>` and `<div>` are
/// separate alternatives because the pattern language has no
/// back-references.  Group 1, 2 or 3 holds the body.
pub const BLOCK_PATTERN: &'static str = "(?is)<pre\\b[^>]*\\sclass\\s*=\\s*[\"'](?:[^\"']*\\s)?mermaid(?:\\s[^\"']*)?[\"'][^>]*>(?P<pre_body>.*?)</pre\\s*>|<div\\b[^>]*\\sclass\\s*=\\s*[\"'](?:[^\"']*\\s)?mermaid(?:\\s[^\"']*)?[\"'][^>]*>(?P<div_body>.*?)</div\\s*>|<pre\\b[^>]*>\\s*<code\\b[^>]*\\sclass\\s*=\\s*[\"'](?:[^\"']*\\s)?(?:language-|lang-)mermaid(?:\\s[^\"']*)?[\"'][^>]*>(?P<code>.*?)</code\\s*>\\s*</pre\\s*>";

/// A `<script>` element.
pub const SCRIPT_PATTERN: &'static str = "(?is)<script\\b[^>]*>.*?</script\\s*>";

/// An HTML comment.
pub const COMMENT_PATTERN: &'static str = "(?s)<!--.*?-->";

/// Markup that may stand inside a block body: `<code>`, `<span>` tags and
/// `<br>`.
pub const INNER_TAG_PATTERN: &'static str = "(?is)</?(?:code|span)\\b[^>]*>|<br\\s*/?>";

/// A script element whose `src` URL names mermaid.
pub const MERMAID_SRC_PATTERN: &'static str = "(?is)^<script\\b[^>]*\\ssrc\\s*=\\s*[\"'][^\"']*mermaid[^\"']*[\"']";

/// A call of `mermaid.initialize(`, `mermaid.run(` or `mermaid.init(`.
pub const MERMAID_CALL_PATTERN: &'static str = "(?i)\\bmermaid\\s*\\.\\s*(?:initialize|run|init)\\s*\\(";

/// An ESM import of a module whose name holds mermaid.
pub const MERMAID_IMPORT_PATTERN: &'static str = "(?is)\\bimport\\b[^;()]{0,300}?[\"'][^\"']*mermaid[^\"']*[\"']|\\bimport\\s*\\(\\s*[\"'][^\"']*mermaid[^\"']*[\"']";

/// The closing `</head>` tag.
pub const HEAD_PATTERN: &'static str = "(?i)</head\\s*>";

/// The style sheet put into a page that holds inlined diagrams.
pub const STYLE: &'static str = "<style id=\"jmmview-style\">.jmmview-diagram{margin:1.5em auto;text-align:center;overflow-x:auto;}.jmmview-diagram>svg{max-width:100%;height:auto;}.jmmview-diagram details{text-align:left;font-size:0.85em;margin-top:0.5em;}.jmmview-diagram details pre{background:rgba(127,127,127,0.1);padding:0.75em;border-radius:6px;overflow-x:auto;}</style>";

/// What marks a page that already holds the style sheet.
pub const STYLE_MARKER: &'static str = "id=\"jmmview-style\"";

/// Captures as the library sees them.
pub type Caps = Seq<Seq<Option<GroupView>>>;

/// The byte ranges of the whole matches.
pub open spec fn spans(caps: Caps) -> Seq<(usize, usize)> {
    caps.map_values(|c: Seq<Option<GroupView>>| (whole(c).0, whole(c).1))
}

/// The regions that a browser does not read as markup: `<script>` bodies
/// and comments.  Mermaid-like text in them must stay untouched.
pub open spec fn protected_regions(html: Seq<char>) -> Seq<(usize, usize)> {
    spans(regex_captures(SCRIPT_PATTERN@, html)) + spans(regex_captures(COMMENT_PATTERN@, html))
}

/// Whether `pos` lies in one of the ranges.
pub open spec fn in_spans(s: Seq<(usize, usize)>, pos: usize) -> bool {
    exists|k: int| 0 <= k < s.len() && (#[trigger] s[k]).0 <= pos && pos < s[k].1
}

/// Ranges ordered by their start.
pub open spec fn sorted_by_start(s: Seq<(usize, usize)>) -> bool {
    forall|i: int, j: int| 0 <= i < j < s.len() ==> (#[trigger] s[i]).0 <= (#[trigger] s[j]).0
}

/// The text of group `i`, when it took part in the match.
pub open spec fn group_text(c: Seq<Option<GroupView>>, i: int) -> Option<Seq<char>> {
    if i < c.len() {
        match c[i] {
            Some(g) => Some(g.2),
            None => None,
        }
    } else {
        None
    }
}

/// The body of a block match: the first of the groups 1, 2, 3 that took part.
pub open spec fn block_body(c: Seq<Option<GroupView>>) -> Seq<char> {
    match group_text(c, 1) {
        Some(t) => t,
        None => match group_text(c, 2) {
            Some(t) => t,
            None => match group_text(c, 3) {
                Some(t) => t,
                None => seq![],
            },
        },
    }
}

/// Whether a matched inner tag is a `<br>` (its first three characters are
/// `<br`, ASCII case ignored).
pub open spec fn is_br(t: Seq<char>) -> bool {
    t.len() >= 3 && t[0] == '<' && ascii_lower(t[1]) == 'b' && ascii_lower(t[2]) == 'r'
}

/// What an inner tag becomes: a newline for `<br>`, nothing otherwise.
pub open spec fn inner_fill(t: Seq<char>) -> Seq<char> {
    if is_br(t) {
        seq!['\n']
    } else {
        seq![]
    }
}

/// The replacements of the inner tags.
pub open spec fn inner_fills(caps: Caps) -> Seq<Seq<char>> {
    caps.map_values(|c: Seq<Option<GroupView>>| inner_fill(whole(c).2))
}

/// A block body without its inner markup, entities decoded.
pub open spec fn strip_inner(body: Seq<char>) -> Seq<char> {
    html_unescape(
        interleave(
            regex_split(INNER_TAG_PATTERN@, body),
            inner_fills(regex_captures(INNER_TAG_PATTERN@, body)),
        ),
    )
}

/// The mermaid source of a block match.
pub open spec fn block_source(c: Seq<Option<GroupView>>) -> Seq<char> {
    strip_inner(block_body(c))
}

/// Whether a block match counts: it does not start in a protected region,
/// and its source is not blank.
pub open spec fn is_candidate(c: Seq<Option<GroupView>>, prot: Seq<(usize, usize)>) -> bool {
    !in_spans(prot, whole(c).0) && !all_ws(block_source(c))
}

/// The sources of the block matches that count, in order.
pub open spec fn candidates(caps: Caps, prot: Seq<(usize, usize)>) -> Seq<Seq<char>>
    decreases caps.len(),
{
    if caps.len() == 0 {
        seq![]
    } else {
        candidates(caps.drop_last(), prot) + if is_candidate(caps.last(), prot) {
            seq![block_source(caps.last())]
        } else {
            seq![]
        }
    }
}

/// The mermaid sources of an HTML document, in document order.
pub open spec fn html_blocks(html: Seq<char>) -> Seq<Seq<char>> {
    candidates(regex_captures(BLOCK_PATTERN@, html), protected_regions(html))
}

proof fn lemma_candidates_not_blank(caps: Caps, prot: Seq<(usize, usize)>)
    ensures
        forall|i: int|
            0 <= i < candidates(caps, prot).len() ==> !all_ws(#[trigger] candidates(caps, prot)[i]),
    decreases caps.len(),
{
    if caps.len() > 0 {
        let prev = candidates(caps.drop_last(), prot);
        lemma_candidates_not_blank(caps.drop_last(), prot);
        assert forall|i: int| 0 <= i < candidates(caps, prot).len() implies !all_ws(
            #[trigger] candidates(caps, prot)[i],
        ) by {
            if i < prev.len() {
                assert(candidates(caps, prot)[i] == prev[i]);
            }
        }
    }
}

/// Every block taken from an HTML document has a source that is not blank.
pub proof fn law_html_blocks_not_blank(html: Seq<char>)
    ensures
        forall|i: int| 0 <= i < html_blocks(html).len() ==> !all_ws(#[trigger] html_blocks(html)[i]),
{
    lemma_candidates_not_blank(regex_captures(BLOCK_PATTERN@, html), protected_regions(html));
}

/// `gaps[0] + fills[0] + gaps[1] + ... + gaps[n]`, built.
pub fn join_pieces(gaps: &Vec<String>, fills: &Vec<String>) -> (res: String)
    requires
        gaps.len() == fills.len() + 1,
    ensures
        res@ == interleave(gaps.deep_view(), fills.deep_view()),
{
    let ghost g = gaps.deep_view();
    let ghost f = fills.deep_view();
    let mut out = String::new();
    out.append(gaps[0].as_str());
    let mut k: usize = 0;
    proof {
        assert(g.take(1).len() == 1);
        assert(f.take(0).len() == 0);
    }
    while k < fills.len()
        invariant
            k <= fills.len(),
            gaps.len() == fills.len() + 1,
            g == gaps.deep_view(),
            f == fills.deep_view(),
            out@ == interleave(g.take(k + 1), f.take(k as int)),
        decreases fills.len() - k,
    {
        out.append(fills[k].as_str());
        out.append(gaps[k + 1].as_str());
        proof {
            let g2 = g.take(k + 2);
            let f2 = f.take(k + 1);
            assert(g2.take(f2.len() as int) == g.take(k + 1));
            assert(f2.drop_last() == f.take(k as int));
        }
        k += 1;
    }
    proof {
        assert(g.take(k + 1) == g);
        assert(f.take(k as int) == f);
    }
    out
}

/// The text of the whole match of one set of captures.
pub(crate) fn whole_text(c: &Vec<Option<Group>>) -> (t: &String)
    requires
        c.len() > 0,
        c@[0] is Some,
    ensures
        t@ == whole(c.deep_view()).2,
{
    let g = c[0].as_ref().unwrap();
    &g.2
}

/// Whether a matched inner tag is a `<br>`.
fn is_br_tag(t: &String) -> (b: bool)
    ensures
        b == is_br(t@),
{
    let cs = chars_of(t.as_str());
    cs.len() >= 3 && cs[0] == '<' && to_ascii_lower(cs[1]) == 'b' && to_ascii_lower(cs[2]) == 'r'
}

/// A block body without its `<code>`/`<span>` tags (`<br>` becomes a
/// newline), HTML entities decoded.
pub fn strip_inner_markup(body: &str) -> (res: String)
    ensures
        res@ == strip_inner(body@),
        regex_captures(INNER_TAG_PATTERN@, body@).len() == 0 ==> res@ == html_unescape(body@),
{
    let pieces = split(INNER_TAG_PATTERN, body);
    let caps = captures(INNER_TAG_PATTERN, body);
    let ghost cv = caps.deep_view();
    let mut fills: Vec<String> = Vec::new();
    let mut k: usize = 0;
    while k < caps.len()
        invariant
            k <= caps.len(),
            cv == caps.deep_view(),
            forall|i: int| 0 <= i < caps.len() ==> (#[trigger] cv[i]).len() > 0 && cv[i][0] is Some,
            fills.deep_view() == inner_fills(cv).take(k as int),
        decreases caps.len() - k,
    {
        proof {
            assert(cv[k as int] == caps@[k as int].deep_view());
        }
        let t = whole_text(&caps[k]);
        let fill = if is_br_tag(t) {
            string_from_literal("\n")
        } else {
            String::new()
        };
        let ghost before = fills.deep_view();
        proof {
            reveal_strlit("\n");
        }
        proof {
            assert(fill@ =~= inner_fill(whole(cv[k as int]).2));
        }
        fills.push(fill);
        proof {
            assert(fills.deep_view() == before.push(fill@));
            assert(inner_fills(cv).take(k + 1) == inner_fills(cv).take(k as int).push(
                inner_fill(whole(cv[k as int]).2),
            ));
        }
        k += 1;
    }
    proof {
        assert(inner_fills(cv).take(k as int) == inner_fills(cv));
    }
    let joined = join_pieces(&pieces, &fills);
    decode_html_entities(joined.as_str())
}

/// The byte range of the whole match of one set of captures.
pub(crate) fn whole_span(c: &Vec<Option<Group>>) -> (r: (usize, usize))
    requires
        c.len() > 0,
        c@[0] is Some,
    ensures
        r.0 == whole(c.deep_view()).0,
        r.1 == whole(c.deep_view()).1,
{
    let g = c[0].as_ref().unwrap();
    (g.0, g.1)
}

/// Appends the whole-match ranges of `caps` to `out`.
pub(crate) fn push_spans(out: &mut Vec<(usize, usize)>, caps: &Vec<Vec<Option<Group>>>)
    requires
        forall|i: int|
            0 <= i < caps.len() ==> (#[trigger] caps.deep_view()[i]).len() > 0
                && caps.deep_view()[i][0] is Some,
    ensures
        final(out)@ == old(out)@ + spans(caps.deep_view()),
{
    let ghost cv = caps.deep_view();
    let ghost start = out@;
    let mut k: usize = 0;
    while k < caps.len()
        invariant
            k <= caps.len(),
            cv == caps.deep_view(),
            forall|i: int| 0 <= i < caps.len() ==> (#[trigger] cv[i]).len() > 0 && cv[i][0] is Some,
            out@ == start + spans(cv).take(k as int),
        decreases caps.len() - k,
    {
        proof {
            assert(cv[k as int] == caps@[k as int].deep_view());
        }
        let r = whole_span(&caps[k]);
        out.push(r);
        proof {
            assert(spans(cv).take(k + 1) == spans(cv).take(k as int).push(r));
        }
        k += 1;
    }
    proof {
        assert(spans(cv).take(k as int) == spans(cv));
    }
}

pub(crate) proof fn lemma_in_spans_same_elements(a: Seq<(usize, usize)>, b: Seq<(usize, usize)>, pos: usize)
    requires
        a.to_multiset() == b.to_multiset(),
    ensures
        in_spans(a, pos) == in_spans(b, pos),
{
    broadcast use vstd::seq_lib::to_multiset_contains;

    if in_spans(a, pos) {
        let k = choose|k: int| 0 <= k < a.len() && (#[trigger] a[k]).0 <= pos && pos < a[k].1;
        assert(a.contains(a[k]));
        assert(a.to_multiset().count(a[k]) > 0);
        assert(b.to_multiset().count(a[k]) > 0);
        assert(b.contains(a[k]));
        let j = choose|j: int| 0 <= j < b.len() && b[j] == a[k];
        assert(b[j].0 <= pos && pos < b[j].1);
    }
    if in_spans(b, pos) {
        let k = choose|k: int| 0 <= k < b.len() && (#[trigger] b[k]).0 <= pos && pos < b[k].1;
        assert(b.contains(b[k]));
        assert(b.to_multiset().count(b[k]) > 0);
        assert(a.to_multiset().count(b[k]) > 0);
        assert(a.contains(b[k]));
        let j = choose|j: int| 0 <= j < a.len() && a[j] == b[k];
        assert(a[j].0 <= pos && pos < a[j].1);
    }
}

/// The byte ranges of the `<script>` elements and comments of `html`,
/// ordered by their start.
pub fn protected_spans(html: &str) -> (res: Vec<(usize, usize)>)
    ensures
        sorted_by_start(res@),
        res@.to_multiset() == protected_regions(html@).to_multiset(),
{
    let scripts = captures(SCRIPT_PATTERN, html);
    let comments = captures(COMMENT_PATTERN, html);
    let mut all: Vec<(usize, usize)> = Vec::new();
    push_spans(&mut all, &scripts);
    push_spans(&mut all, &comments);
    proof {
        assert(all@ == protected_regions(html@));
    }
    let mut res: Vec<(usize, usize)> = Vec::new();
    let mut k: usize = 0;
    proof {
        assert(all@.take(0) =~= Seq::<(usize, usize)>::empty());
    }
    while k < all.len()
        invariant
            k <= all.len(),
            all@ == protected_regions(html@),
            sorted_by_start(res@),
            res@.to_multiset() == all@.take(k as int).to_multiset(),
        decreases all.len() - k,
    {
        let x = all[k];
        let mut p = res.len();
        while p > 0 && res[p - 1].0 > x.0
            invariant
                p <= res.len(),
                forall|i: int| p <= i < res.len() ==> (#[trigger] res@[i]).0 > x.0,
            decreases p,
        {
            p -= 1;
        }
        let ghost old_res = res@;
        res.insert(p, x);
        proof {
            assert(all@.take(k + 1) == all@.take(k as int).push(x));
            assert(res@ == old_res.insert(p as int, x));
            vstd::seq_lib::to_multiset_insert(old_res, p as int, x);
            vstd::seq_lib::to_multiset_build(all@.take(k as int), x);
            assert(res@.to_multiset() == old_res.to_multiset().insert(x));
            assert(all@.take(k as int).push(x).to_multiset() == all@.take(
                k as int,
            ).to_multiset().insert(x));
            assert forall|i: int, j: int| 0 <= i < j < res@.len() implies (#[trigger] res@[i]).0
                <= (#[trigger] res@[j]).0 by {
                if j < p {
                } else if j == p {
                    if i < p {
                        assert(old_res[i].0 <= old_res[p - 1].0);
                    }
                } else if i < p {
                    assert(res@[j] == old_res[j - 1]);
                    if p > 0 {
                        assert(old_res[i].0 <= old_res[p - 1].0);
                    }
                } else if i == p {
                    assert(res@[j] == old_res[j - 1]);
                } else {
                    assert(res@[j] == old_res[j - 1]);
                    assert(res@[i] == old_res[i - 1]);
                }
            }
        }
        k += 1;
    }
    proof {
        assert(all@.take(k as int) == all@);
    }
    res
}

/// Whether `pos` lies in one of `spans`.
pub fn is_protected(spans: &Vec<(usize, usize)>, pos: usize) -> (b: bool)
    ensures
        b == in_spans(spans@, pos),
{
    let mut k: usize = 0;
    while k < spans.len()
        invariant
            k <= spans.len(),
            forall|i: int| 0 <= i < k ==> !((#[trigger] spans@[i]).0 <= pos && pos < spans@[i].1),
        decreases spans.len() - k,
    {
        if spans[k].0 <= pos && pos < spans[k].1 {
            return true;
        }
        k += 1;
    }
    false
}

/// The text of group `i` of one set of captures, if it took part.
fn group_of(c: &Vec<Option<Group>>, i: usize) -> (r: Option<&String>)
    ensures
        match (r, group_text(c.deep_view(), i as int)) {
            (Some(t), Some(v)) => t@ == v,
            (None, None) => true,
            _ => false,
        },
{
    if i < c.len() {
        match &c[i] {
            Some(g) => Some(&g.2),
            None => None,
        }
    } else {
        None
    }
}

/// The mermaid source of a block match: its body without inner markup,
/// entities decoded.
pub(crate) fn source_of(c: &Vec<Option<Group>>) -> (res: String)
    ensures
        res@ == block_source(c.deep_view()),
{
    let empty = String::new();
    let body = match group_of(c, 1) {
        Some(t) => t,
        None => match group_of(c, 2) {
            Some(t) => t,
            None => match group_of(c, 3) {
                Some(t) => t,
                None => &empty,
            },
        },
    };
    strip_inner_markup(body.as_str())
}

/// Extracts the mermaid sources of an HTML document, in order, without
/// changing it.  Blocks inside `<script>` bodies and comments, and blocks
/// whose source is blank, are left out.
pub fn extract_from_html(html: &str) -> (blocks: Vec<Block>)
    ensures
        sources(blocks@) == html_blocks(html@),
{
    let prot = protected_spans(html);
    let caps = captures(BLOCK_PATTERN, html);
    let ghost cv = caps.deep_view();
    let ghost pr = protected_regions(html@);
    let mut blocks: Vec<Block> = Vec::new();
    let mut k: usize = 0;
    proof {
        assert(cv.take(0) =~= Seq::<Seq<Option<GroupView>>>::empty());
        assert(sources(blocks@) =~= Seq::<Seq<char>>::empty());
    }
    while k < caps.len()
        invariant
            k <= caps.len(),
            cv == caps.deep_view(),
            forall|i: int| 0 <= i < caps.len() ==> (#[trigger] cv[i]).len() > 0 && cv[i][0] is Some,
            prot@.to_multiset() == pr.to_multiset(),
            sources(blocks@) == candidates(cv.take(k as int), pr),
        decreases caps.len() - k,
    {
        proof {
            assert(cv[k as int] == caps@[k as int].deep_view());
            assert(cv.take(k + 1).drop_last() == cv.take(k as int));
            assert(cv.take(k + 1).last() == cv[k as int]);
        }
        let r = whole_span(&caps[k]);
        proof {
            lemma_in_spans_same_elements(prot@, pr, r.0);
        }
        if !is_protected(&prot, r.0) {
            let src = source_of(&caps[k]);
            let cs = chars_of(src.as_str());
            proof {
                assert(cs@.skip(0) == cs@);
            }
            if !all_ws_from(&cs, 0) {
                let ghost before = sources(blocks@);
                blocks.push(Block { source: src });
                proof {
                    assert(sources(blocks@) =~= before + seq![block_source(cv[k as int])]);
                }
            }
        }
        k += 1;
    }
    proof {
        assert(cv.take(k as int) == cv);
    }
    blocks
}

/// Whether a `<script>` element loads or starts mermaid: its `src` URL
/// names mermaid, it calls `mermaid.initialize()`/`mermaid.run()`, or it
/// imports a mermaid module.  Mere co-occurrence of words (such as
/// "important" next to "mermaid" in a comment) does not count.
pub open spec fn mermaid_script(script: Seq<char>) -> bool {
    ||| regex_is_match(MERMAID_SRC_PATTERN@, script)
    ||| regex_is_match(MERMAID_CALL_PATTERN@, script)
    ||| regex_is_match(MERMAID_IMPORT_PATTERN@, script)
}

/// Whether a `<script>` element loads or starts mermaid.
pub fn is_mermaid_script(script: &str) -> (b: bool)
    ensures
        b == mermaid_script(script@),
{
    is_match(MERMAID_SRC_PATTERN, script) || is_match(MERMAID_CALL_PATTERN, script) || is_match(
        MERMAID_IMPORT_PATTERN,
        script,
    )
}

/// The page with the style sheet: unchanged when it already holds it;
/// otherwise the sheet goes right before the first `</head>`, or at the
/// very start when there is none.
pub open spec fn styled(html: Seq<char>) -> Seq<char> {
    if has_sub(html, STYLE_MARKER@) {
        html
    } else if regex_captures(HEAD_PATTERN@, html).len() == 0 {
        STYLE@ + html
    } else {
        let g = regex_split(HEAD_PATTERN@, html)[0];
        g + STYLE@ + html.skip(g.len() as int)
    }
}

/// The first piece of an interleaving is a prefix of it.
pub proof fn lemma_interleave_prefix(g: Seq<Seq<char>>, f: Seq<Seq<char>>)
    requires
        g.len() == f.len() + 1,
    ensures
        g[0].len() <= interleave(g, f).len(),
        interleave(g, f).take(g[0].len() as int) == g[0],
    decreases f.len(),
{
    if f.len() > 0 {
        let g2 = g.take(f.len() as int);
        lemma_interleave_prefix(g2, f.drop_last());
        assert(g2[0] == g[0]);
        let a = interleave(g2, f.drop_last());
        let b = a + f.last() + g[f.len() as int];
        assert(b.take(g[0].len() as int) =~= a.take(g[0].len() as int));
    }
}

/// The style sheet holds its marker.
pub proof fn lemma_style_has_marker()
    ensures
        has_sub(STYLE@, STYLE_MARKER@),
{
    reveal_strlit("<style id=\"jmmview-style\">.jmmview-diagram{margin:1.5em auto;text-align:center;overflow-x:auto;}.jmmview-diagram>svg{max-width:100%;height:auto;}.jmmview-diagram details{text-align:left;font-size:0.85em;margin-top:0.5em;}.jmmview-diagram details pre{background:rgba(127,127,127,0.1);padding:0.75em;border-radius:6px;overflow-x:auto;}</style>");
    reveal_strlit("id=\"jmmview-style\"");
    assert(STYLE@.subrange(7, 7 + STYLE_MARKER@.len() as int) =~= STYLE_MARKER@);
}

/// A styled page holds the style marker.
pub proof fn lemma_styled_has_marker(html: Seq<char>)
    ensures
        has_sub(styled(html), STYLE_MARKER@),
{
    lemma_style_has_marker();
    if !has_sub(html, STYLE_MARKER@) {
        if regex_captures(HEAD_PATTERN@, html).len() == 0 {
            lemma_has_sub_concat(seq![], STYLE@, html, STYLE_MARKER@);
            assert(Seq::<char>::empty() + STYLE@ + html == STYLE@ + html);
        } else {
            let g = regex_split(HEAD_PATTERN@, html)[0];
            lemma_has_sub_concat(g, STYLE@, html.skip(g.len() as int), STYLE_MARKER@);
        }
    }
}

/// Styling a page twice is styling it once.
pub proof fn law_style_injection_idempotent(html: Seq<char>)
    ensures
        styled(styled(html)) == styled(html),
{
    lemma_styled_has_marker(html);
}

/// The characters of `cs` from `from` on, as a string.
fn suffix_string(cs: &Vec<char>, from: usize) -> (s: String)
    requires
        from <= cs.len(),
    ensures
        s@ == cs@.skip(from as int),
{
    let mut v: Vec<char> = Vec::new();
    let mut i = from;
    while i < cs.len()
        invariant
            from <= i <= cs.len(),
            v@ == cs@.subrange(from as int, i as int),
        decreases cs.len() - i,
    {
        v.push(cs[i]);
        i += 1;
    }
    string_of(v.as_slice())
}

/// Puts the style sheet for inlined diagrams into the page, unless it is
/// already there: right before `</head>`, or at the start of the page.
pub fn inject_style(html: &str) -> (res: String)
    ensures
        res@ == styled(html@),
{
    let cs = chars_of(html);
    let marker = chars_of(STYLE_MARKER);
    if contains_seq(&cs, &marker) {
        return string_from_literal(html);
    }
    let caps = captures(HEAD_PATTERN, html);
    let mut out = String::new();
    if caps.len() == 0 {
        out.append(STYLE);
        out.append(html);
    } else {
        let pieces = split(HEAD_PATTERN, html);
        proof {
            lemma_interleave_prefix(
                pieces.deep_view(),
                match_texts(regex_captures(HEAD_PATTERN@, html@)),
            );
        }
        let head = chars_of(pieces[0].as_str());
        let rest = suffix_string(&cs, head.len());
        out.append(pieces[0].as_str());
        out.append(STYLE);
        out.append(rest.as_str());
    }
    out
}

/// A `String` holding the literal `s`.
fn string_from_literal(s: &str) -> (r: String)
    ensures
        r@ == s@,
{
    let mut r = String::new();
    r.append(s);
    r
}

} // verus!
