//! Rewriting an HTML page: mermaid blocks become inline SVG figures, and the
//! mermaid CDN and start-up `<script>` elements are removed.

use vstd::prelude::*;
use vstd::string::StringExecFns;

use crate::entities::{escape_html, escape_text};
use crate::extract::html::{
    block_source, candidates, html_blocks, in_spans, is_candidate, is_mermaid_script,
    inject_style, is_protected, join_pieces, mermaid_script, protected_regions, protected_spans,
    source_of, spans, styled, whole_span, whole_text, Caps, BLOCK_PATTERN, COMMENT_PATTERN,
    SCRIPT_PATTERN,
};
use crate::extract::html::extract_from_html;
use crate::extract::sources;
use crate::pattern::{
    captures, interleave, match_texts, regex_captures, regex_split, split, whole, GroupView,
};
use crate::text::{all_ws_from, chars_of, decimal, decimal_string};

verus! {

/// What the renderer made of one block: the SVG markup; `None` when the
/// source is not recognized as a mermaid diagram; or an error message.
pub type Outcome = Result<Option<String>, String>;

/// The result of rewriting an HTML document.
pub struct RewriteReport {
    pub html: String,
    pub rendered: usize,
    pub failed: Vec<String>,
    pub scripts_removed: usize,
}

pub const FIGURE_OPEN: &'static str = "<figure class=\"jmmview-diagram\">";

pub const FIGURE_CLOSE: &'static str = "</figure>";

pub const DETAILS_OPEN: &'static str = "<details><summary>mermaid source</summary><pre>";

pub const DETAILS_CLOSE: &'static str = "</pre></details>";

pub const BLOCK_WORD: &'static str = "block ";

pub const NOT_RECOGNIZED: &'static str = ": not recognized as a mermaid diagram";

pub const COLON: &'static str = ": ";

/// The figure that replaces a rendered block; with `keep`, the escaped
/// source follows the SVG in a collapsed `<details>` element.
pub open spec fn figure(svg: Seq<char>, src: Seq<char>, keep: bool) -> Seq<char> {
    FIGURE_OPEN@ + svg + (if keep {
        DETAILS_OPEN@ + escape_text(src) + DETAILS_CLOSE@
    } else {
        seq![]
    }) + FIGURE_CLOSE@
}

/// What stands in place of a block: its figure when it was rendered, the
/// block itself otherwise.
pub open spec fn block_fill(text: Seq<char>, src: Seq<char>, o: Outcome, keep: bool) -> Seq<char> {
    match o {
        Ok(Some(svg)) => figure(svg@, src, keep),
        _ => text,
    }
}

/// What stands in place of each block match: the `k`-th block that counts
/// gets the `k`-th outcome; the other matches stay as they are.
pub open spec fn block_fills(caps: Caps, prot: Seq<(usize, usize)>, outs: Seq<Outcome>, keep: bool) -> Seq<
    Seq<char>,
>
    decreases caps.len(),
{
    if caps.len() == 0 {
        seq![]
    } else {
        let c = caps.last();
        let fill = if is_candidate(c, prot) {
            block_fill(
                whole(c).2,
                block_source(c),
                outs[candidates(caps.drop_last(), prot).len() as int],
                keep,
            )
        } else {
            whole(c).2
        };
        block_fills(caps.drop_last(), prot, outs, keep).push(fill)
    }
}

/// The warning for the block numbered `index` (from 1), if it failed.
pub open spec fn failure_message(index: nat, o: Outcome) -> Seq<Seq<char>> {
    match o {
        Ok(Some(_)) => seq![],
        Ok(None) => seq![BLOCK_WORD@ + decimal(index) + NOT_RECOGNIZED@],
        Err(e) => seq![BLOCK_WORD@ + decimal(index) + COLON@ + e@],
    }
}

/// The warnings for the blocks that failed, in order.
pub open spec fn failures(outs: Seq<Outcome>) -> Seq<Seq<char>>
    decreases outs.len(),
{
    if outs.len() == 0 {
        seq![]
    } else {
        failures(outs.drop_last()) + failure_message(outs.len(), outs.last())
    }
}

/// How many blocks were rendered.
pub open spec fn rendered_count(outs: Seq<Outcome>) -> nat
    decreases outs.len(),
{
    if outs.len() == 0 {
        0
    } else {
        rendered_count(outs.drop_last()) + if outs.last() matches Ok(Some(_)) {
            1nat
        } else {
            0nat
        }
    }
}

/// Whether a `<script>` match goes: it loads or starts mermaid and does not
/// stand inside a comment.
pub open spec fn is_removed(c: Seq<Option<GroupView>>, comments: Seq<(usize, usize)>) -> bool {
    !in_spans(comments, whole(c).0) && mermaid_script(whole(c).2)
}

/// What stands in place of a `<script>` match.
pub open spec fn script_fill(c: Seq<Option<GroupView>>, comments: Seq<(usize, usize)>) -> Seq<char> {
    if is_removed(c, comments) {
        seq![]
    } else {
        whole(c).2
    }
}

/// How many of the `<script>` matches go.
pub open spec fn removed_count(caps: Caps, comments: Seq<(usize, usize)>) -> nat
    decreases caps.len(),
{
    if caps.len() == 0 {
        0
    } else {
        removed_count(caps.drop_last(), comments) + if is_removed(caps.last(), comments) {
            1nat
        } else {
            0nat
        }
    }
}

/// The comments of a page.
pub open spec fn comment_spans(h: Seq<char>) -> Seq<(usize, usize)> {
    spans(regex_captures(COMMENT_PATTERN@, h))
}

/// The page without its mermaid `<script>` elements.
pub open spec fn strip_scripts(h: Seq<char>) -> Seq<char> {
    interleave(
        regex_split(SCRIPT_PATTERN@, h),
        regex_captures(SCRIPT_PATTERN@, h).map_values(
            |c: Seq<Option<GroupView>>| script_fill(c, comment_spans(h)),
        ),
    )
}

/// How many mermaid `<script>` elements the page holds.
pub open spec fn scripts_in(h: Seq<char>) -> nat {
    removed_count(regex_captures(SCRIPT_PATTERN@, h), comment_spans(h))
}

/// The page with every block replaced by its fill.
pub open spec fn replaced_html(html: Seq<char>, keep: bool, outs: Seq<Outcome>) -> Seq<char> {
    interleave(
        regex_split(BLOCK_PATTERN@, html),
        block_fills(regex_captures(BLOCK_PATTERN@, html), protected_regions(html), outs, keep),
    )
}

/// The rewritten page: blocks replaced; mermaid scripts removed only when
/// no block failed; the style sheet added when some block was rendered.
pub open spec fn rewritten_html(html: Seq<char>, keep: bool, outs: Seq<Outcome>) -> Seq<char> {
    let r = replaced_html(html, keep, outs);
    let s = if failures(outs).len() == 0 {
        strip_scripts(r)
    } else {
        r
    };
    if rendered_count(outs) > 0 {
        styled(s)
    } else {
        s
    }
}

/// How many scripts the rewrite removes.
pub open spec fn removed_scripts(html: Seq<char>, keep: bool, outs: Seq<Outcome>) -> nat {
    if failures(outs).len() == 0 {
        scripts_in(replaced_html(html, keep, outs))
    } else {
        0
    }
}

/// The report of rewriting `html` when the blocks that count got `outs`.
pub open spec fn report_matches(
    r: RewriteReport,
    html: Seq<char>,
    keep: bool,
    outs: Seq<Outcome>,
) -> bool {
    &&& r.html@ == rewritten_html(html, keep, outs)
    &&& r.rendered == rendered_count(outs)
    &&& r.failed.deep_view() == failures(outs)
    &&& r.scripts_removed == removed_scripts(html, keep, outs)
}

pub proof fn lemma_candidates_prefix(caps: Caps, prot: Seq<(usize, usize)>, k: int)
    requires
        0 <= k <= caps.len(),
    ensures
        candidates(caps.take(k), prot).len() <= candidates(caps, prot).len(),
    decreases caps.len() - k,
{
    if k < caps.len() {
        lemma_candidates_prefix(caps, prot, k + 1);
        assert(caps.take(k + 1).drop_last() == caps.take(k));
    } else {
        assert(caps.take(k) == caps);
    }
}

pub proof fn lemma_rendered_count_bound(outs: Seq<Outcome>)
    ensures
        rendered_count(outs) <= outs.len(),
    decreases outs.len(),
{
    if outs.len() > 0 {
        lemma_rendered_count_bound(outs.drop_last());
    }
}

/// Every outcome is either a rendering or a warning.
pub proof fn lemma_outcome_counts(outs: Seq<Outcome>)
    ensures
        rendered_count(outs) + failures(outs).len() == outs.len(),
    decreases outs.len(),
{
    if outs.len() > 0 {
        lemma_outcome_counts(outs.drop_last());
    }
}

/// With no rendering among the outcomes, nothing is counted as rendered.
pub proof fn lemma_none_rendered(outs: Seq<Outcome>)
    requires
        forall|k: int| 0 <= k < outs.len() ==> !(#[trigger] outs[k] matches Ok(Some(_))),
    ensures
        rendered_count(outs) == 0,
    decreases outs.len(),
{
    if outs.len() > 0 {
        lemma_none_rendered(outs.drop_last());
    }
}

/// With no rendering among the outcomes, every block match stays as it is.
pub proof fn lemma_fills_unchanged(
    caps: Caps,
    prot: Seq<(usize, usize)>,
    outs: Seq<Outcome>,
    keep: bool,
)
    requires
        candidates(caps, prot).len() <= outs.len(),
        forall|k: int| 0 <= k < outs.len() ==> !(#[trigger] outs[k] matches Ok(Some(_))),
    ensures
        block_fills(caps, prot, outs, keep) == match_texts(caps),
    decreases caps.len(),
{
    if caps.len() > 0 {
        lemma_candidates_prefix(caps, prot, caps.len() - 1);
        assert(caps.take(caps.len() - 1) == caps.drop_last());
        lemma_fills_unchanged(caps.drop_last(), prot, outs, keep);
        assert(match_texts(caps) == match_texts(caps.drop_last()).push(whole(caps.last()).2));
    }
}

/// Every block of the page is either rendered or reported as failed.
pub proof fn law_every_block_rendered_or_reported(
    r: RewriteReport,
    html: Seq<char>,
    keep: bool,
    outs: Seq<Outcome>,
)
    requires
        outs.len() == html_blocks(html).len(),
        report_matches(r, html, keep, outs),
    ensures
        r.rendered + r.failed.len() == html_blocks(html).len(),
{
    lemma_outcome_counts(outs);
    assert(r.failed.len() == r.failed.deep_view().len());
}

/// When a block failed, no script is removed: the page keeps what the
/// browser needs to draw the block itself.
pub proof fn law_scripts_kept_when_a_block_fails(
    r: RewriteReport,
    html: Seq<char>,
    keep: bool,
    outs: Seq<Outcome>,
)
    requires
        report_matches(r, html, keep, outs),
        r.failed.len() > 0,
    ensures
        r.scripts_removed == 0,
{
    assert(r.failed.len() == r.failed.deep_view().len());
}

/// When a block failed, the rewrite only replaces the rendered blocks (and
/// adds the style sheet when one was rendered): no `<script>` element goes,
/// and every text outside the blocks stays as it was.  Conversely, when a
/// script was removed, no block failed.
pub proof fn law_failed_rewrite_keeps_scripts(
    r: RewriteReport,
    html: Seq<char>,
    keep: bool,
    outs: Seq<Outcome>,
)
    requires
        report_matches(r, html, keep, outs),
    ensures
        r.failed.len() > 0 ==> r.scripts_removed == 0 && r.html@ == (if r.rendered > 0 {
            styled(replaced_html(html, keep, outs))
        } else {
            replaced_html(html, keep, outs)
        }),
        r.scripts_removed > 0 ==> r.failed.len() == 0,
{
    assert(r.failed.len() == r.failed.deep_view().len());
}

/// A page into which some diagram was inlined holds the style sheet.
pub proof fn law_rendered_page_has_style(
    r: RewriteReport,
    html: Seq<char>,
    keep: bool,
    outs: Seq<Outcome>,
)
    requires
        report_matches(r, html, keep, outs),
        r.rendered > 0,
    ensures
        crate::text::has_sub(r.html@, crate::extract::html::STYLE_MARKER@),
{
    let rr = replaced_html(html, keep, outs);
    let s = if failures(outs).len() == 0 {
        strip_scripts(rr)
    } else {
        rr
    };
    crate::extract::html::lemma_styled_has_marker(s);
}

/// A `String` holding the literal `s`.
fn owned(s: &str) -> (r: String)
    ensures
        r@ == s@,
{
    let mut r = String::new();
    r.append(s);
    r
}

/// The warning for a block numbered `index` that failed with `o`.
fn failure_text(index: usize, o: &Outcome) -> (r: String)
    requires
        !(o matches Ok(Some(_))),
    ensures
        seq![r@] == failure_message(index as nat, *o),
{
    let mut r = owned(BLOCK_WORD);
    let n = decimal_string(index);
    r.append(n.as_str());
    match o {
        Ok(_) => {
            r.append(NOT_RECOGNIZED);
        },
        Err(e) => {
            r.append(COLON);
            r.append(e.as_str());
        },
    }
    r
}

/// The figure for a rendered block.
fn figure_text(svg: &String, src: &String, keep: bool) -> (r: String)
    ensures
        r@ == figure(svg@, src@, keep),
{
    let mut r = owned(FIGURE_OPEN);
    r.append(svg.as_str());
    if keep {
        r.append(DETAILS_OPEN);
        let e = escape_html(src.as_str());
        r.append(e.as_str());
        r.append(DETAILS_CLOSE);
    }
    r.append(FIGURE_CLOSE);
    r
}

/// Removes the `<script>` elements of `h` that load or start mermaid (not
/// those inside comments), and counts them.
fn strip_mermaid_scripts(h: &str) -> (r: (String, usize))
    ensures
        r.0@ == strip_scripts(h@),
        r.1 == scripts_in(h@),
{
    let comment_caps = captures(COMMENT_PATTERN, h);
    let mut comments: Vec<(usize, usize)> = Vec::new();
    crate::extract::html::push_spans(&mut comments, &comment_caps);
    proof {
        assert(comments@ == comment_spans(h@));
    }
    let caps = captures(SCRIPT_PATTERN, h);
    let pieces = split(SCRIPT_PATTERN, h);
    let ghost cv = caps.deep_view();
    let ghost all_fills = cv.map_values(
        |c: Seq<Option<GroupView>>| script_fill(c, comment_spans(h@)),
    );
    let mut fills: Vec<String> = Vec::new();
    let mut removed: usize = 0;
    let mut k: usize = 0;
    proof {
        assert(cv.take(0) =~= Seq::<Seq<Option<GroupView>>>::empty());
    }
    while k < caps.len()
        invariant
            k <= caps.len(),
            cv == caps.deep_view(),
            forall|i: int| 0 <= i < caps.len() ==> (#[trigger] cv[i]).len() > 0 && cv[i][0] is Some,
            comments@ == comment_spans(h@),
            all_fills == cv.map_values(
                |c: Seq<Option<GroupView>>| script_fill(c, comment_spans(h@)),
            ),
            fills.deep_view() == all_fills.take(k as int),
            fills.len() == k,
            pieces.len() == caps.len() + 1,
            removed == removed_count(cv.take(k as int), comment_spans(h@)),
            removed <= k,
        decreases caps.len() - k,
    {
        proof {
            assert(cv[k as int] == caps@[k as int].deep_view());
            assert(cv.take(k + 1).drop_last() == cv.take(k as int));
            assert(cv.take(k + 1).last() == cv[k as int]);
        }
        let r = whole_span(&caps[k]);
        let t = whole_text(&caps[k]);
        let ghost before = fills.deep_view();
        if !is_protected(&comments, r.0) && is_mermaid_script(t.as_str()) {
            fills.push(String::new());
            removed += 1;
        } else {
            fills.push(t.clone());
        }
        proof {
            assert(all_fills[k as int] == script_fill(cv[k as int], comment_spans(h@)));
            assert(fills.deep_view() =~= all_fills.take(k + 1));
        }
        k += 1;
    }
    proof {
        assert(all_fills.take(k as int) == all_fills);
        assert(cv.take(k as int) == cv);
    }
    (join_pieces(&pieces, &fills), removed)
}

/// Replaces every mermaid block of `html` that counts by the figure of its
/// outcome (the `k`-th block of `extract_from_html` gets `outcomes[k]`),
/// removes the mermaid `<script>` elements when no block failed, and adds
/// the style sheet when some block was rendered.
pub fn rewrite_html_with(html: &str, keep_source: bool, outcomes: &Vec<Outcome>) -> (report:
    RewriteReport)
    requires
        outcomes.len() == html_blocks(html@).len(),
    ensures
        report_matches(report, html@, keep_source, outcomes@),
        outcomes.len() > 0 && (forall|k: int|
            0 <= k < outcomes.len() ==> !(#[trigger] outcomes@[k] matches Ok(Some(_))))
            ==> report.html@ == html@,
{
    let ghost outs = outcomes@;
    let n_out = outcomes.len();
    let prot = protected_spans(html);
    let caps = captures(BLOCK_PATTERN, html);
    let pieces = split(BLOCK_PATTERN, html);
    let ghost cv = caps.deep_view();
    let ghost pr = protected_regions(html@);
    let mut fills: Vec<String> = Vec::new();
    let mut failed: Vec<String> = Vec::new();
    let mut rendered: usize = 0;
    let mut cand: usize = 0;
    let mut k: usize = 0;
    proof {
        assert(cv.take(0) =~= Seq::<Seq<Option<GroupView>>>::empty());
        assert(outs.take(0) =~= Seq::<Outcome>::empty());
        assert(fills.deep_view() =~= Seq::<Seq<char>>::empty());
        assert(failed.deep_view() =~= Seq::<Seq<char>>::empty());
    }
    while k < caps.len()
        invariant
            k <= caps.len(),
            outs == outcomes@,
            n_out == outs.len(),
            outs.len() == candidates(cv, pr).len(),
            cv == caps.deep_view(),
            cv == regex_captures(BLOCK_PATTERN@, html@),
            pr == protected_regions(html@),
            forall|i: int| 0 <= i < caps.len() ==> (#[trigger] cv[i]).len() > 0 && cv[i][0] is Some,
            prot@.to_multiset() == pr.to_multiset(),
            cand == candidates(cv.take(k as int), pr).len(),
            cand <= outs.len(),
            fills.deep_view() == block_fills(cv.take(k as int), pr, outs, keep_source),
            fills.len() == k,
            pieces.len() == caps.len() + 1,
            rendered == rendered_count(outs.take(cand as int)),
            rendered <= cand,
            failed.deep_view() == failures(outs.take(cand as int)),
        decreases caps.len() - k,
    {
        proof {
            assert(cv[k as int] == caps@[k as int].deep_view());
            assert(cv.take(k + 1).drop_last() == cv.take(k as int));
            assert(cv.take(k + 1).last() == cv[k as int]);
            lemma_candidates_prefix(cv, pr, k + 1);
        }
        let r = whole_span(&caps[k]);
        let t = whole_text(&caps[k]);
        proof {
            crate::extract::html::lemma_in_spans_same_elements(prot@, pr, r.0);
        }
        let ghost before_fills = fills.deep_view();
        let mut fill = t.clone();
        if !is_protected(&prot, r.0) {
            let src = source_of(&caps[k]);
            let cs = chars_of(src.as_str());
            proof {
                assert(cs@.skip(0) == cs@);
            }
            if !all_ws_from(&cs, 0) {
                proof {
                    assert(is_candidate(cv[k as int], pr));
                    assert(candidates(cv.take(k + 1), pr).len() == cand + 1);
                    assert(outs.take(cand + 1).drop_last() == outs.take(cand as int));
                    assert(outs.take(cand + 1).last() == outs[cand as int]);
                    lemma_rendered_count_bound(outs.take(cand as int));
                }
                match &outcomes[cand] {
                    Ok(Some(svg)) => {
                        fill = figure_text(svg, &src, keep_source);
                        rendered += 1;
                    },
                    o => {
                        let msg = failure_text(cand + 1, o);
                        let ghost before_failed = failed.deep_view();
                        failed.push(msg);
                        proof {
                            assert(failed.deep_view() =~= before_failed + seq![msg@]);
                        }
                    },
                }
                cand += 1;
            }
        }
        fills.push(fill);
        proof {
            assert(fills.deep_view() =~= before_fills.push(fill@));
        }
        k += 1;
    }
    proof {
        assert(cv.take(k as int) == cv);
        assert(outs.take(cand as int) == outs);
    }
    let replaced = join_pieces(&pieces, &fills);
    proof {
        if outs.len() > 0 && (forall|j: int| 0 <= j < outs.len() ==> !(#[trigger] outs[j] matches Ok(Some(_)))) {
            lemma_fills_unchanged(cv, pr, outs, keep_source);
            lemma_none_rendered(outs);
            lemma_outcome_counts(outs);
            assert(replaced@ == html@);
            assert(failed.len() > 0);
        }
    }
    let mut removed: usize = 0;
    let mut page = replaced;
    if failed.len() == 0 {
        let (stripped, n) = strip_mermaid_scripts(page.as_str());
        page = stripped;
        removed = n;
    }
    if rendered > 0 {
        page = inject_style(page.as_str());
    }
    RewriteReport { html: page, rendered, failed, scripts_removed: removed }
}

/// Replaces every mermaid block of `html` by the SVG that `render` makes of
/// it, and removes the mermaid CDN and start-up `<script>` elements so that
/// the page no longer needs the network.
///
/// The scripts are removed only when every block was rendered: when a block
/// had to stay as raw mermaid source, the scripts stay, so that the browser
/// can still draw it.
///
/// `render` gets the number of the block (from 1) and its mermaid source,
/// and gives the SVG markup, `None` when the source is not a mermaid
/// diagram, or an error message.
pub fn rewrite_html<F: Fn(usize, &str) -> Outcome>(html: &str, keep_source: bool, render: F) -> (report:
    RewriteReport)
    requires
        forall|i: usize, s: &str| render.requires((i, s)),
    ensures
        exists|outs: Seq<Outcome>, args: Seq<&str>|
            #![trigger report_matches(report, html@, keep_source, outs), args.len()]
            {
                &&& outs.len() == html_blocks(html@).len()
                &&& args.len() == outs.len()
                &&& forall|k: int|
                    0 <= k < outs.len() ==> (#[trigger] args[k])@ == html_blocks(html@)[k]
                        && render.ensures(((k + 1) as usize, args[k]), outs[k])
                &&& report_matches(report, html@, keep_source, outs)
            },
        report.rendered + report.failed.len() == html_blocks(html@).len(),
{
    let blocks = extract_from_html(html);
    let ghost bv = sources(blocks@);
    let mut outcomes: Vec<Outcome> = Vec::new();
    let ghost mut args: Seq<&str> = seq![];
    let mut k: usize = 0;
    while k < blocks.len()
        invariant
            k <= blocks.len(),
            bv == sources(blocks@),
            bv == html_blocks(html@),
            forall|i: usize, s: &str| render.requires((i, s)),
            outcomes.len() == k,
            args.len() == k,
            forall|j: int|
                0 <= j < k ==> (#[trigger] args[j])@ == bv[j] && render.ensures(
                    ((j + 1) as usize, args[j]),
                    outcomes@[j],
                ),
        decreases blocks.len() - k,
    {
        let s = blocks[k].source.as_str();
        let o = render(k + 1, s);
        outcomes.push(o);
        proof {
            args = args.push(s);
        }
        k += 1;
    }
    let report = rewrite_html_with(html, keep_source, &outcomes);
    proof {
        assert(bv.len() == blocks@.len());
        assert(outcomes@.len() == html_blocks(html@).len());
        assert(report_matches(report, html@, keep_source, outcomes@));
        assert(args.len() == outcomes@.len());
        law_every_block_rendered_or_reported(report, html@, keep_source, outcomes@);
    }
    report
}

} // verus!
