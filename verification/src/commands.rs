//! The decisions of the command-line workflows that do not touch files:
//! which kind of document an input is, which blocks it yields, how exported
//! files are named, and when a run counts as failed.

use vstd::prelude::*;
use vstd::string::StringExecFns;

use crate::extract::html::{extract_from_html, html_blocks};
use crate::extract::markdown::{extract_from_markdown, markdown_blocks};
use crate::extract::{sources, Block};
use crate::renderer::{extension_of, format_for_path, Format};
use crate::text::{
    ascii_lower, chars_eq, chars_of, decimal, decimal_string, eq_ignore_ascii_case, lower,
    lower_chars, opt_str,
};

verus! {

/// The kind of document an input is.
#[derive(Debug, Clone, Copy, PartialEq, Eq, Structural)]
pub enum InputKind {
    /// Markdown: mermaid fences are extracted.
    Md,
    /// HTML: mermaid elements are extracted.
    Html,
    /// A bare mermaid source: the whole text is one block.
    Mmd,
}

/// The kind that a file extension names (ASCII case ignored): `html` and
/// `htm` are HTML, `mmd` and `mermaid` are mermaid sources, everything else
/// (and a missing extension) is Markdown.
pub open spec fn kind_for_extension(ext: Option<Seq<char>>) -> InputKind {
    match ext {
        Some(e) => {
            let l = lower(e);
            if l == seq!['h', 't', 'm', 'l'] || l == seq!['h', 't', 'm'] {
                InputKind::Html
            } else if l == seq!['m', 'm', 'd'] || l == seq!['m', 'e', 'r', 'm', 'a', 'i', 'd'] {
                InputKind::Mmd
            } else {
                InputKind::Md
            }
        },
        None => InputKind::Md,
    }
}

/// Every ASCII case variant of `html` or `htm` names an HTML document,
/// every variant of `mmd` or `mermaid` a mermaid source, and any other
/// extension (or none) a Markdown document.
pub proof fn law_kind_for_extension(e: Seq<char>)
    ensures
        eq_ignore_ascii_case(e, seq!['h', 't', 'm', 'l']) || eq_ignore_ascii_case(
            e,
            seq!['h', 't', 'm'],
        ) ==> kind_for_extension(Some(e)) == InputKind::Html,
        eq_ignore_ascii_case(e, seq!['m', 'm', 'd']) || eq_ignore_ascii_case(
            e,
            seq!['m', 'e', 'r', 'm', 'a', 'i', 'd'],
        ) ==> kind_for_extension(Some(e)) == InputKind::Mmd,
        !eq_ignore_ascii_case(e, seq!['h', 't', 'm', 'l']) && !eq_ignore_ascii_case(
            e,
            seq!['h', 't', 'm'],
        ) && !eq_ignore_ascii_case(e, seq!['m', 'm', 'd']) && !eq_ignore_ascii_case(
            e,
            seq!['m', 'e', 'r', 'm', 'a', 'i', 'd'],
        ) ==> kind_for_extension(Some(e)) == InputKind::Md,
        kind_for_extension(None) == InputKind::Md,
{
    lemma_lower_eq(e, seq!['h', 't', 'm', 'l']);
    lemma_lower_eq(e, seq!['h', 't', 'm']);
    lemma_lower_eq(e, seq!['m', 'm', 'd']);
    lemma_lower_eq(e, seq!['m', 'e', 'r', 'm', 'a', 'i', 'd']);
}

/// `lower(e)` equals a lower-case word exactly when `e` equals it with ASCII
/// case ignored.
proof fn lemma_lower_eq(e: Seq<char>, w: Seq<char>)
    requires
        forall|i: int| 0 <= i < w.len() ==> 'a' <= #[trigger] w[i] <= 'z',
    ensures
        (lower(e) == w) == eq_ignore_ascii_case(e, w),
{
    if lower(e) == w {
        assert forall|i: int| 0 <= i < e.len() implies ascii_lower(#[trigger] e[i]) == ascii_lower(
            w[i],
        ) by {
            assert(lower(e)[i] == ascii_lower(e[i]));
        }
    }
    if eq_ignore_ascii_case(e, w) {
        assert forall|i: int| 0 <= i < e.len() implies #[trigger] lower(e)[i] == w[i] by {
            assert(ascii_lower(e[i]) == ascii_lower(w[i]));
        }
        assert(lower(e) =~= w);
    }
}

/// The kind of an input: the one given for standard input, else the one
/// that the file's extension names.
pub fn input_kind(is_stdin: bool, extension: Option<&str>, stdin_format: InputKind) -> (k:
    InputKind)
    ensures
        k == if is_stdin {
            stdin_format
        } else {
            kind_for_extension(opt_str(extension))
        },
{
    if is_stdin {
        return stdin_format;
    }
    match extension {
        None => InputKind::Md,
        Some(e) => {
            let l = lower_chars(&chars_of(e));
            proof {
                reveal_strlit("html");
                reveal_strlit("htm");
                reveal_strlit("mmd");
                reveal_strlit("mermaid");
                assert("html"@ =~= seq!['h', 't', 'm', 'l']);
                assert("htm"@ =~= seq!['h', 't', 'm']);
                assert("mmd"@ =~= seq!['m', 'm', 'd']);
                assert("mermaid"@ =~= seq!['m', 'e', 'r', 'm', 'a', 'i', 'd']);
            }
            if chars_eq(&l, &chars_of("html")) || chars_eq(&l, &chars_of("htm")) {
                InputKind::Html
            } else if chars_eq(&l, &chars_of("mmd")) || chars_eq(&l, &chars_of("mermaid")) {
                InputKind::Mmd
            } else {
                InputKind::Md
            }
        },
    }
}

/// The mermaid sources that a document of the given kind yields.
pub open spec fn document_sources(kind: InputKind, text: Seq<char>) -> Seq<Seq<char>> {
    match kind {
        InputKind::Html => html_blocks(text),
        InputKind::Mmd => seq![text],
        InputKind::Md => markdown_blocks(text),
    }
}

/// The mermaid blocks of a document of the given kind.
pub fn document_blocks(kind: InputKind, text: &str) -> (blocks: Vec<Block>)
    ensures
        sources(blocks@) == document_sources(kind, text@),
{
    match kind {
        InputKind::Html => extract_from_html(text),
        InputKind::Mmd => {
            let mut source = String::new();
            source.append(text);
            let v = vec![Block { source }];
            proof {
                assert(sources(v@) =~= seq![text@]);
            }
            v
        },
        InputKind::Md => extract_from_markdown(text),
    }
}

pub const DEFAULT_STEM: &'static str = "diagram";

pub const STDIN_NAME: &'static str = "-";

/// The base name of exported files: the one asked for; else the input's
/// file stem, unless it is missing or `-`; else `diagram`.
pub open spec fn stem_for(asked: Option<Seq<char>>, file_stem: Option<Seq<char>>) -> Seq<char> {
    match asked {
        Some(s) => s,
        None => match file_stem {
            Some(f) => if f == STDIN_NAME@ {
                DEFAULT_STEM@
            } else {
                f
            },
            None => DEFAULT_STEM@,
        },
    }
}

/// The base name of exported files.
pub fn export_stem(asked: Option<&str>, file_stem: Option<&str>) -> (s: String)
    ensures
        s@ == stem_for(opt_str(asked), opt_str(file_stem)),
{
    let mut s = String::new();
    match asked {
        Some(a) => s.append(a),
        None => match file_stem {
            Some(f) => {
                if chars_eq(&chars_of(f), &chars_of(STDIN_NAME)) {
                    s.append(DEFAULT_STEM);
                } else {
                    s.append(f);
                }
            },
            None => s.append(DEFAULT_STEM),
        },
    }
    s
}

/// The name of the file for block `index` (from 0) of `count`: `STEM.EXT`
/// when there is one block, `STEM-N.EXT` (N from 1) otherwise.
pub open spec fn file_name_for(stem: Seq<char>, index: nat, count: nat, format: Format) -> Seq<char> {
    if count == 1 {
        stem + seq!['.'] + extension_of(format)
    } else {
        stem + seq!['-'] + decimal(index + 1) + seq!['.'] + extension_of(format)
    }
}

/// The name of the exported file for block `index` (from 0) of `count`.
pub fn export_file_name(stem: &str, index: usize, count: usize, format: Format) -> (name: String)
    requires
        index < count,
    ensures
        name@ == file_name_for(stem@, index as nat, count as nat, format),
{
    let mut name = String::new();
    name.append(stem);
    if count != 1 {
        name.append("-");
        let n = decimal_string(index + 1);
        name.append(n.as_str());
    }
    name.append(".");
    name.append(format.extension());
    proof {
        reveal_strlit("-");
        reveal_strlit(".");
        assert("-"@ =~= seq!['-']);
        assert("."@ =~= seq!['.']);
    }
    name
}

/// The id of the diagram for block `index` (from 0): `STEM-N`, N from 1.
pub fn diagram_id(stem: &str, index: usize) -> (id: String)
    requires
        index < usize::MAX,
    ensures
        id@ == stem@ + seq!['-'] + decimal(index as nat + 1),
{
    let mut id = String::new();
    id.append(stem);
    id.append("-");
    let n = decimal_string(index + 1);
    id.append(n.as_str());
    proof {
        reveal_strlit("-");
        assert("-"@ =~= seq!['-']);
    }
    id
}

pub const FAILURE_START: &'static str = "block ";

pub const NOT_RECOGNIZED_SHORT: &'static str = ": not recognized as mermaid";

pub const FAILURE_COLON: &'static str = ": ";

/// The warning for an exported block `index` (from 0) that was not
/// written: `None` when the source is not a diagram, or the error.
pub open spec fn export_failure_for(index: nat, error: Option<Seq<char>>) -> Seq<char> {
    match error {
        None => FAILURE_START@ + decimal(index + 1) + NOT_RECOGNIZED_SHORT@,
        Some(e) => FAILURE_START@ + decimal(index + 1) + FAILURE_COLON@ + e,
    }
}

/// The warning for an exported block that was not written.
pub fn export_failure(index: usize, error: Option<&str>) -> (m: String)
    requires
        index < usize::MAX,
    ensures
        m@ == export_failure_for(index as nat, opt_str(error)),
{
    let mut m = String::new();
    m.append(FAILURE_START);
    let n = decimal_string(index + 1);
    m.append(n.as_str());
    match error {
        None => m.append(NOT_RECOGNIZED_SHORT),
        Some(e) => {
            m.append(FAILURE_COLON);
            m.append(e);
        },
    }
    m
}

pub const NO_BLOCKS: &'static str = "no mermaid blocks found in ";

/// The message for a document without mermaid blocks.
pub fn no_blocks_message(input: &str) -> (m: String)
    ensures
        m@ == NO_BLOCKS@ + input@,
{
    let mut m = String::new();
    m.append(NO_BLOCKS);
    m.append(input);
    m
}

pub const ALL_FAILED_START: &'static str = "all ";

pub const FAILED_END: &'static str = " mermaid block(s) failed to render";

/// The outcome of an export: it fails when no file was written, or, in
/// strict mode, when some block failed.
pub open spec fn export_verdict_for(written: nat, failures: nat, blocks: nat, strict: bool) -> Result<
    (),
    Seq<char>,
> {
    if written == 0 {
        Err(ALL_FAILED_START@ + decimal(blocks) + FAILED_END@)
    } else if strict && failures > 0 {
        Err(decimal(failures) + FAILED_END@)
    } else {
        Ok(())
    }
}

/// An export fails exactly when no file was written, or when, in strict
/// mode, at least one block failed; a strict run with a failed block never
/// succeeds, and a run without failed blocks fails only when nothing was
/// written.
pub proof fn law_export_verdict(written: nat, failures: nat, blocks: nat, strict: bool)
    ensures
        export_verdict_for(written, failures, blocks, strict) is Err <==> (written == 0 || (strict
            && failures > 0)),
        written > 0 && strict && failures > 0 ==> export_verdict_for(
            written,
            failures,
            blocks,
            strict,
        ) == Err::<(), Seq<char>>(decimal(failures) + FAILED_END@),
{
}

/// A rewrite run fails exactly in strict mode with at least one failed
/// block.
pub proof fn law_html_verdict(failed: nat, strict: bool)
    ensures
        html_verdict_for(failed, strict) is Err <==> (strict && failed > 0),
{
}

/// Whether an export run succeeded.
pub fn export_verdict(written: usize, failures: usize, blocks: usize, strict: bool) -> (r: Result<
    (),
    String,
>)
    ensures
        match (r, export_verdict_for(written as nat, failures as nat, blocks as nat, strict)) {
            (Ok(()), Ok(())) => true,
            (Err(a), Err(b)) => a@ == b,
            _ => false,
        },
{
    if written == 0 {
        let mut m = String::new();
        m.append(ALL_FAILED_START);
        let n = decimal_string(blocks);
        m.append(n.as_str());
        m.append(FAILED_END);
        return Err(m);
    }
    if strict && failures > 0 {
        let mut m = decimal_string(failures);
        m.append(FAILED_END);
        return Err(m);
    }
    Ok(())
}

/// The outcome of an HTML rewrite: in strict mode, any failed block fails
/// the run.
pub open spec fn html_verdict_for(failed: nat, strict: bool) -> Result<(), Seq<char>> {
    if strict && failed > 0 {
        Err(decimal(failed) + FAILED_END@)
    } else {
        Ok(())
    }
}

/// Whether an HTML rewrite run succeeded.
pub fn html_verdict(failed: usize, strict: bool) -> (r: Result<(), String>)
    ensures
        match (r, html_verdict_for(failed as nat, strict)) {
            (Ok(()), Ok(())) => true,
            (Err(a), Err(b)) => a@ == b,
            _ => false,
        },
{
    if strict && failed > 0 {
        let mut m = decimal_string(failed);
        m.append(FAILED_END);
        Err(m)
    } else {
        Ok(())
    }
}

pub const IN_PLACE_STDIN: &'static str = "--in-place requires a file input, not stdin";

/// Rewriting in place needs a file, not standard input.
pub fn check_in_place(in_place: bool, is_stdin: bool) -> (r: Result<(), String>)
    ensures
        r is Err <==> (in_place && is_stdin),
        r matches Err(m) ==> m@ == IN_PLACE_STDIN@,
{
    if in_place && is_stdin {
        let mut m = String::new();
        m.append(IN_PLACE_STDIN);
        Err(m)
    } else {
        Ok(())
    }
}

/// The format of a single rendering: the one asked for; SVG when neither a
/// format nor an output file is given; else the one the output file's
/// extension names, `None` when it names none.
pub fn render_format(asked: Option<Format>, output: Option<&std::path::Path>) -> (f: Option<Format>)
    ensures
        asked is Some ==> f == asked,
        asked is None && output is None ==> f == Some(Format::Svg),
        asked is None ==> (output matches Some(p) ==> f == format_for_path(p)),
{
    match (asked, output) {
        (Some(f), _) => Some(f),
        (None, None) => Some(Format::Svg),
        (None, Some(path)) => Format::from_extension(path),
    }
}

/// Where a rewritten page goes: back to the input when rewriting in place,
/// else to the output file asked for (`None`: standard output).
pub fn html_target<T>(in_place: bool, input: T, output: Option<T>) -> (t: Option<T>)
    ensures
        t == if in_place {
            Some(input)
        } else {
            output
        },
{
    if in_place {
        Some(input)
    } else {
        output
    }
}

pub const DEFAULT_DIAGRAM_ID: &'static str = "jmmview";

/// The id of a single rendering's diagram: the output file's stem, or
/// `jmmview`.
pub fn render_diagram_id(output_stem: Option<&str>) -> (id: String)
    ensures
        id@ == match opt_str(output_stem) {
            Some(s) => s,
            None => DEFAULT_DIAGRAM_ID@,
        },
{
    let mut id = String::new();
    match output_stem {
        Some(s) => id.append(s),
        None => id.append(DEFAULT_DIAGRAM_ID),
    }
    id
}

} // verus!
