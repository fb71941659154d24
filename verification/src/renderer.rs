//! The decisions around rendering: output formats, background colours and
//! themes.  The rendering itself is done by the `merman` crate, outside
//! this library.

use vstd::prelude::*;
use vstd::string::StringExecFns;

use crate::text::{
    chars_eq, opt_str, opt_string, chars_of, join, join_strings, lower, lower_chars, trim, trim_chars,
};

verus! {

/// An output format.
#[derive(Debug, Clone, Copy, PartialEq, Eq, Structural)]
pub enum Format {
    Svg,
    Png,
    Jpeg,
    Pdf,
}

/// The format that a file extension names (ASCII case ignored).
pub open spec fn format_for_extension(ext: Seq<char>) -> Option<Format> {
    let e = lower(ext);
    if e == seq!['s', 'v', 'g'] {
        Some(Format::Svg)
    } else if e == seq!['p', 'n', 'g'] {
        Some(Format::Png)
    } else if e == seq!['j', 'p', 'g'] || e == seq!['j', 'p', 'e', 'g'] {
        Some(Format::Jpeg)
    } else if e == seq!['p', 'd', 'f'] {
        Some(Format::Pdf)
    } else {
        None
    }
}

/// The extension written for a format.
pub open spec fn extension_of(f: Format) -> Seq<char> {
    match f {
        Format::Svg => seq!['s', 'v', 'g'],
        Format::Png => seq!['p', 'n', 'g'],
        Format::Jpeg => seq!['j', 'p', 'g'],
        Format::Pdf => seq!['p', 'd', 'f'],
    }
}

/// The standard library's `Path`, carried through opaque.
#[verifier::external_type_specification]
#[verifier::external_body]
pub struct ExPath(std::path::Path);

/// What `Path::extension` gives for `path`, as UTF-8 text: `None` when the
/// path has no extension or the extension is not valid UTF-8.
pub uninterp spec fn path_ext(path: &std::path::Path) -> Option<Seq<char>>;

/// `Path::extension` of `path`, as UTF-8 text.  The claim: the result is the
/// name `path_ext` of the path (the standard library's rule for where an
/// extension starts is not restated).
#[verifier::external_body]
fn path_extension(path: &std::path::Path) -> (ext: Option<String>)
    ensures
        opt_string(ext) == path_ext(path),
{
    path.extension().and_then(|e| e.to_str()).map(|s| s.to_string())
}

/// The format that the extension of `path` names.
pub open spec fn format_for_path(path: &std::path::Path) -> Option<Format> {
    match path_ext(path) {
        Some(e) => format_for_extension(e),
        None => None,
    }
}

impl Format {
    /// The format named by an extension (without the dot), ASCII case
    /// ignored: `svg`, `png`, `jpg` or `jpeg`, `pdf`.
    pub fn from_extension_str(ext: &str) -> (f: Option<Format>)
        ensures
            f == format_for_extension(ext@),
    {
        let e = lower_chars(&chars_of(ext));
        proof {
            reveal_strlit("svg");
            reveal_strlit("png");
            reveal_strlit("jpg");
            reveal_strlit("jpeg");
            reveal_strlit("pdf");
            assert("svg"@ =~= seq!['s', 'v', 'g']);
            assert("png"@ =~= seq!['p', 'n', 'g']);
            assert("jpg"@ =~= seq!['j', 'p', 'g']);
            assert("jpeg"@ =~= seq!['j', 'p', 'e', 'g']);
            assert("pdf"@ =~= seq!['p', 'd', 'f']);
        }
        if chars_eq(&e, &chars_of("svg")) {
            Some(Format::Svg)
        } else if chars_eq(&e, &chars_of("png")) {
            Some(Format::Png)
        } else if chars_eq(&e, &chars_of("jpg")) || chars_eq(&e, &chars_of("jpeg")) {
            Some(Format::Jpeg)
        } else if chars_eq(&e, &chars_of("pdf")) {
            Some(Format::Pdf)
        } else {
            None
        }
    }

    /// The format named by the extension of `path` (as `Path::extension`
    /// gives it), if it names one.
    pub fn from_extension(path: &std::path::Path) -> (f: Option<Format>)
        ensures
            f == format_for_path(path),
    {
        match path_extension(path) {
            Some(e) => Format::from_extension_str(e.as_str()),
            None => None,
        }
    }

    /// The extension (without the dot) of files in this format.
    pub fn extension(self) -> (e: &'static str)
        ensures
            e@ == extension_of(self),
    {
        match self {
            Format::Svg => {
                proof {
                    reveal_strlit("svg");
                    assert("svg"@ =~= seq!['s', 'v', 'g']);
                }
                "svg"
            },
            Format::Png => {
                proof {
                    reveal_strlit("png");
                    assert("png"@ =~= seq!['p', 'n', 'g']);
                }
                "png"
            },
            Format::Jpeg => {
                proof {
                    reveal_strlit("jpg");
                    assert("jpg"@ =~= seq!['j', 'p', 'g']);
                }
                "jpg"
            },
            Format::Pdf => {
                proof {
                    reveal_strlit("pdf");
                    assert("pdf"@ =~= seq!['p', 'd', 'f']);
                }
                "pdf"
            },
        }
    }
}

/// A format's extension names that format again.
pub proof fn law_extension_round_trip(f: Format)
    ensures
        format_for_extension(extension_of(f)) == Some(f),
{
    assert(lower(seq!['s', 'v', 'g']) =~= seq!['s', 'v', 'g']);
    assert(lower(seq!['p', 'n', 'g']) =~= seq!['p', 'n', 'g']);
    assert(lower(seq!['j', 'p', 'g']) =~= seq!['j', 'p', 'g']);
    assert(lower(seq!['p', 'd', 'f']) =~= seq!['p', 'd', 'f']);
}

/// Whether a character is an ASCII hexadecimal digit.
pub open spec fn is_hex(c: char) -> bool {
    ('0' <= c && c <= '9') || ('a' <= c && c <= 'f') || ('A' <= c && c <= 'F')
}

/// The background colours that the raster colour parser understands, after
/// trimming and ASCII lower-casing: `transparent`, `white`, `black`, and
/// `#` followed by 3, 4, 6 or 8 hexadecimal digits.
pub open spec fn accepted_background(bg: Seq<char>) -> bool {
    let s = lower(trim(bg));
    ||| s == seq!['t', 'r', 'a', 'n', 's', 'p', 'a', 'r', 'e', 'n', 't']
    ||| s == seq!['w', 'h', 'i', 't', 'e']
    ||| s == seq!['b', 'l', 'a', 'c', 'k']
    ||| (s.len() > 0 && s[0] == '#' && (s.len() == 4 || s.len() == 5 || s.len() == 7 || s.len()
        == 9) && forall|i: int| 1 <= i < s.len() ==> is_hex(#[trigger] s[i]))
}

pub const BACKGROUND_ERROR_START: &'static str = "unsupported background color '";

pub const BACKGROUND_ERROR_END: &'static str = "' (accepted: transparent, white, black, #RGB, #RGBA, #RRGGBB, #RRGGBBAA)";

/// The message for a background colour that is refused.
pub open spec fn background_error(bg: Seq<char>) -> Seq<char> {
    BACKGROUND_ERROR_START@ + bg + BACKGROUND_ERROR_END@
}

/// Accepts only the background colours that the raster colour parser
/// understands; any other is refused with a message that names it.
pub fn validate_background(bg: &str) -> (r: Result<(), String>)
    ensures
        r is Ok <==> accepted_background(bg@),
        r matches Err(m) ==> m@ == background_error(bg@),
{
    let s = lower_chars(&trim_chars(&chars_of(bg)));
    proof {
        reveal_strlit("transparent");
        reveal_strlit("white");
        reveal_strlit("black");
        assert("transparent"@ =~= seq!['t', 'r', 'a', 'n', 's', 'p', 'a', 'r', 'e', 'n', 't']);
        assert("white"@ =~= seq!['w', 'h', 'i', 't', 'e']);
        assert("black"@ =~= seq!['b', 'l', 'a', 'c', 'k']);
    }
    if chars_eq(&s, &chars_of("transparent")) || chars_eq(&s, &chars_of("white")) || chars_eq(
        &s,
        &chars_of("black"),
    ) {
        return Ok(());
    }
    let n = s.len();
    if n > 0 && s[0] == '#' && (n == 4 || n == 5 || n == 7 || n == 9) {
        let mut i: usize = 1;
        let mut all_hex = true;
        while i < n
            invariant
                1 <= i <= n,
                n == s.len(),
                all_hex == (forall|j: int| 1 <= j < i ==> is_hex(#[trigger] s@[j])),
            decreases n - i,
        {
            let c = s[i];
            let h = ('0' <= c && c <= '9') || ('a' <= c && c <= 'f') || ('A' <= c && c <= 'F');
            all_hex = all_hex && h;
            i += 1;
        }
        if all_hex {
            return Ok(());
        }
    }
    let mut m = String::new();
    m.append(BACKGROUND_ERROR_START);
    m.append(bg);
    m.append(BACKGROUND_ERROR_END);
    Err(m)
}

pub const JPEG_BACKGROUND: &'static str = "#ffffff";

/// The background that a raster rendering gets: PNG and JPEG take the
/// background asked for, which must be one that is accepted; JPEG, which
/// has no alpha channel, gets white when none is asked for; SVG and PDF
/// take none (what is asked for them is not looked at).
pub open spec fn raster_background_for(format: Format, background: Option<Seq<char>>) -> Result<
    Option<Seq<char>>,
    Seq<char>,
> {
    match format {
        Format::Png | Format::Jpeg => match background {
            Some(bg) => if accepted_background(bg) {
                Ok(Some(bg))
            } else {
                Err(background_error(bg))
            },
            None => if format == Format::Jpeg {
                Ok(Some(JPEG_BACKGROUND@))
            } else {
                Ok(None)
            },
        },
        _ => Ok(None),
    }
}

/// For PNG and JPEG the background asked for is used as it is when it is
/// accepted and refused when it is not; white is the JPEG default only when
/// none is asked for; SVG and PDF take no background whatever is asked.
pub proof fn law_raster_background(f: Format, bg: Seq<char>)
    ensures
        (f == Format::Png || f == Format::Jpeg) && accepted_background(bg) ==> raster_background_for(
            f,
            Some(bg),
        ) == Ok::<Option<Seq<char>>, Seq<char>>(Some(bg)),
        (f == Format::Png || f == Format::Jpeg) && !accepted_background(bg) ==> raster_background_for(
            f,
            Some(bg),
        ) is Err,
        raster_background_for(Format::Jpeg, None) == Ok::<Option<Seq<char>>, Seq<char>>(
            Some(JPEG_BACKGROUND@),
        ),
        raster_background_for(Format::Png, None) == Ok::<Option<Seq<char>>, Seq<char>>(None),
        (f == Format::Svg || f == Format::Pdf) ==> raster_background_for(f, Some(bg)) == Ok::<
            Option<Seq<char>>,
            Seq<char>,
        >(None),
{
}

/// The background to give the raster renderer for `format`, or the message
/// that refuses the colour asked for.
pub fn raster_background(format: Format, background: Option<&str>) -> (r: Result<
    Option<String>,
    String,
>)
    ensures
        match (r, raster_background_for(format, opt_str(background))) {
            (Ok(Some(a)), Ok(Some(b))) => a@ == b,
            (Ok(None), Ok(None)) => true,
            (Err(a), Err(b)) => a@ == b,
            _ => false,
        },
{
    match format {
        Format::Png | Format::Jpeg => match background {
            Some(bg) => match validate_background(bg) {
                Ok(()) => {
                    let mut b = String::new();
                    b.append(bg);
                    Ok(Some(b))
                },
                Err(m) => Err(m),
            },
            None => if format == Format::Jpeg {
                let mut b = String::new();
                b.append(JPEG_BACKGROUND);
                Ok(Some(b))
            } else {
                Ok(None)
            },
        },
        _ => Ok(None),
    }
}

/// The theme options: a mermaid theme (default, base, dark, forest,
/// neutral, neo, neo-dark, redux, redux-dark, redux-color,
/// redux-dark-color), or an editor-like host theme (editor-light,
/// editor-dark, one-dark, gruvbox-light, gruvbox-dark, ayu-light,
/// ayu-dark).  A host theme wins over a mermaid theme.
#[derive(Debug, Clone, Default)]
pub struct ThemeArgs {
    pub theme: Option<String>,
    pub host_theme: Option<String>,
}

/// The theme a renderer is built with.
#[derive(Debug, Clone, PartialEq, Eq)]
pub enum ThemeChoice {
    /// The renderer's own default look.
    Default,
    /// A host theme preset, by name.
    Host(String),
    /// A mermaid theme, set in the site configuration.
    Site(String),
}

pub const UNKNOWN_HOST_THEME: &'static str = "unknown host theme '";

pub const UNKNOWN_THEME: &'static str = "unknown theme '";

pub const AVAILABLE: &'static str = "' (available: ";

pub const CLOSE_PAREN: &'static str = ")";

pub const LIST_SEPARATOR: &'static str = ", ";

/// The message for an unknown theme name.
pub open spec fn unknown_theme_message(start: Seq<char>, name: Seq<char>, known: Seq<Seq<char>>) -> Seq<
    char,
> {
    start + name + AVAILABLE@ + join(known, LIST_SEPARATOR@) + CLOSE_PAREN@
}

/// The theme that the options choose, given the host theme presets and the
/// mermaid themes that the renderer supports: `Ok(Host(n))` for a known
/// host theme `n`, `Ok(Site(n))` for a known mermaid theme `n` when no host
/// theme is asked for, `Ok(Default)` when neither is; an unknown name is
/// refused with a message listing the known ones.
pub open spec fn theme_choice(
    host: Option<Seq<char>>,
    theme: Option<Seq<char>>,
    presets: Seq<Seq<char>>,
    themes: Seq<Seq<char>>,
) -> Result<Option<(bool, Seq<char>)>, Seq<char>> {
    match host {
        Some(n) => if presets.contains(n) {
            Ok(Some((true, n)))
        } else {
            Err(unknown_theme_message(UNKNOWN_HOST_THEME@, n, presets))
        },
        None => match theme {
            Some(n) => if themes.contains(n) {
                Ok(Some((false, n)))
            } else {
                Err(unknown_theme_message(UNKNOWN_THEME@, n, themes))
            },
            None => Ok(None),
        },
    }
}

/// How a choice looks in `theme_choice`'s terms.
pub open spec fn choice_view(c: ThemeChoice) -> Option<(bool, Seq<char>)> {
    match c {
        ThemeChoice::Default => None,
        ThemeChoice::Host(n) => Some((true, n@)),
        ThemeChoice::Site(n) => Some((false, n@)),
    }
}

/// Whether `names` holds `name`.
fn contains_name(names: &Vec<String>, name: &String) -> (b: bool)
    ensures
        b == names.deep_view().contains(name@),
{
    let ghost nv = names.deep_view();
    let mut i: usize = 0;
    while i < names.len()
        invariant
            i <= names.len(),
            nv == names.deep_view(),
            forall|j: int| 0 <= j < i ==> nv[j] != name@,
        decreases names.len() - i,
    {
        if chars_eq(&chars_of(names[i].as_str()), &chars_of(name.as_str())) {
            assert(nv[i as int] == name@);
            return true;
        }
        i += 1;
    }
    false
}

/// The message for an unknown theme name.
fn unknown_theme(start: &str, name: &String, known: &Vec<String>) -> (m: String)
    ensures
        m@ == unknown_theme_message(start@, name@, known.deep_view()),
{
    let mut m = String::new();
    m.append(start);
    m.append(name.as_str());
    m.append(AVAILABLE);
    let list = join_strings(known, LIST_SEPARATOR);
    m.append(list.as_str());
    m.append(CLOSE_PAREN);
    m
}

/// Chooses the theme for the renderer from the options, refusing unknown
/// names.  `presets` are the host theme presets and `themes` the mermaid
/// themes that the renderer supports.
pub fn select_theme(theme: &ThemeArgs, presets: &Vec<String>, themes: &Vec<String>) -> (r: Result<
    ThemeChoice,
    String,
>)
    ensures
        match (
            r,
            theme_choice(
                opt_string(theme.host_theme),
                opt_string(theme.theme),
                presets.deep_view(),
                themes.deep_view(),
            ),
        ) {
            (Ok(c), Ok(v)) => choice_view(c) == v,
            (Err(m), Err(v)) => m@ == v,
            _ => false,
        },
{
    match &theme.host_theme {
        Some(name) => {
            if contains_name(presets, name) {
                Ok(ThemeChoice::Host(name.clone()))
            } else {
                Err(unknown_theme(UNKNOWN_HOST_THEME, name, presets))
            }
        },
        None => match &theme.theme {
            Some(name) => {
                if contains_name(themes, name) {
                    Ok(ThemeChoice::Site(name.clone()))
                } else {
                    Err(unknown_theme(UNKNOWN_THEME, name, themes))
                }
            },
            None => Ok(ThemeChoice::Default),
        },
    }
}

} // verus!
