use std::path::Path;

use jmmview::renderer::{
    raster_background, select_theme, validate_background, Format, ThemeArgs, ThemeChoice,
};

#[test]
fn formats_from_extensions() {
    assert_eq!(Format::from_extension(Path::new("a/b.svg")), Some(Format::Svg));
    assert_eq!(Format::from_extension(Path::new("x.PNG")), Some(Format::Png));
    assert_eq!(Format::from_extension(Path::new("x.jpeg")), Some(Format::Jpeg));
    assert_eq!(Format::from_extension(Path::new("x.Jpg")), Some(Format::Jpeg));
    assert_eq!(Format::from_extension(Path::new("x.pdf")), Some(Format::Pdf));
    assert_eq!(Format::from_extension(Path::new("x.txt")), None);
    assert_eq!(Format::from_extension(Path::new("noext")), None);
    assert_eq!(Format::from_extension(Path::new(".svg")), None);
    assert_eq!(Format::from_extension_str("SvG"), Some(Format::Svg));
}

#[test]
fn extensions_name_their_format_again() {
    for f in [Format::Svg, Format::Png, Format::Jpeg, Format::Pdf] {
        assert_eq!(Format::from_extension_str(f.extension()), Some(f));
    }
    assert_eq!(Format::Jpeg.extension(), "jpg");
}

#[test]
fn backgrounds_that_are_accepted() {
    for bg in ["transparent", " White ", "BLACK", "#fff", "#FFFA", "#0d1117", "#11223344"] {
        assert_eq!(validate_background(bg), Ok(()), "{bg}");
    }
}

#[test]
fn backgrounds_that_are_refused() {
    for bg in ["red", "#12", "#ggg", "#12345", "", "# fff"] {
        assert_eq!(
            validate_background(bg),
            Err(format!(
                "unsupported background color '{bg}' (accepted: transparent, white, black, #RGB, #RGBA, #RRGGBB, #RRGGBBAA)"
            ))
        );
    }
}

#[test]
fn raster_backgrounds_per_format() {
    assert_eq!(raster_background(Format::Jpeg, None), Ok(Some("#ffffff".to_string())));
    assert_eq!(raster_background(Format::Png, None), Ok(None));
    assert_eq!(raster_background(Format::Png, Some("white")), Ok(Some("white".to_string())));
    assert!(raster_background(Format::Jpeg, Some("red")).is_err());
    assert_eq!(raster_background(Format::Svg, Some("red")), Ok(None));
    assert_eq!(raster_background(Format::Pdf, None), Ok(None));
}

fn names(v: &[&str]) -> Vec<String> {
    v.iter().map(|s| s.to_string()).collect()
}

#[test]
fn theme_selection() {
    let presets = names(&["one-dark", "ayu-light"]);
    let themes = names(&["default", "dark"]);
    let none = ThemeArgs::default();
    assert_eq!(select_theme(&none, &presets, &themes), Ok(ThemeChoice::Default));
    let host = ThemeArgs { theme: Some("dark".into()), host_theme: Some("one-dark".into()) };
    assert_eq!(select_theme(&host, &presets, &themes), Ok(ThemeChoice::Host("one-dark".into())));
    let site = ThemeArgs { theme: Some("dark".into()), host_theme: None };
    assert_eq!(select_theme(&site, &presets, &themes), Ok(ThemeChoice::Site("dark".into())));
    let bad_host = ThemeArgs { theme: None, host_theme: Some("nope".into()) };
    assert_eq!(
        select_theme(&bad_host, &presets, &themes),
        Err("unknown host theme 'nope' (available: one-dark, ayu-light)".to_string())
    );
    let bad = ThemeArgs { theme: Some("pink".into()), host_theme: None };
    assert_eq!(
        select_theme(&bad, &presets, &themes),
        Err("unknown theme 'pink' (available: default, dark)".to_string())
    );
}

#[test]
fn formats_from_more_paths() {
    let fe = |s: &str| Format::from_extension(Path::new(s));
    assert_eq!(fe("dir/b.PNG"), Some(Format::Png));
    assert_eq!(fe("d.JPEG"), Some(Format::Jpeg));
    assert_eq!(fe("f.gif"), None);
    assert_eq!(fe("a.svg.txt"), None);
    assert_eq!(fe("Makefile"), None);
    for f in [Format::Svg, Format::Png, Format::Jpeg, Format::Pdf] {
        assert_eq!(fe(&format!("out.{}", f.extension())), Some(f));
    }
}
