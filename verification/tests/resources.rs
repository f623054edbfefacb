use waffy::resource::EmbeddedFile;
use waffy::style::get_css;
use waffy::Resource;

fn file(name: &str, data: &[u8]) -> EmbeddedFile {
    EmbeddedFile { name: String::from(name), data: data.to_vec() }
}

#[test]
fn reads_an_embedded_text_file() {
    let r = Resource {
        files: vec![file("default_style.css", b"window {}"), file("default_config.json5", b"{columns: 4}")],
    };
    assert_eq!(r.from_file("default_config.json5").unwrap(), "{columns: 4}");
    assert_eq!(r.from_file("default_style.css").unwrap(), "window {}");
}

#[test]
fn decodes_utf8() {
    let r = Resource { files: vec![file("prompt", "Szukaj ▸".as_bytes())] };
    assert_eq!(r.from_file("prompt").unwrap(), "Szukaj ▸");
}

#[test]
fn invalid_utf8_is_an_error() {
    let r = Resource { files: vec![file("bad", &[0x66, 0xff, 0x66])] };
    let err = r.from_file("bad").unwrap_err();
    assert_eq!(err.as_bytes(), &[0x66, 0xff, 0x66]);
}

#[test]
fn the_first_file_of_a_name_is_read() {
    let r = Resource { files: vec![file("a", b"first"), file("a", b"second")] };
    assert_eq!(r.from_file("a").unwrap(), "first");
}

#[test]
fn user_stylesheet_wins_over_the_default() {
    assert_eq!(get_css("label {}", "window {}", None), "label {}");
}

#[test]
fn empty_user_stylesheet_falls_back_to_the_default() {
    assert_eq!(get_css("", "window {}", None), "window {}");
}

#[test]
fn pywal_colours_come_first() {
    assert_eq!(get_css("label {}", "window {}", Some("@define-color a #fff;\n")), "@define-color a #fff;\nlabel {}");
    assert_eq!(get_css("", "window {}", Some("@x;")), "@x;window {}");
}
