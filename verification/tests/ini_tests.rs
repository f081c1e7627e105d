use erscom::ini::{Entry, Ini};

fn render_of(text: &str) -> String {
    Ini::parse(text).render()
}

#[test]
fn round_trip_preserves_text() {
    let doc = "; master settings for the mod\n\n[PASSWORD]\n; shared with friends\ncooppassword = hunter2\n\n[GAMEPLAY]\nallow_summons = 1\nstray line without equals\n";
    assert_eq!(render_of(doc), doc);
}

#[test]
fn round_trip_preserves_empty_document() {
    assert_eq!(render_of(""), "");
}

#[test]
fn round_trip_preserves_unnamed_leading_section() {
    let doc = "top = 1\n; early comment\n\n[S]\nk = v\n";
    assert_eq!(render_of(doc), doc);
}

#[test]
fn parse_normalises_spacing() {
    // Not canonical: spacing differs from the renderer's, so the rendered
    // form is the canonical spelling of the same document.
    let ini = Ini::parse("[ S ]\n  k=v  \n");
    assert_eq!(ini.render(), "[S]\nk = v\n");
}

#[test]
fn parse_is_lenient_about_junk_lines() {
    let doc = "no equals sign here\n=value with no key\n";
    let ini = Ini::parse(doc);
    let sections = ini.sections();
    assert_eq!(sections.len(), 1);
    let entries = sections[0].entries();
    assert_eq!(entries.len(), 2);
    assert!(matches!(entries[0], Entry::Comment(_)));
    assert!(matches!(entries[1], Entry::Comment(_)));
    assert_eq!(ini.render(), doc);
}

#[test]
fn parse_strips_carriage_returns() {
    let ini = Ini::parse("[S]\r\nk = v\r\n");
    assert_eq!(ini.render(), "[S]\nk = v\n");
}

#[test]
fn unicode_whitespace_counts_as_blank() {
    // A line of form feeds or no-break spaces is blank, and such
    // characters around keys and values are trimmed away.
    let ini = Ini::parse("[S]\n\u{C}\u{A0}\nk\u{A0}=\u{A0}v\n");
    let entries = ini.sections()[1].entries();
    assert!(matches!(entries[0], Entry::Blank));
    assert_eq!(ini.get("S", "k"), Some("v"));
}

#[test]
fn get_finds_value() {
    let ini = Ini::parse("[PASSWORD]\ncooppassword = hunter2\n");
    assert_eq!(ini.get("PASSWORD", "cooppassword"), Some("hunter2"));
}

#[test]
fn get_missing_returns_none() {
    let ini = Ini::parse("[PASSWORD]\ncooppassword = hunter2\n");
    assert_eq!(ini.get("PASSWORD", "other"), None);
    assert_eq!(ini.get("SETTINGS", "cooppassword"), None);
}

#[test]
fn get_searches_later_sections_with_same_name() {
    let ini = Ini::parse("[S]\na = 1\n[S]\nb = 2\n");
    assert_eq!(ini.get("S", "b"), Some("2"));
}

#[test]
fn get_keeps_equals_in_value() {
    let ini = Ini::parse("[S]\nformula = a = b\n");
    assert_eq!(ini.get("S", "formula"), Some("a = b"));
}

#[test]
fn set_is_idempotent() {
    let mut once = Ini::parse("[S]\nk = old\n");
    once.set("S", "k", "new");
    let mut twice = Ini::parse("[S]\nk = old\n");
    twice.set("S", "k", "new");
    twice.set("S", "k", "new");
    assert_eq!(once.render(), twice.render());
}

#[test]
fn set_existing_key_keeps_position() {
    let mut ini = Ini::parse("[S]\nfirst = 1\nmiddle = 2\nlast = 3\n");
    ini.set("S", "middle", "changed");
    assert_eq!(ini.render(), "[S]\nfirst = 1\nmiddle = changed\nlast = 3\n");
}

#[test]
fn set_existing_key_keeps_comments() {
    let mut ini = Ini::parse("; heading\n[S]\n; explains k\nk = old\n; trailing\n");
    ini.set("S", "k", "new");
    assert_eq!(ini.render(), "; heading\n[S]\n; explains k\nk = new\n; trailing\n");
}

#[test]
fn set_new_key_appends_within_section() {
    let mut ini = Ini::parse("[S]\na = 1\n[T]\nb = 2\n");
    ini.set("S", "c", "3");
    assert_eq!(ini.render(), "[S]\na = 1\nc = 3\n[T]\nb = 2\n");
}

#[test]
fn set_new_section_appends_at_end() {
    let mut ini = Ini::parse("[S]\na = 1\n");
    ini.set("NEW", "k", "v");
    assert_eq!(ini.render(), "[S]\na = 1\n[NEW]\nk = v\n");
}

#[test]
fn set_matches_names_exactly_as_given() {
    // Matching is exact: a padded key names no existing entry, so a new
    // entry (with the trimmed key stored) is appended instead.
    let mut ini = Ini::parse("[S]\nk = old\n");
    ini.set("S", " k ", "new");
    assert_eq!(ini.render(), "[S]\nk = old\nk = new\n");
}

#[test]
fn set_trims_key_and_value() {
    let mut ini = Ini::parse("[S]\n");
    ini.set("S", "  k  ", "  v  ");
    assert_eq!(ini.get("S", "k"), Some("v"));
}

#[test]
fn section_accessors_expose_names_and_entries() {
    let ini = Ini::parse("[Alpha]\nk = v\n");
    let sections = ini.sections();
    assert_eq!(sections.len(), 2);
    assert_eq!(sections[0].name(), "");
    assert_eq!(sections[1].name(), "Alpha");
    match &sections[1].entries()[0] {
        Entry::KV { key, value } => {
            assert_eq!(key, "k");
            assert_eq!(value, "v");
        },
        _ => panic!("expected a key/value entry"),
    }
}
