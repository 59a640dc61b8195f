use sound_label_info::hash::hash40;
use sound_label_info::registry::{trim, LabelRegistry};
use sound_label_info::text::{hex_literal, parse_name_id, render_name_id};
use sound_label_info::codec::SliError;

#[test]
fn hash_is_deterministic_and_pinned() {
    assert_eq!(hash40("test"), hash40("test"));
    // Pinned reference vector: byte length 4 tag over CRC-32 0xd87f7e0c.
    assert_eq!(hash40("test"), 0x4_D87F_7E0C);
    assert_eq!(hash40(""), 0);
    assert_eq!(hash40("foo"), 0x3_8C73_6521);
}

#[test]
fn trim_strips_ascii_whitespace() {
    assert_eq!(trim("  foo \t"), "foo");
    assert_eq!(trim("foo"), "foo");
    assert_eq!(trim(" \r\n"), "");
    assert_eq!(trim(""), "");
}

#[test]
fn load_then_lookup_resolves_trimmed_hashes() {
    let mut registry = LabelRegistry::new();
    registry.load("foo\nbar");
    assert_eq!(registry.lookup(hash40("foo")).map(String::as_str), Some("foo"));
    assert_eq!(registry.lookup(hash40("bar")).map(String::as_str), Some("bar"));
    assert_eq!(registry.lookup(hash40("baz")), None);
}

#[test]
fn load_keys_by_trimmed_text_but_stores_the_line() {
    let mut registry = LabelRegistry::new();
    registry.load("  foo  ");
    // The identifier comes from the trimmed text; the stored label is the
    // untrimmed line.
    assert_eq!(registry.lookup(hash40("foo")).map(String::as_str), Some("  foo  "));
    assert_eq!(registry.lookup(hash40("  foo  ")), None);
}

#[test]
fn empty_lines_are_loaded_too() {
    let mut registry = LabelRegistry::new();
    registry.load("");
    // An empty source is one empty line; hashing it never fails.
    assert_eq!(hash40(""), 0);
    assert_eq!(registry.lookup(0).map(String::as_str), Some(""));
}

#[test]
fn later_duplicate_line_wins_within_one_load() {
    let mut registry = LabelRegistry::new();
    // Both lines trim to "foo", so they collide on one identifier; the
    // later line's (untrimmed) text is the one that sticks.
    registry.load(" foo\nfoo ");
    assert_eq!(registry.lookup(hash40("foo")).map(String::as_str), Some("foo "));
}

#[test]
fn second_load_replaces_the_first() {
    let mut registry = LabelRegistry::new();
    registry.load("foo\nbar");
    registry.load("baz\nfoo");
    // Only the second source's labels resolve; "foo" survives only
    // because the second source also lists it.
    assert_eq!(registry.lookup(hash40("bar")), None);
    assert_eq!(registry.lookup(hash40("baz")).map(String::as_str), Some("baz"));
    assert_eq!(registry.lookup(hash40("foo")).map(String::as_str), Some("foo"));
}

#[test]
fn render_prefers_the_label_and_falls_back_to_hex() {
    let mut registry = LabelRegistry::new();
    registry.load("foo");
    let id = hash40("foo");
    assert_eq!(render_name_id(&registry, id), "foo");
    assert_eq!(render_name_id(&registry, 0x2A), "0x2a");
    assert_eq!(render_name_id(&registry, 0), "0x0");
    assert_eq!(
        render_name_id(&registry, 0xAAAA_AAAA_AAAA_AAAA),
        "0xaaaaaaaaaaaaaaaa"
    );
}

#[test]
fn hex_literal_uses_lowercase_without_leading_zeros() {
    assert_eq!(hex_literal(0), "0x0");
    assert_eq!(hex_literal(15), "0xf");
    assert_eq!(hex_literal(16), "0x10");
    assert_eq!(hex_literal(u64::MAX), "0xffffffffffffffff");
}

#[test]
fn parse_reads_hex_literals() {
    assert_eq!(parse_name_id("0x2a"), Ok(42));
    assert_eq!(parse_name_id("0x2A"), Ok(42));
    assert_eq!(parse_name_id("0xAAAAAAAAAAAAAAAA"), Ok(0xAAAA_AAAA_AAAA_AAAA));
    assert_eq!(parse_name_id("0xffffffffffffffff"), Ok(u64::MAX));
    // Leading zeros are harmless, however many.
    assert_eq!(parse_name_id("0x00000000000000000001"), Ok(1));
}

#[test]
fn parse_rejects_malformed_hex_literals() {
    assert_eq!(parse_name_id("0x"), Err(SliError::InvalidIdentifierLiteral));
    assert_eq!(parse_name_id("0xzz"), Err(SliError::InvalidIdentifierLiteral));
    assert_eq!(parse_name_id("0x12g4"), Err(SliError::InvalidIdentifierLiteral));
    // One bit past 64: too large to represent.
    assert_eq!(
        parse_name_id("0x10000000000000000"),
        Err(SliError::InvalidIdentifierLiteral)
    );
}

#[test]
fn parse_rehashes_free_text() {
    assert_eq!(parse_name_id("foo"), Ok(hash40("foo")));
    assert_eq!(parse_name_id(""), Ok(hash40("")));
    // "0" and "x0" do not announce a hex literal, so they are hashed.
    assert_eq!(parse_name_id("0"), Ok(hash40("0")));
    assert_eq!(parse_name_id("x0"), Ok(hash40("x0")));
}

#[test]
fn render_then_parse_round_trips_through_the_hash() {
    let mut registry = LabelRegistry::new();
    registry.load("foo");
    let id = hash40("foo");
    let rendered = render_name_id(&registry, id);
    assert_eq!(rendered, "foo");
    // Parsing bypasses the registry and re-hashes; the identifiers agree
    // exactly because the rendered label hashes to the one it was loaded
    // under.
    let parsed = parse_name_id(&rendered).unwrap();
    assert_eq!(hash40("foo"), id);
    assert_eq!(parsed, id);
}
