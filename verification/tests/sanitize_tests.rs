use langsan::CodePointRange;
use langsan::RangePolicy;
use langsan::sanitize;

fn default_policy() -> RangePolicy {
    RangePolicy::with_baseline(Vec::new(), Vec::new())
}

fn named_range(category: &str, low: u32, high: u32) -> CodePointRange {
    CodePointRange { category: category.to_string(), low, high }
}

const TAGGED_URL: &str = "https://wuzzi.net/copirate/\u{E0001}\u{E0054}\u{E0068}\u{E0065}\u{E0020}\u{E0073}\u{E0061}\u{E006C}\u{E0065}\u{E0073}\u{E0020}\u{E0066}\u{E006F}\u{E0072}\u{E0020}\u{E0053}\u{E0065}\u{E0061}\u{E0074}\u{E0074}\u{E006C}\u{E0065}\u{E0020}\u{E0077}\u{E0065}\u{E0072}\u{E0065}\u{E0020}\u{E0055}\u{E0053}\u{E0044}\u{E0020}\u{E0031}\u{E0032}\u{E0030}\u{E0030}\u{E0030}\u{E0030}\u{E007F}";

#[test]
fn test_sanitize() {
    let p = default_policy();

    // Whitespace controls and basic Latin are allowed by the baseline.
    assert_eq!(sanitize("hello \t\n", &p, false), None);
    assert_eq!(sanitize("hello \t\n", &p, true), None);

    // U+0100 is outside the baseline: removed, or reported as its two
    // UTF-8 bytes in verbose mode.
    assert_eq!(sanitize("\u{100}", &p, false), Some(String::new()));
    assert_eq!(
        sanitize("\u{100}", &p, true),
        Some("[2 BYTES SANITIZED]".to_string())
    );
    // With an extended Latin range enabled it passes through.
    let latin = RangePolicy::with_baseline(
        vec![named_range("latin-1-supplement", 0x80, 0x17F)],
        Vec::new(),
    );
    assert_eq!(sanitize("\u{100}", &latin, false), None);

    // A hidden sequence of tag characters after a URL: the whole
    // 39-character payload is 156 UTF-8 bytes.
    assert_eq!(
        sanitize(TAGGED_URL, &p, true),
        Some("https://wuzzi.net/copirate/[156 BYTES SANITIZED]".to_string())
    );
    assert_eq!(
        sanitize(TAGGED_URL, &p, false),
        Some("https://wuzzi.net/copirate/".to_string())
    );
    // With the tags range enabled the payload is (unwisely) allowed.
    let tags = RangePolicy::with_baseline(
        vec![named_range("tags", 0xE0000, 0xE007F)],
        Vec::new(),
    );
    assert_eq!(sanitize(TAGGED_URL, &tags, false), None);

    // The black-flag emoji is not enabled.
    assert_eq!(sanitize("\u{1F3F4}", &p, false), Some(String::new()));
    assert_eq!(
        sanitize("\u{1F3F4}", &p, true),
        Some("[4 BYTES SANITIZED]".to_string())
    );
}

#[test]
fn test_forbidden_overrides_range() {
    // A forbidden code point is invalid even inside an enabled range.
    let p = RangePolicy::with_baseline(
        vec![named_range("emoji", 0x1F000, 0x1FFFF)],
        vec!['\u{1F3F4}'],
    );
    assert_eq!(sanitize("\u{1F3F4}", &p, false), Some(String::new()));
    assert_eq!(
        sanitize("\u{1F3F4}", &p, true),
        Some("[4 BYTES SANITIZED]".to_string())
    );
    assert_eq!(sanitize("\u{1F600}", &p, false), None);
}

#[test]
fn test_policy_construction() {
    // Ranges that do not cover the two baseline ranges are a
    // configuration error.
    assert!(RangePolicy::new(Vec::new(), Vec::new()).is_none());
    assert!(RangePolicy::new(
        vec![named_range("basic-latin", 0x20, 0x7E)],
        Vec::new()
    )
    .is_none());
    let both = vec![
        named_range("whitespace", 0x09, 0x0C),
        named_range("basic-latin", 0x20, 0x7E),
    ];
    let p = RangePolicy::new(both, Vec::new());
    assert!(p.is_some());
    let p = p.unwrap();
    assert!(p.contains(0x41));
    assert!(p.contains(0x09));
    assert!(!p.contains(0x7F));
    assert!(!p.contains(0x1F600));
}

#[test]
fn test_empty_input() {
    let p = default_policy();
    assert_eq!(sanitize("", &p, false), None);
    assert_eq!(sanitize("", &p, true), None);
}

#[test]
fn test_single_code_point_between_words() {
    // One disallowed 4-byte code point between two ASCII words.
    let p = default_policy();
    assert_eq!(
        sanitize("pure\u{1F600}data", &p, false),
        Some("puredata".to_string())
    );
    assert_eq!(
        sanitize("pure\u{1F600}data", &p, true),
        Some("pure[4 BYTES SANITIZED]data".to_string())
    );
}

#[test]
fn test_span_collapse_drops_interior() {
    // Everything between the first and the last disallowed code point is
    // dropped, valid characters in between included.
    let p = default_policy();
    assert_eq!(
        sanitize("a\u{1F600}keep\u{1F600}b", &p, false),
        Some("ab".to_string())
    );
    // 4 + 4 bytes of emoji plus the 4 ASCII bytes caught in between.
    assert_eq!(
        sanitize("a\u{1F600}keep\u{1F600}b", &p, true),
        Some("a[12 BYTES SANITIZED]b".to_string())
    );
}

#[test]
fn test_verbose_byte_count_mixed_widths() {
    // A two-byte and a three-byte code point: the span is 5 bytes.
    let p = default_policy();
    assert_eq!(
        sanitize("a\u{100}\u{FFFD}b", &p, true),
        Some("a[5 BYTES SANITIZED]b".to_string())
    );
}

#[test]
fn test_idempotence() {
    // Re-sanitizing sanitized text finds nothing further to remove.
    let p = default_policy();
    for verbose in [false, true] {
        let once = sanitize(TAGGED_URL, &p, verbose).unwrap();
        assert_eq!(sanitize(&once, &p, verbose), None);
        assert_eq!(sanitize(&once, &p, !verbose), None);
    }
}

#[test]
fn test_no_invalid_survivor() {
    // Every code point of the output is allowed by the policy.
    let p = default_policy();
    for verbose in [false, true] {
        let out = sanitize("x\u{1F600}y\u{E0001}z\u{7F}", &p, verbose).unwrap();
        for c in out.chars() {
            assert!(p.contains(c as u32));
        }
    }
}
