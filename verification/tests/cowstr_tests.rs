use langsan::CodePointRange;
use langsan::CowStr;
use langsan::RangePolicy;
use langsan::StrStorage;

fn default_policy() -> RangePolicy {
    RangePolicy::with_baseline(Vec::new(), Vec::new())
}

fn named_range(category: &str, low: u32, high: u32) -> CodePointRange {
    CodePointRange { category: category.to_string(), low, high }
}

#[test]
fn test_cowstr() {
    let p = default_policy();

    let s = CowStr::new("Hello, world! That's all folks!", &p, false);
    assert!(s.is_borrowed());
    assert!(!s.is_empty());
    assert_eq!(s.as_str(), "Hello, world! That's all folks!");

    let s = CowStr::new("Hello, \u{1F600}world!", &p, true);
    assert!(s.is_owned()); // because of the emoji
    assert_eq!(s.as_str(), "Hello, [4 BYTES SANITIZED]world!");
    let s = CowStr::new("Hello, \u{1F600}world!", &p, false);
    assert!(s.is_owned());
    assert_eq!(s.as_str(), "Hello, world!");

    // A round trip through owned storage keeps the text.
    let s: CowStr<'static> = s.into_static();
    let s: String = s.into_owned();
    let s = CowStr::from_owned(s, &p, false);
    assert!(s.is_owned());
    assert_eq!(s.as_str(), "Hello, world!");

    assert_eq!("\u{1F600}\u{1F600}\u{1F600}".bytes().len(), 12);

    let s = CowStr::from_owned(
        "Hello, \u{1F600}\u{1F600}\u{1F600}world!".to_string(),
        &p,
        false,
    );
    assert_eq!(s.as_str(), "Hello, world!");
    let s = CowStr::from_owned(
        "Hello, \u{1F600}\u{1F600}\u{1F600}world!".to_string(),
        &p,
        true,
    );
    assert_eq!(s.as_str(), "Hello, [12 BYTES SANITIZED]world!");
}

#[test]
fn test_push_str() {
    let p = default_policy();

    let mut s = CowStr::new("Hello, world!", &p, false);
    s.push_str(" That's all folks!\u{1F600}", &p, false);
    assert_eq!(s.as_str(), "Hello, world! That's all folks!");
    let mut s = CowStr::new("Hello, world!", &p, true);
    s.push_str(" That's all folks!\u{1F600}", &p, true);
    assert_eq!(s.as_str(), "Hello, world! That's all folks![4 BYTES SANITIZED]");

    let mut s = CowStr::new("Hello, \u{1F600}world!", &p, true);
    s.push_str(" That's all folks!\u{1F600}", &p, true);
    assert_eq!(
        s.as_str(),
        "Hello, [4 BYTES SANITIZED]world! That's all folks![4 BYTES SANITIZED]"
    );
    let mut s = CowStr::new("Hello, \u{1F600}world!", &p, false);
    s.push_str(" That's all folks!\u{1F600}", &p, false);
    assert_eq!(s.as_str(), "Hello, world! That's all folks!");

    // With an emoticons range enabled the emoji passes through.
    let emo = RangePolicy::with_baseline(
        vec![named_range("emoticons-emoji", 0x1F600, 0x1F64F)],
        Vec::new(),
    );
    let mut s = CowStr::new("Hello, \u{1F600}world!", &emo, false);
    s.push_str(" That's all folks!\u{1F600}", &emo, false);
    assert_eq!(s.as_str(), "Hello, \u{1F600}world! That's all folks!\u{1F600}");

    assert_eq!("\u{1F600}\u{1F600}\u{1F600}".bytes().len(), 12);

    let mut s = CowStr::from_owned(
        "Hello, \u{1F600}\u{1F600}\u{1F600}world!".to_string(),
        &p,
        false,
    );
    s.push_str(" That's all folks!", &p, false);
    assert_eq!(s.as_str(), "Hello, world! That's all folks!");
    let mut s = CowStr::from_owned(
        "Hello, \u{1F600}\u{1F600}\u{1F600}world!".to_string(),
        &p,
        true,
    );
    s.push_str(" That's all folks!", &p, true);
    assert_eq!(s.as_str(), "Hello, [12 BYTES SANITIZED]world! That's all folks!");
}

#[test]
fn test_append_forces_owned() {
    // Appending an unsupported emoji to an unchanged wrapper: the result
    // is owned, the emoji is gone, the rest of the fragment is kept.
    let p = default_policy();
    let mut s = CowStr::new("transcript", &p, false);
    assert!(s.is_borrowed());
    s.push_str(" more text\u{1F600}", &p, false);
    assert!(s.is_owned());
    assert_eq!(s.as_str(), "transcript more text");

    let mut s = CowStr::new("transcript", &p, true);
    s.push_str(" more text\u{1F600}", &p, true);
    assert!(s.is_owned());
    assert_eq!(s.as_str(), "transcript more text[4 BYTES SANITIZED]");
}

#[test]
fn test_zero_copy_on_clean_input() {
    // Clean borrowed input is wrapped without any copy.
    let p = default_policy();
    let text = "all clean ascii";
    let s = CowStr::new(text, &p, false);
    assert!(s.is_borrowed());
    assert!(!s.is_owned());
    // The storage is the borrowed view itself.
    match s.into_inner() {
        StrStorage::Borrowed(b) => assert_eq!(b, text),
        StrStorage::Owned(_) => panic!("expected borrowed storage"),
    }
}

#[test]
fn test_equality_ignores_storage() {
    let p = default_policy();
    let borrowed = CowStr::new("same text", &p, false);
    let owned = CowStr::from_owned("same text".to_string(), &p, false);
    assert!(borrowed.is_borrowed());
    assert!(owned.is_owned());
    assert!(borrowed == owned);
    let other = CowStr::new("other text", &p, false);
    assert!(borrowed != other);
}

#[test]
fn test_clone_keeps_text_and_storage() {
    let p = default_policy();
    let s = CowStr::new("keep me", &p, false);
    let c = s.clone();
    assert!(c.is_borrowed());
    assert_eq!(c.as_str(), "keep me");
    assert!(s == c);
}

#[test]
fn test_empty_cowstr() {
    let p = default_policy();
    let s = CowStr::new("", &p, false);
    assert!(s.is_empty());
    assert!(s.is_borrowed());
    let mut s = s;
    s.push_str("", &p, false);
    assert!(s.is_owned());
    assert!(s.is_empty());
}
