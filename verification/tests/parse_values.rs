//! Parsing of raw translation values: placeholders, markup, plurals, and
//! the errors malformed syntax produces.

use i18n_schema::error::Error;
use i18n_schema::locale::{BuildersKeysInner, Locale, LocaleValue, RawDocument};
use i18n_schema::value::{InterpolateKey, PluralType, RawValue};

fn text(s: &str) -> RawValue {
    RawValue::Text(s.as_bytes().to_vec())
}

fn doc(entries: Vec<(&str, RawValue)>) -> RawDocument {
    RawDocument {
        entries: entries
            .into_iter()
            .map(|(k, v)| (k.as_bytes().to_vec(), v))
            .collect(),
    }
}

fn unify_single(d: RawDocument) -> BuildersKeysInner {
    let locale = Locale::new(b"en".to_vec(), &d).expect("locale should load");
    Locale::check_locales_inner(&vec![locale], None).expect("unification should succeed")
}

fn builder_of(b: &BuildersKeysInner, key: &str) -> Vec<InterpolateKey> {
    for (k, v) in &b.0 {
        if k == key.as_bytes() {
            match v {
                LocaleValue::Builder(ks) => return ks.clone(),
                LocaleValue::String => panic!("expected a builder for {key}"),
            }
        }
    }
    panic!("key {key} not found");
}

fn is_string(b: &BuildersKeysInner, key: &str) -> bool {
    for (k, v) in &b.0 {
        if k == key.as_bytes() {
            return *v == LocaleValue::String;
        }
    }
    panic!("key {key} not found");
}

#[test]
fn plain_text_classifies_as_string() {
    let b = unify_single(doc(vec![("greeting", text("hello"))]));
    assert!(is_string(&b, "greeting"));
}

#[test]
fn empty_value_classifies_as_string() {
    let b = unify_single(doc(vec![("empty", text(""))]));
    assert!(is_string(&b, "empty"));
}

#[test]
fn variable_and_component_classify_as_builder() {
    let b = unify_single(doc(vec![("greet", text("hi {{ name }}, see <b>this</b>"))]));
    let ks = builder_of(&b, "greet");
    assert_eq!(ks.len(), 2);
    assert!(ks.contains(&InterpolateKey::Variable(b"name".to_vec())));
    assert!(ks.contains(&InterpolateKey::Component(b"b".to_vec())));
}

#[test]
fn bare_count_uses_cardinal_taxonomy() {
    let b = unify_single(doc(vec![("c", text("count is {{count}}"))]));
    let ks = builder_of(&b, "c");
    assert_eq!(ks, vec![InterpolateKey::Count(PluralType::Cardinal)]);
}

#[test]
fn nested_component_content_contributes_keys() {
    let b = unify_single(doc(vec![("n", text("<b>hi {{name}} <i>{{other}}</i></b>"))]));
    let ks = builder_of(&b, "n");
    assert_eq!(ks.len(), 4);
    assert!(ks.contains(&InterpolateKey::Component(b"b".to_vec())));
    assert!(ks.contains(&InterpolateKey::Component(b"i".to_vec())));
    assert!(ks.contains(&InterpolateKey::Variable(b"name".to_vec())));
    assert!(ks.contains(&InterpolateKey::Variable(b"other".to_vec())));
}

#[test]
fn plural_selector_contributes_its_taxonomy() {
    let raw = RawValue::Plural(
        PluralType::Ordinal,
        vec![
            (b"one".to_vec(), b"{{count}}st".to_vec()),
            (b"other".to_vec(), b"{{count}}th".to_vec()),
        ],
    );
    let b = unify_single(doc(vec![("rank", raw)]));
    let ks = builder_of(&b, "rank");
    assert_eq!(ks, vec![InterpolateKey::Count(PluralType::Ordinal)]);
}

#[test]
fn plural_branch_variables_are_collected() {
    let raw = RawValue::Plural(
        PluralType::Cardinal,
        vec![
            (b"one".to_vec(), b"one item for {{who}}".to_vec()),
            (b"other".to_vec(), b"{{count}} items".to_vec()),
        ],
    );
    let b = unify_single(doc(vec![("items", raw)]));
    let ks = builder_of(&b, "items");
    assert_eq!(ks.len(), 2);
    assert!(ks.contains(&InterpolateKey::Count(PluralType::Cardinal)));
    assert!(ks.contains(&InterpolateKey::Variable(b"who".to_vec())));
}

#[test]
fn unclosed_placeholder_fails_naming_the_key() {
    let r = Locale::new(b"en".to_vec(), &doc(vec![("bad", text("oh {{oops"))]));
    match r {
        Err(Error::ParseError { key, .. }) => assert_eq!(key, b"bad".to_vec()),
        other => panic!("expected a parse error, got {other:?}"),
    }
}

#[test]
fn mismatched_close_tag_fails() {
    let r = Locale::new(b"en".to_vec(), &doc(vec![("bad", text("<b>x</i>"))]));
    assert!(matches!(r, Err(Error::ParseError { .. })));
}

#[test]
fn stray_close_tag_fails() {
    let r = Locale::new(b"en".to_vec(), &doc(vec![("bad", text("a</b>"))]));
    assert!(matches!(r, Err(Error::ParseError { .. })));
}

#[test]
fn bad_open_tag_fails() {
    let r = Locale::new(b"en".to_vec(), &doc(vec![("bad", text("a < b"))]));
    assert!(matches!(r, Err(Error::ParseError { .. })));
}

#[test]
fn empty_placeholder_name_fails() {
    let r = Locale::new(b"en".to_vec(), &doc(vec![("bad", text("x {{ }} y"))]));
    assert!(matches!(r, Err(Error::ParseError { .. })));
}

#[test]
fn lone_brace_is_literal_text() {
    let b = unify_single(doc(vec![("brace", text("a { b } c"))]));
    assert!(is_string(&b, "brace"));
}

#[test]
fn first_malformed_value_is_reported() {
    let d = doc(vec![
        ("ok", text("fine")),
        ("bad1", text("{{")),
        ("bad2", text("<u>never closed")),
    ]);
    match Locale::new(b"en".to_vec(), &d) {
        Err(Error::ParseError { key, .. }) => assert_eq!(key, b"bad1".to_vec()),
        other => panic!("expected a parse error, got {other:?}"),
    }
}

#[test]
fn malformed_plural_branch_fails() {
    let raw = RawValue::Plural(
        PluralType::Cardinal,
        vec![(b"one".to_vec(), b"{{count".to_vec())],
    );
    let r = Locale::new(b"en".to_vec(), &doc(vec![("p", raw)]));
    assert!(matches!(r, Err(Error::ParseError { .. })));
}

#[test]
fn get_keys_lists_key_names_in_order() {
    let d = doc(vec![("a", text("x")), ("b", text("y")), ("c", text("z"))]);
    let locale = Locale::new(b"en".to_vec(), &d).unwrap();
    let names = locale.get_keys();
    assert_eq!(names, vec![b"a".to_vec(), b"b".to_vec(), b"c".to_vec()]);
}
