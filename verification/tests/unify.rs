//! Cross-locale schema unification: success, order independence, and the
//! errors mismatching groups produce.

use i18n_schema::error::Error;
use i18n_schema::locale::{
    BuildersKeys, BuildersKeysInner, Locale, LocaleSource, LocaleValue, LocalesOrNamespaces,
    NamespaceSource, RawDocument, RawResources, locale_file_path, namespace_file_path,
};
use i18n_schema::value::{InterpolateKey, PluralType, RawValue};

fn text(s: &str) -> RawValue {
    RawValue::Text(s.as_bytes().to_vec())
}

fn doc(entries: Vec<(&str, RawValue)>) -> RawDocument {
    RawDocument {
        entries: entries
            .into_iter()
            .map(|(k, v)| (k.as_bytes().to_vec(), v))
            .collect(),
    }
}

fn locale(name: &str, entries: Vec<(&str, RawValue)>) -> Locale {
    Locale::new(name.as_bytes().to_vec(), &doc(entries)).expect("locale should load")
}

fn value_of(b: &BuildersKeysInner, key: &str) -> LocaleValue {
    for (k, v) in &b.0 {
        if k == key.as_bytes() {
            return match v {
                LocaleValue::String => LocaleValue::String,
                LocaleValue::Builder(ks) => LocaleValue::Builder(ks.clone()),
            };
        }
    }
    panic!("key {key} not found");
}

#[test]
fn round_trip_two_locales_with_same_shapes() {
    let en = locale("en", vec![("a", text("hello")), ("b", text("count is {{count}}"))]);
    let fr = locale("fr", vec![("a", text("bonjour")), ("b", text("{{count}} au total"))]);
    let b = Locale::check_locales_inner(&vec![en, fr], None).expect("should unify");
    assert_eq!(b.0.len(), 2);
    assert_eq!(value_of(&b, "a"), LocaleValue::String);
    assert_eq!(
        value_of(&b, "b"),
        LocaleValue::Builder(vec![InterpolateKey::Count(PluralType::Cardinal)])
    );
}

#[test]
fn interpolation_keys_merge_across_locales() {
    let en = locale("en", vec![("m", text("hi {{name}}"))]);
    let fr = locale("fr", vec![("m", text("salut <b>{{prenom}}</b>"))]);
    let b = Locale::check_locales_inner(&vec![en, fr], None).unwrap();
    match value_of(&b, "m") {
        LocaleValue::Builder(ks) => {
            assert_eq!(ks.len(), 3);
            assert!(ks.contains(&InterpolateKey::Variable(b"name".to_vec())));
            assert!(ks.contains(&InterpolateKey::Variable(b"prenom".to_vec())));
            assert!(ks.contains(&InterpolateKey::Component(b"b".to_vec())));
        },
        other => panic!("expected a builder, got {other:?}"),
    }
}

#[test]
fn missing_key_blames_the_lacking_locale() {
    let en = locale("en", vec![("a", text("x")), ("b", text("y"))]);
    let fr = locale("fr", vec![("a", text("x"))]);
    match Locale::check_locales_inner(&vec![en, fr], None) {
        Err(Error::MissingKeysInLocale { namespace, keys, locale }) => {
            assert_eq!(namespace, None);
            assert_eq!(keys, vec![b"b".to_vec()]);
            assert_eq!(locale, b"fr".to_vec());
        },
        other => panic!("expected missing keys, got {other:?}"),
    }
}

#[test]
fn extra_key_blames_the_reference_locale() {
    let en = locale("en", vec![("a", text("x"))]);
    let fr = locale("fr", vec![("a", text("x")), ("b", text("y"))]);
    match Locale::check_locales_inner(&vec![en, fr], None) {
        Err(Error::MissingKeysInLocale { namespace, keys, locale }) => {
            assert_eq!(namespace, None);
            assert_eq!(keys, vec![b"b".to_vec()]);
            assert_eq!(locale, b"en".to_vec());
        },
        other => panic!("expected missing keys, got {other:?}"),
    }
}

#[test]
fn first_mismatching_locale_is_reported() {
    let en = locale("en", vec![("a", text("x"))]);
    let de = locale("de", vec![("a", text("x"))]);
    let fr = locale("fr", vec![]);
    let it = locale("it", vec![]);
    match Locale::check_locales_inner(&vec![en, de, fr, it], None) {
        Err(Error::MissingKeysInLocale { locale, .. }) => assert_eq!(locale, b"fr".to_vec()),
        other => panic!("expected missing keys, got {other:?}"),
    }
}

#[test]
fn plural_taxonomy_mismatch_names_the_key() {
    let plural = |pt| {
        RawValue::Plural(
            pt,
            vec![
                (b"one".to_vec(), b"one".to_vec()),
                (b"other".to_vec(), b"many".to_vec()),
            ],
        )
    };
    let en = locale("en", vec![("n", plural(PluralType::Cardinal))]);
    let fr = locale("fr", vec![("n", plural(PluralType::Ordinal))]);
    match Locale::check_locales_inner(&vec![en, fr], None) {
        Err(Error::PluralTypeMismatch { locale_key, namespace }) => {
            assert_eq!(locale_key, b"n".to_vec());
            assert_eq!(namespace, None);
        },
        other => panic!("expected a plural mismatch, got {other:?}"),
    }
}

#[test]
fn plural_selector_subsumes_reserved_count_variable() {
    let plural = RawValue::Plural(
        PluralType::Cardinal,
        vec![
            (b"one".to_vec(), b"one".to_vec()),
            (b"other".to_vec(), b"{{count}}".to_vec()),
        ],
    );
    let en = locale("en", vec![("c", plural)]);
    let fr = locale("fr", vec![("c", text("total {{ var_count }}"))]);
    let b = Locale::check_locales_inner(&vec![en, fr], None).expect("should unify");
    assert_eq!(
        value_of(&b, "c"),
        LocaleValue::Builder(vec![InterpolateKey::Count(PluralType::Cardinal)])
    );
}

#[test]
fn result_does_not_depend_on_locale_order() {
    let entries = |greet: &str, items: &str| {
        vec![
            ("greet", text(greet)),
            ("items", text(items)),
        ]
    };
    let en = || locale("en", entries("hi {{name}}", "{{count}} items"));
    let fr = || locale("fr", entries("salut {{name}}", "{{count}} objets"));
    let b1 = Locale::check_locales_inner(&vec![en(), fr()], None).unwrap();
    let b2 = Locale::check_locales_inner(&vec![fr(), en()], None).unwrap();
    for key in ["greet", "items"] {
        match (value_of(&b1, key), value_of(&b2, key)) {
            (LocaleValue::Builder(k1), LocaleValue::Builder(k2)) => {
                assert_eq!(k1.len(), k2.len());
                for k in &k1 {
                    assert!(k2.contains(k));
                }
            },
            (v1, v2) => assert_eq!(v1, v2),
        }
    }
}

#[test]
fn namespaced_resources_unify_per_namespace() {
    let src = |name: &str, entries: Vec<(&str, RawValue)>| LocaleSource {
        name: name.as_bytes().to_vec(),
        doc: doc(entries),
    };
    let res = RawResources::NameSpaces(vec![
        NamespaceSource {
            key: b"menu".to_vec(),
            locales: vec![
                src("en", vec![("open", text("Open"))]),
                src("fr", vec![("open", text("Ouvrir"))]),
            ],
        },
        NamespaceSource {
            key: b"mail".to_vec(),
            locales: vec![
                src("en", vec![("subject", text("{{ title }}"))]),
                src("fr", vec![("subject", text("{{ title }}"))]),
            ],
        },
    ]);
    let loaded = LocalesOrNamespaces::new(&res).expect("resources should load");
    match Locale::check_locales(loaded).expect("should unify") {
        BuildersKeys::NameSpaces { namespaces, keys } => {
            assert_eq!(namespaces.len(), 2);
            assert_eq!(keys.len(), 2);
            assert_eq!(keys[0].0, b"menu".to_vec());
            assert_eq!(keys[1].0, b"mail".to_vec());
            assert_eq!(value_of(&keys[0].1, "open"), LocaleValue::String);
            assert_eq!(
                value_of(&keys[1].1, "subject"),
                LocaleValue::Builder(vec![InterpolateKey::Variable(b"title".to_vec())])
            );
        },
        other => panic!("expected namespaced keys, got {other:?}"),
    }
}

#[test]
fn namespace_label_appears_in_unification_error() {
    let src = |name: &str, entries: Vec<(&str, RawValue)>| LocaleSource {
        name: name.as_bytes().to_vec(),
        doc: doc(entries),
    };
    let res = RawResources::NameSpaces(vec![NamespaceSource {
        key: b"menu".to_vec(),
        locales: vec![
            src("en", vec![("open", text("Open")), ("close", text("Close"))]),
            src("fr", vec![("open", text("Ouvrir"))]),
        ],
    }]);
    let loaded = LocalesOrNamespaces::new(&res).expect("resources should load");
    match Locale::check_locales(loaded) {
        Err(Error::MissingKeysInLocale { namespace, keys, locale }) => {
            assert_eq!(namespace, Some(b"menu".to_vec()));
            assert_eq!(keys, vec![b"close".to_vec()]);
            assert_eq!(locale, b"fr".to_vec());
        },
        other => panic!("expected missing keys, got {other:?}"),
    }
}

#[test]
fn flat_resources_unify_globally() {
    let src = |name: &str, entries: Vec<(&str, RawValue)>| LocaleSource {
        name: name.as_bytes().to_vec(),
        doc: doc(entries),
    };
    let res = RawResources::Locales(vec![
        src("en", vec![("hello", text("Hello"))]),
        src("fr", vec![("hello", text("Bonjour"))]),
    ]);
    let loaded = LocalesOrNamespaces::new(&res).expect("resources should load");
    match Locale::check_locales(loaded).expect("should unify") {
        BuildersKeys::Locales { locales, keys } => {
            assert_eq!(locales.len(), 2);
            assert_eq!(value_of(&keys, "hello"), LocaleValue::String);
        },
        other => panic!("expected flat keys, got {other:?}"),
    }
}

#[test]
fn malformed_value_fails_before_unification() {
    let src = |name: &str, entries: Vec<(&str, RawValue)>| LocaleSource {
        name: name.as_bytes().to_vec(),
        doc: doc(entries),
    };
    let res = RawResources::Locales(vec![
        src("en", vec![("a", text("fine"))]),
        src("fr", vec![("a", text("{{broken"))]),
    ]);
    match LocalesOrNamespaces::new(&res) {
        Err(Error::ParseError { key, .. }) => assert_eq!(key, b"a".to_vec()),
        other => panic!("expected a parse error, got {other:?}"),
    }
}

#[test]
fn bare_count_and_selector_merge_to_one_count() {
    let plural = RawValue::Plural(
        PluralType::Cardinal,
        vec![
            (b"one".to_vec(), b"one item".to_vec()),
            (b"other".to_vec(), b"{{count}} items".to_vec()),
        ],
    );
    let en = locale("en", vec![("items", text("{{count}} items"))]);
    let fr = locale("fr", vec![("items", plural)]);
    let b = Locale::check_locales_inner(&vec![en, fr], None).expect("should unify");
    assert_eq!(
        value_of(&b, "items"),
        LocaleValue::Builder(vec![InterpolateKey::Count(PluralType::Cardinal)])
    );
}

#[test]
fn first_failing_namespace_is_reported() {
    let src = |name: &str, entries: Vec<(&str, RawValue)>| LocaleSource {
        name: name.as_bytes().to_vec(),
        doc: doc(entries),
    };
    let bad_ns = |key: &str| NamespaceSource {
        key: key.as_bytes().to_vec(),
        locales: vec![
            src("en", vec![("a", text("x")), ("b", text("y"))]),
            src("fr", vec![("a", text("x"))]),
        ],
    };
    let good_ns = NamespaceSource {
        key: b"ok".to_vec(),
        locales: vec![
            src("en", vec![("a", text("x"))]),
            src("fr", vec![("a", text("x"))]),
        ],
    };
    let res = RawResources::NameSpaces(vec![good_ns, bad_ns("menu"), bad_ns("mail")]);
    let loaded = LocalesOrNamespaces::new(&res).expect("resources should load");
    match Locale::check_locales(loaded) {
        Err(Error::MissingKeysInLocale { namespace, .. }) => {
            assert_eq!(namespace, Some(b"menu".to_vec()));
        },
        other => panic!("expected missing keys, got {other:?}"),
    }
}

#[test]
fn resource_paths_follow_the_layout() {
    assert_eq!(
        locale_file_path(&b"locales".to_vec(), &b"en".to_vec()),
        b"locales/en.json".to_vec()
    );
    assert_eq!(
        namespace_file_path(&b"locales".to_vec(), &b"en".to_vec(), &b"menu".to_vec()),
        b"locales/en/menu.json".to_vec()
    );
}
