//! Locales, namespaces, and the cross-locale schema unifier.

use vstd::prelude::*;

use crate::error::{Error, opt_name_view};
use crate::parse::{parse_raw_value, raw_fits, spec_parse_raw};
use crate::value::{
    AbsKey, AbsValue, InterpolateKey, ParsedValue, PluralType, RawValue, bytes_eq, clone_bytes,
    distinct_keys, key_set, pv_keys,
};

verus! {

/// One locale file's content after deserialization: translation keys and
/// raw values, in file order.
pub struct RawDocument {
    pub entries: Vec<(Vec<u8>, RawValue)>,
}

impl RawDocument {
    /// Keys are distinct (the content came from a map), and every value
    /// fits the machine.
    pub open spec fn wf(self) -> bool {
        &&& forall|i: int, j: int|
            0 <= i < j < self.entries@.len() ==> self.entries@[i].0@ != self.entries@[j].0@
        &&& forall|i: int| 0 <= i < self.entries@.len() ==> raw_fits(#[trigger] self.entries@[i].1)
    }

    /// Every value of the document is well-formed.
    pub open spec fn parses(self) -> bool {
        forall|i: int|
            0 <= i < self.entries@.len() ==> spec_parse_raw(#[trigger] self.entries@[i].1) is Some
    }
}

/// One locale: its name and its translation keys with their parsed values.
#[derive(Debug, PartialEq, Eq)]
pub struct Locale {
    pub name: Vec<u8>,
    pub keys: Vec<(Vec<u8>, ParsedValue)>,
}

impl Locale {
    /// The translation key names, in file order.
    pub open spec fn key_names(self) -> Seq<Seq<u8>> {
        self.keys@.map_values(|e: (Vec<u8>, ParsedValue)| e.0@)
    }

    /// The set of translation key names.
    pub open spec fn key_set(self) -> Set<Seq<u8>> {
        Set::new(|k: Seq<u8>| exists|i: int| 0 <= i < self.keys@.len() && self.keys@[i].0@ == k)
    }

    pub open spec fn has_key(self, k: Seq<u8>) -> bool {
        self.key_set().contains(k)
    }

    /// Key names are pairwise distinct.
    pub open spec fn wf(self) -> bool {
        forall|i: int, j: int|
            0 <= i < j < self.keys@.len() ==> self.keys@[i].0@ != self.keys@[j].0@
    }

    /// The parsed value the locale holds for key `k` (meaningful when the
    /// locale has that key).
    pub open spec fn value_of(self, k: Seq<u8>) -> AbsValue {
        let i = choose|i: int| 0 <= i < self.keys@.len() && self.keys@[i].0@ == k;
        self.keys@[i].1@
    }

    pub proof fn lemma_value_at(self, i: int)
        requires
            self.wf(),
            0 <= i < self.keys@.len(),
        ensures
            self.value_of(self.keys@[i].0@) == self.keys@[i].1@,
    {
        let k = self.keys@[i].0@;
        assert(0 <= i < self.keys@.len() && self.keys@[i].0@ == k);
        let j = choose|j: int| 0 <= j < self.keys@.len() && self.keys@[j].0@ == k;
        if j != i {
            assert(self.keys@[i].0@ != self.keys@[j].0@);
        }
    }
}

/// What a successfully loaded locale holds, entry by entry: the document's
/// key names in order, each value parsed.
pub open spec fn locale_from_doc(l: Locale, name: Seq<u8>, doc: RawDocument) -> bool {
    &&& l.name@ == name
    &&& l.keys@.len() == doc.entries@.len()
    &&& forall|i: int|
        0 <= i < doc.entries@.len() ==> (#[trigger] l.keys@[i]).0@ == doc.entries@[i].0@
    &&& forall|i: int|
        0 <= i < doc.entries@.len() ==> spec_parse_raw(doc.entries@[i].1) == Some(
            (#[trigger] l.keys@[i]).1@,
        )
}

/// The parse error a malformed document produces: it names the first
/// entry, in file order, whose value is malformed.
pub open spec fn doc_parse_error(e: Error, doc: RawDocument) -> bool {
    exists|i: int|
        #![auto]
        {
            &&& 0 <= i < doc.entries@.len()
            &&& spec_parse_raw(doc.entries@[i].1) is None
            &&& forall|j: int| 0 <= j < i ==> spec_parse_raw(#[trigger] doc.entries@[j].1) is Some
            &&& e matches Error::ParseError { key, position, kind } && key@ == doc.entries@[i].0@
        }
}

impl Locale {
    /// Build a locale from one deserialized resource document, feeding
    /// every raw value to the value parser.  Fails, naming the offending
    /// key, if and only if some value is malformed.
    #[verifier::loop_isolation(false)]
    pub fn new(name: Vec<u8>, doc: &RawDocument) -> (r: Result<Locale, Error>)
        requires
            doc.wf(),
        ensures
            match r {
                Ok(l) => l.wf() && doc.parses() && locale_from_doc(l, name@, *doc),
                Err(e) => !doc.parses() && doc_parse_error(e, *doc),
            },
    {
        let mut keys: Vec<(Vec<u8>, ParsedValue)> = Vec::new();
        let mut i: usize = 0;
        while i < doc.entries.len()
            invariant
                i <= doc.entries@.len(),
                keys@.len() == i,
                forall|j: int| 0 <= j < i ==> (#[trigger] keys@[j]).0@ == doc.entries@[j].0@,
                forall|j: int|
                    0 <= j < i ==> spec_parse_raw(doc.entries@[j].1) == Some(
                        (#[trigger] keys@[j]).1@,
                    ),
            decreases doc.entries@.len() - i,
        {
            match parse_raw_value(&doc.entries[i].1) {
                Err(pe) => {
                    let err = Error::ParseError {
                        key: clone_bytes(&doc.entries[i].0),
                        position: pe.position,
                        kind: pe.kind,
                    };
                    proof {
                        let ii = i as int;
                        assert forall|j: int|
                            0 <= j < ii implies spec_parse_raw(
                            #[trigger] doc.entries@[j].1,
                        ) is Some by {
                            assert(spec_parse_raw(doc.entries@[j].1) == Some(keys@[j].1@));
                        }
                        assert({
                            &&& 0 <= ii < doc.entries@.len()
                            &&& spec_parse_raw(doc.entries@[ii].1) is None
                            &&& forall|j: int|
                                0 <= j < ii ==> spec_parse_raw(
                                    #[trigger] doc.entries@[j].1,
                                ) is Some
                            &&& err matches Error::ParseError { key, position, kind } && key@
                                == doc.entries@[ii].0@
                        });
                        assert(doc_parse_error(err, *doc));
                    }
                    return Err(err);
                },
                Ok(v) => {
                    keys.push((clone_bytes(&doc.entries[i].0), v));
                },
            }
            i += 1;
        }
        let l = Locale { name, keys };
        proof {
            assert(l.wf());
            assert forall|j: int|
                0 <= j < doc.entries@.len() implies spec_parse_raw(
                #[trigger] doc.entries@[j].1,
            ) is Some by {
                assert(spec_parse_raw(doc.entries@[j].1) == Some(l.keys@[j].1@));
            }
        }
        Ok(l)
    }

    /// The locale's key names.
    pub fn get_keys(&self) -> (r: Vec<Vec<u8>>)
        ensures
            names_view(r@) == self.key_names(),
    {
        let mut out: Vec<Vec<u8>> = Vec::new();
        let mut i: usize = 0;
        while i < self.keys.len()
            invariant
                i <= self.keys@.len(),
                out@.len() == i,
                forall|j: int| 0 <= j < i ==> (#[trigger] out@[j])@ == self.keys@[j].0@,
            decreases self.keys@.len() - i,
        {
            out.push(clone_bytes(&self.keys[i].0));
            i += 1;
        }
        proof {
            assert(names_view(out@) =~= self.key_names());
        }
        out
    }

    /// Whether the locale has the key named `k`.
    pub fn contains_key_name(&self, k: &Vec<u8>) -> (r: bool)
        ensures
            r == self.has_key(k@),
    {
        let mut i: usize = 0;
        while i < self.keys.len()
            invariant
                i <= self.keys@.len(),
                forall|j: int| 0 <= j < i ==> (#[trigger] self.keys@[j]).0@ != k@,
            decreases self.keys@.len() - i,
        {
            if bytes_eq(&self.keys[i].0, k) {
                return true;
            }
            i += 1;
        }
        false
    }
}

/// The parsed value a locale holds for key `k`.
#[verifier::loop_isolation(false)]
fn value_for<'a>(l: &'a Locale, k: &Vec<u8>) -> (v: &'a ParsedValue)
    requires
        l.wf(),
        l.has_key(k@),
    ensures
        v@ == l.value_of(k@),
{
    let mut i: usize = 0;
    while i < l.keys.len()
        invariant
            i <= l.keys@.len(),
            forall|j: int| 0 <= j < i ==> (#[trigger] l.keys@[j]).0@ != k@,
        decreases l.keys@.len() - i,
    {
        if bytes_eq(&l.keys[i].0, k) {
            proof {
                l.lemma_value_at(i as int);
            }
            return &l.keys[i].1;
        }
        i += 1;
    }
    proof {
        assert(false);
    }
    vstd::pervasive::unreached()
}

/// The views of a list of byte strings.
pub open spec fn names_view(s: Seq<Vec<u8>>) -> Seq<Seq<u8>> {
    s.map_values(|x: Vec<u8>| x@)
}

/// Whether every key of `a` also stands in `b`.
#[verifier::loop_isolation(false)]
fn keys_subset(a: &Locale, b: &Locale) -> (r: bool)
    ensures
        r == a.key_set().subset_of(b.key_set()),
{
    let mut i: usize = 0;
    while i < a.keys.len()
        invariant
            i <= a.keys@.len(),
            forall|j: int| 0 <= j < i ==> b.key_set().contains((#[trigger] a.keys@[j]).0@),
        decreases a.keys@.len() - i,
    {
        if !b.contains_key_name(&a.keys[i].0) {
            proof {
                assert(a.key_set().contains(a.keys@[i as int].0@));
            }
            return false;
        }
        i += 1;
    }
    proof {
        assert forall|k: Seq<u8>| a.key_set().contains(k) implies b.key_set().contains(k) by {
            let j = choose|j: int| 0 <= j < a.keys@.len() && a.keys@[j].0@ == k;
            assert(b.key_set().contains(a.keys@[j].0@));
        }
    }
    true
}

/// Whether two locales expose the same key set.
fn key_sets_equal(a: &Locale, b: &Locale) -> (r: bool)
    ensures
        r == (a.key_set() == b.key_set()),
{
    let r = keys_subset(a, b) && keys_subset(b, a);
    proof {
        if r {
            assert(a.key_set() =~= b.key_set());
        }
    }
    r
}

/// The keys among `names` that the set `other` lacks, in order.
pub open spec fn missing_from(names: Seq<Seq<u8>>, other: Set<Seq<u8>>) -> Seq<Seq<u8>>
    decreases names.len(),
{
    if names.len() == 0 {
        Seq::empty()
    } else {
        let rest = missing_from(names.drop_last(), other);
        if !other.contains(names.last()) {
            rest.push(names.last())
        } else {
            rest
        }
    }
}

/// What `key_missmatch` reports: the missing keys, and the name of the
/// blamed locale.  Keys of the first locale absent from the other are
/// blamed on the other; only when there are none are the other's extra
/// keys blamed on the first.
pub open spec fn missmatch_report(first: Locale, other: Locale) -> (Seq<Seq<u8>>, Seq<u8>) {
    let d1 = missing_from(first.key_names(), other.key_set());
    if d1.len() > 0 {
        (d1, other.name@)
    } else {
        (missing_from(other.key_names(), first.key_set()), first.name@)
    }
}

/// The keys of `a` that `b` lacks, in `a`'s order.
#[verifier::loop_isolation(false)]
fn collect_missing(a: &Locale, b: &Locale) -> (r: Vec<Vec<u8>>)
    ensures
        names_view(r@) == missing_from(a.key_names(), b.key_set()),
{
    let mut out: Vec<Vec<u8>> = Vec::new();
    proof {
        assert(a.key_names().take(0) =~= Seq::<Seq<u8>>::empty());
        assert(names_view(out@) =~= Seq::<Seq<u8>>::empty());
    }
    let mut i: usize = 0;
    while i < a.keys.len()
        invariant
            i <= a.keys@.len(),
            names_view(out@) == missing_from(a.key_names().take(i as int), b.key_set()),
        decreases a.keys@.len() - i,
    {
        let ghost o0 = out@;
        proof {
            assert(a.key_names().take(i + 1).drop_last() =~= a.key_names().take(i as int));
            assert(a.key_names().take(i + 1).last() == a.key_names()[i as int]);
        }
        if !b.contains_key_name(&a.keys[i].0) {
            out.push(clone_bytes(&a.keys[i].0));
            proof {
                assert(names_view(out@) =~= names_view(o0).push(a.key_names()[i as int]));
            }
        }
        i += 1;
    }
    proof {
        assert(a.key_names().take(a.keys@.len() as int) =~= a.key_names());
    }
    out
}

/// Copy of an optional namespace label.
fn clone_ns(ns: Option<&Vec<u8>>) -> (r: Option<Vec<u8>>)
    ensures
        opt_name_view(r) == opt_ref_view(ns),
{
    match ns {
        None => None,
        Some(v) => Some(clone_bytes(v)),
    }
}

/// The name an optional namespace argument denotes.
pub open spec fn opt_ref_view(o: Option<&Vec<u8>>) -> Option<Seq<u8>> {
    match o {
        None => None,
        Some(v) => Some(v@),
    }
}

impl Locale {
    /// The error for two locales whose key sets differ, as
    /// `missmatch_report` describes it.
    pub fn key_missmatch(locale1: &Locale, locale2: &Locale, namespace: Option<&Vec<u8>>) -> (e:
        Error)
        ensures
            e matches Error::MissingKeysInLocale { namespace: ns, keys, locale } && opt_name_view(
                ns,
            ) == opt_ref_view(namespace) && names_view(keys@) == missmatch_report(
                *locale1,
                *locale2,
            ).0 && locale@ == missmatch_report(*locale1, *locale2).1,
    {
        let d1 = collect_missing(locale1, locale2);
        if d1.len() > 0 {
            Error::MissingKeysInLocale {
                namespace: clone_ns(namespace),
                keys: d1,
                locale: clone_bytes(&locale2.name),
            }
        } else {
            let d2 = collect_missing(locale2, locale1);
            Error::MissingKeysInLocale {
                namespace: clone_ns(namespace),
                keys: d2,
                locale: clone_bytes(&locale1.name),
            }
        }
    }
}

/// The inferred type of one translation key: plain text, or a builder
/// that takes the listed interpolation keys.
#[derive(Debug, PartialEq, Eq)]
pub enum LocaleValue {
    String,
    Builder(Vec<InterpolateKey>),
}

/// Whether `v` classifies the interpolation-key set `s`: an empty set is
/// plain text, a non-empty one a builder holding exactly `s`.
pub open spec fn lv_matches(v: LocaleValue, s: Set<AbsKey>) -> bool {
    match v {
        LocaleValue::String => forall|a: AbsKey| !s.contains(a),
        LocaleValue::Builder(ks) => distinct_keys(ks@) && key_set(ks@) == s && (exists|a: AbsKey|
            s.contains(a)),
    }
}

impl LocaleValue {
    /// Classify a merged key list.
    pub fn new(keys: Vec<InterpolateKey>) -> (r: LocaleValue)
        requires
            distinct_keys(keys@),
        ensures
            lv_matches(r, key_set(keys@)),
    {
        if keys.len() == 0 {
            LocaleValue::String
        } else {
            proof {
                assert(key_set(keys@).contains(keys@[0]@));
            }
            LocaleValue::Builder(keys)
        }
    }
}

/// One key-to-type mapping: the unified schema of one locale group.
#[derive(Debug, PartialEq, Eq)]
pub struct BuildersKeysInner(pub Vec<(Vec<u8>, LocaleValue)>);

/// The union of the interpolation keys that the locales' values for key
/// `k` reference, in group order.
pub open spec fn merged_keys(ls: Seq<Locale>, k: Seq<u8>) -> Set<AbsKey>
    decreases ls.len(),
{
    if ls.len() == 0 {
        Set::empty()
    } else {
        pv_keys(ls[0].value_of(k)).union(merged_keys(ls.drop_first(), k))
    }
}

pub proof fn lemma_merged_keys_skip_step(ls: Seq<Locale>, k: Seq<u8>, j: int)
    requires
        0 <= j < ls.len(),
    ensures
        merged_keys(ls.skip(j), k) == pv_keys(ls[j].value_of(k)).union(
            merged_keys(ls.skip(j + 1), k),
        ),
{
    let tail = ls.skip(j);
    assert(tail.drop_first() =~= ls.skip(j + 1));
    assert(tail[0] == ls[j]);
}

pub open spec fn has_count(s: Set<AbsKey>) -> bool {
    exists|pt: PluralType| s.contains(AbsKey::Count(pt))
}

/// All count entries of `s` agree on their taxonomy.
pub open spec fn count_consistent(s: Set<AbsKey>) -> bool {
    forall|t1: PluralType, t2: PluralType|
        s.contains(AbsKey::Count(t1)) && s.contains(AbsKey::Count(t2)) ==> t1 == t2
}

/// The reserved variable name that a plural selector implicitly consumes:
/// the bytes of `var_count`.
pub open spec fn reserved_count_var() -> Seq<u8> {
    seq![118u8, 97u8, 114u8, 95u8, 99u8, 111u8, 117u8, 110u8, 116u8]
}

/// A merged key set after reconciliation: when a count entry is present,
/// the reserved count variable is dropped in its favour.
pub open spec fn final_keys(s: Set<AbsKey>) -> Set<AbsKey> {
    if has_count(s) {
        s.remove(AbsKey::Variable(reserved_count_var()))
    } else {
        s
    }
}

/// A locale group unifies when every key set matches the first locale's
/// and every key's merged interpolation keys use one taxonomy.
pub open spec fn unify_succeeds(ls: Seq<Locale>) -> bool {
    &&& forall|j: int| 1 <= j < ls.len() ==> (#[trigger] ls[j]).key_set() == ls[0].key_set()
    &&& forall|k: Seq<u8>|
        ls[0].has_key(k) ==> count_consistent(#[trigger] merged_keys(ls, k))
}

/// The schema a unified group yields: one entry per key of the first
/// locale, in its order, classifying that key's reconciled key set.
pub open spec fn unified_ok(b: BuildersKeysInner, ls: Seq<Locale>) -> bool {
    &&& b.0@.len() == ls[0].keys@.len()
    &&& forall|i: int|
        0 <= i < b.0@.len() ==> (#[trigger] b.0@[i]).0@ == ls[0].key_names()[i]
    &&& forall|i: int|
        0 <= i < b.0@.len() ==> lv_matches(
            (#[trigger] b.0@[i]).1,
            final_keys(merged_keys(ls, ls[0].key_names()[i])),
        )
}

/// The error a failing group yields: the first locale, in group order,
/// whose key set differs, or else the first key, in the first locale's
/// order, whose merged keys mix taxonomies.
pub open spec fn unify_error(e: Error, ls: Seq<Locale>, ns: Option<Seq<u8>>) -> bool {
    match e {
        Error::MissingKeysInLocale { namespace, keys, locale } => {
            &&& opt_name_view(namespace) == ns
            &&& exists|j: int|
                #![auto]
                {
                    &&& 1 <= j < ls.len()
                    &&& ls[j].key_set() != ls[0].key_set()
                    &&& forall|jj: int|
                        1 <= jj < j ==> (#[trigger] ls[jj]).key_set() == ls[0].key_set()
                    &&& names_view(keys@) == missmatch_report(ls[0], ls[j]).0
                    &&& locale@ == missmatch_report(ls[0], ls[j]).1
                }
        },
        Error::PluralTypeMismatch { locale_key, namespace } => {
            &&& opt_name_view(namespace) == ns
            &&& forall|j: int| 1 <= j < ls.len() ==> (#[trigger] ls[j]).key_set() == ls[0].key_set()
            &&& exists|i: int|
                #![auto]
                {
                    &&& 0 <= i < ls[0].keys@.len()
                    &&& !count_consistent(merged_keys(ls, ls[0].key_names()[i]))
                    &&& forall|ii: int|
                        0 <= ii < i ==> count_consistent(
                            #[trigger] merged_keys(ls, ls[0].key_names()[ii]),
                        )
                    &&& locale_key@ == ls[0].key_names()[i]
                }
        },
        _ => false,
    }
}

/// First count entry among `ks`, if any.
fn find_count(ks: &Vec<InterpolateKey>) -> (r: Option<PluralType>)
    ensures
        match r {
            Some(pt) => key_set(ks@).contains(AbsKey::Count(pt)),
            None => forall|pt: PluralType| !key_set(ks@).contains(AbsKey::Count(pt)),
        },
{
    let mut i: usize = 0;
    while i < ks.len()
        invariant
            i <= ks@.len(),
            forall|j: int| 0 <= j < i ==> !((#[trigger] ks@[j])@ is Count),
        decreases ks@.len() - i,
    {
        match &ks[i] {
            InterpolateKey::Count(pt) => {
                proof {
                    assert(ks@[i as int]@ == AbsKey::Count(*pt));
                }
                return Some(*pt);
            },
            _ => {},
        }
        i += 1;
    }
    proof {
        assert forall|pt: PluralType| !(#[trigger] key_set(ks@).contains(AbsKey::Count(pt))) by {
            if key_set(ks@).contains(AbsKey::Count(pt)) {
                let j = choose|j: int| 0 <= j < ks@.len() && ks@[j]@ == AbsKey::Count(pt);
                assert(ks@[j]@ is Count);
            }
        }
    }
    None
}

/// Whether `ks` holds a count entry of a taxonomy other than `pt`.
fn find_conflict(ks: &Vec<InterpolateKey>, pt: PluralType) -> (r: bool)
    ensures
        r == (exists|t: PluralType| key_set(ks@).contains(AbsKey::Count(t)) && t != pt),
{
    let mut i: usize = 0;
    while i < ks.len()
        invariant
            i <= ks@.len(),
            forall|j: int|
                0 <= j < i ==> ((#[trigger] ks@[j])@ matches AbsKey::Count(t) ==> t == pt),
        decreases ks@.len() - i,
    {
        match &ks[i] {
            InterpolateKey::Count(t) => {
                if !(*t == pt) {
                    proof {
                        assert(ks@[i as int]@ == AbsKey::Count(*t));
                        assert(key_set(ks@).contains(AbsKey::Count(*t)));
                    }
                    return true;
                }
            },
            _ => {},
        }
        i += 1;
    }
    proof {
        if exists|t: PluralType| key_set(ks@).contains(AbsKey::Count(t)) && t != pt {
            let t = choose|t: PluralType| key_set(ks@).contains(AbsKey::Count(t)) && t != pt;
            let j = choose|j: int| 0 <= j < ks@.len() && ks@[j]@ == AbsKey::Count(t);
            assert(false);
        }
    }
    false
}

/// Whether `v` is the reserved count variable name.
fn is_reserved_name(v: &Vec<u8>) -> (r: bool)
    ensures
        r == (v@ == reserved_count_var()),
{
    proof {
        assert(reserved_count_var().len() == 9);
    }
    if v.len() != 9 {
        return false;
    }
    let r = v[0] == 118 && v[1] == 97 && v[2] == 114 && v[3] == 95 && v[4] == 99 && v[5] == 111
        && v[6] == 117 && v[7] == 110 && v[8] == 116;
    proof {
        if r {
            assert(v@ =~= reserved_count_var());
        }
    }
    r
}

/// Copy of one interpolation key.
fn clone_key(k: &InterpolateKey) -> (r: InterpolateKey)
    ensures
        r@ == k@,
{
    match k {
        InterpolateKey::Variable(n) => InterpolateKey::Variable(clone_bytes(n)),
        InterpolateKey::Component(n) => InterpolateKey::Component(clone_bytes(n)),
        InterpolateKey::Count(pt) => InterpolateKey::Count(*pt),
    }
}

/// The keys of `ks` without the reserved count variable.
#[verifier::loop_isolation(false)]
fn remove_reserved(ks: &Vec<InterpolateKey>) -> (r: Vec<InterpolateKey>)
    requires
        distinct_keys(ks@),
    ensures
        distinct_keys(r@),
        key_set(r@) == key_set(ks@).remove(AbsKey::Variable(reserved_count_var())),
{
    let ghost rv = AbsKey::Variable(reserved_count_var());
    let mut out: Vec<InterpolateKey> = Vec::new();
    let mut i: usize = 0;
    while i < ks.len()
        invariant
            i <= ks@.len(),
            distinct_keys(out@),
            forall|x: AbsKey|
                #![auto]
                key_set(out@).contains(x) <==> ((exists|j: int|
                    0 <= j < i && ks@[j]@ == x) && x != rv),
        decreases ks@.len() - i,
    {
        let keep = match &ks[i] {
            InterpolateKey::Variable(n) => !is_reserved_name(n),
            _ => true,
        };
        proof {
            assert(keep == (ks@[i as int]@ != rv));
        }
        let ghost o0 = out@;
        if keep {
            crate::value::push_unique(&mut out, clone_key(&ks[i]));
        }
        proof {
            assert forall|x: AbsKey|
                #![auto]
                key_set(out@).contains(x) <==> ((exists|j: int|
                    0 <= j < i + 1 && ks@[j]@ == x) && x != rv) by {
                if keep {
                    assert(key_set(out@) == key_set(o0).insert(ks@[i as int]@));
                }
            }
        }
        i += 1;
    }
    proof {
        assert(key_set(out@) =~= key_set(ks@).remove(rv));
    }
    out
}

impl Locale {
    /// Unify one group of locales that are supposed to share a key
    /// schema: verify key sets match, merge each key's interpolation keys
    /// across the group, reconcile plural taxonomies, and classify every
    /// key.  The first disagreement, in group order, is the error.
    #[verifier::loop_isolation(false)]
    pub fn check_locales_inner(locales: &Vec<Locale>, namespace: Option<&Vec<u8>>) -> (r: Result<
        BuildersKeysInner,
        Error,
    >)
        requires
            locales@.len() >= 1,
            forall|i: int| 0 <= i < locales@.len() ==> (#[trigger] locales@[i]).wf(),
        ensures
            match r {
                Ok(b) => unify_succeeds(locales@) && unified_ok(b, locales@),
                Err(e) => !unify_succeeds(locales@) && unify_error(
                    e,
                    locales@,
                    opt_ref_view(namespace),
                ),
            },
    {
        let n = locales.len();
        let mut j: usize = 1;
        while j < n
            invariant
                1 <= j <= n,
                forall|jj: int|
                    1 <= jj < j ==> (#[trigger] locales@[jj]).key_set() == locales@[0].key_set(),
            decreases n - j,
        {
            if !key_sets_equal(&locales[0], &locales[j]) {
                let e = Self::key_missmatch(&locales[0], &locales[j], namespace);
                proof {
                    let jw = j as int;
                    assert({
                        &&& 1 <= jw < locales@.len()
                        &&& locales@[jw].key_set() != locales@[0].key_set()
                        &&& forall|jj: int|
                            1 <= jj < jw ==> (#[trigger] locales@[jj]).key_set()
                                == locales@[0].key_set()
                        &&& e matches Error::MissingKeysInLocale { namespace: ns, keys, locale }
                            && names_view(keys@) == missmatch_report(
                            locales@[0],
                            locales@[jw],
                        ).0 && locale@ == missmatch_report(locales@[0], locales@[jw]).1
                    });
                    assert(unify_error(e, locales@, opt_ref_view(namespace)));
                    assert(!unify_succeeds(locales@));
                }
                return Err(e);
            }
            j += 1;
        }
        let m = locales[0].keys.len();
        let mut out: Vec<(Vec<u8>, LocaleValue)> = Vec::new();
        let mut i: usize = 0;
        while i < m
            invariant
                i <= m,
                m == locales@[0].keys@.len(),
                out@.len() == i,
                forall|jj: int|
                    1 <= jj < locales@.len() ==> (#[trigger] locales@[jj]).key_set()
                        == locales@[0].key_set(),
                forall|ii: int|
                    0 <= ii < i ==> (#[trigger] out@[ii]).0@ == locales@[0].key_names()[ii],
                forall|ii: int|
                    0 <= ii < i ==> count_consistent(
                        #[trigger] merged_keys(locales@, locales@[0].key_names()[ii]),
                    ),
                forall|ii: int|
                    0 <= ii < i ==> lv_matches(
                        (#[trigger] out@[ii]).1,
                        final_keys(merged_keys(locales@, locales@[0].key_names()[ii])),
                    ),
            decreases m - i,
        {
            let kname = &locales[0].keys[i].0;
            proof {
                assert(locales@[0].keys@[i as int].0@ == kname@);
                assert(locales@[0].has_key(kname@));
                assert(locales@[0].key_names()[i as int] == kname@);
            }
            let ghost target = merged_keys(locales@, kname@);
            let mut acc: Vec<InterpolateKey> = Vec::new();
            proof {
                assert(locales@.skip(0) =~= locales@);
                assert(key_set(acc@) =~= Set::<AbsKey>::empty());
                assert(key_set(acc@).union(merged_keys(locales@.skip(0), kname@)) =~= target);
            }
            let mut j2: usize = 0;
            while j2 < n
                invariant
                    j2 <= n,
                    distinct_keys(acc@),
                    key_set(acc@).union(merged_keys(locales@.skip(j2 as int), kname@)) == target,
                decreases n - j2,
            {
                proof {
                    if j2 > 0 {
                        assert(locales@[j2 as int].key_set() == locales@[0].key_set());
                    }
                    assert(locales@[j2 as int].has_key(kname@));
                }
                let v = value_for(&locales[j2], kname);
                let ghost before = key_set(acc@);
                v.get_keys_inner(&mut acc);
                proof {
                    lemma_merged_keys_skip_step(locales@, kname@, j2 as int);
                    assert(key_set(acc@).union(merged_keys(locales@.skip(j2 + 1), kname@))
                        =~= before.union(merged_keys(locales@.skip(j2 as int), kname@)));
                }
                j2 += 1;
            }
            proof {
                assert(locales@.skip(n as int) =~= Seq::<Locale>::empty());
                assert(key_set(acc@) =~= key_set(acc@).union(
                    merged_keys(locales@.skip(n as int), kname@)));
                assert(key_set(acc@) == target);
            }
            let lv = match find_count(&acc) {
                Some(pt) => {
                    if find_conflict(&acc, pt) {
                        let e = Error::PluralTypeMismatch {
                            locale_key: clone_bytes(kname),
                            namespace: clone_ns(namespace),
                        };
                        proof {
                            let t = choose|t: PluralType|
                                key_set(acc@).contains(AbsKey::Count(t)) && t != pt;
                            assert(!count_consistent(target));
                            let iw = i as int;
                            assert({
                                &&& 0 <= iw < locales@[0].keys@.len()
                                &&& !count_consistent(
                                    merged_keys(locales@, locales@[0].key_names()[iw]),
                                )
                                &&& forall|ii: int|
                                    0 <= ii < iw ==> count_consistent(
                                        #[trigger] merged_keys(
                                            locales@,
                                            locales@[0].key_names()[ii],
                                        ),
                                    )
                                &&& e matches Error::PluralTypeMismatch { locale_key, namespace: ns }
                                    && locale_key@ == locales@[0].key_names()[iw]
                            });
                            assert(unify_error(e, locales@, opt_ref_view(namespace)));
                            assert(!unify_succeeds(locales@));
                        }
                        return Err(e);
                    }
                    proof {
                        assert forall|t1: PluralType, t2: PluralType|
                            target.contains(AbsKey::Count(t1)) && target.contains(
                                AbsKey::Count(t2),
                            ) implies t1 == t2 by {
                            assert(t1 == pt && t2 == pt);
                        }
                        assert(has_count(target));
                        assert(final_keys(target) == target.remove(
                            AbsKey::Variable(reserved_count_var())));
                    }
                    let filtered = remove_reserved(&acc);
                    LocaleValue::new(filtered)
                },
                None => {
                    proof {
                        assert(count_consistent(target));
                        assert(!has_count(target));
                        assert(final_keys(target) == target);
                    }
                    LocaleValue::new(acc)
                },
            };
            out.push((clone_bytes(kname), lv));
            i += 1;
        }
        let b = BuildersKeysInner(out);
        proof {
            assert forall|k: Seq<u8>|
                locales@[0].has_key(k) implies count_consistent(
                #[trigger] merged_keys(locales@, k),
            ) by {
                let idx = choose|idx: int|
                    0 <= idx < locales@[0].keys@.len() && locales@[0].keys@[idx].0@ == k;
                assert(locales@[0].key_names()[idx] == k);
                assert(count_consistent(merged_keys(locales@, locales@[0].key_names()[idx])));
            }
            assert(unify_succeeds(locales@));
            assert(unified_ok(b, locales@));
        }
        Ok(b)
    }
}

/// The raw content for one locale: its name and its deserialized document.
pub struct LocaleSource {
    pub name: Vec<u8>,
    pub doc: RawDocument,
}

/// The raw content for one namespace: its name and one document per
/// configured locale, in configuration order.
pub struct NamespaceSource {
    pub key: Vec<u8>,
    pub locales: Vec<LocaleSource>,
}

/// All deserialized resource content, grouped as configured.
pub enum RawResources {
    NameSpaces(Vec<NamespaceSource>),
    Locales(Vec<LocaleSource>),
}

pub open spec fn sources_wf(srcs: Seq<LocaleSource>) -> bool {
    forall|i: int| 0 <= i < srcs.len() ==> (#[trigger] srcs[i]).doc.wf()
}

pub open spec fn sources_parse(srcs: Seq<LocaleSource>) -> bool {
    forall|i: int| 0 <= i < srcs.len() ==> (#[trigger] srcs[i]).doc.parses()
}

/// Each source document loaded into its locale, in order.
pub open spec fn locales_from_sources(ls: Seq<Locale>, srcs: Seq<LocaleSource>) -> bool {
    &&& ls.len() == srcs.len()
    &&& forall|i: int|
        0 <= i < srcs.len() ==> (#[trigger] ls[i]).wf() && locale_from_doc(
            ls[i],
            srcs[i].name@,
            srcs[i].doc,
        )
}

/// The parse error of the first source document, in order, that fails.
pub open spec fn sources_error(e: Error, srcs: Seq<LocaleSource>) -> bool {
    exists|i: int|
        #![auto]
        {
            &&& 0 <= i < srcs.len()
            &&& !srcs[i].doc.parses()
            &&& forall|j: int| 0 <= j < i ==> (#[trigger] srcs[j]).doc.parses()
            &&& doc_parse_error(e, srcs[i].doc)
        }
}

/// One namespace: its name and one locale per configured locale.
#[derive(Debug)]
pub struct Namespace {
    pub key: Vec<u8>,
    pub locales: Vec<Locale>,
}

impl Namespace {
    /// Assemble one namespace: load one locale per source document, in
    /// configuration order, stopping at the first malformed document.
    #[verifier::loop_isolation(false)]
    pub fn new(key: Vec<u8>, sources: &Vec<LocaleSource>) -> (r: Result<Namespace, Error>)
        requires
            sources_wf(sources@),
        ensures
            match r {
                Ok(ns) => ns.key@ == key@ && sources_parse(sources@) && locales_from_sources(
                    ns.locales@,
                    sources@,
                ),
                Err(e) => !sources_parse(sources@) && sources_error(e, sources@),
            },
    {
        let mut ls: Vec<Locale> = Vec::new();
        let mut i: usize = 0;
        while i < sources.len()
            invariant
                i <= sources@.len(),
                ls@.len() == i,
                forall|j: int|
                    0 <= j < i ==> (#[trigger] ls@[j]).wf() && locale_from_doc(
                        ls@[j],
                        sources@[j].name@,
                        sources@[j].doc,
                    ),
                forall|j: int| 0 <= j < i ==> (#[trigger] sources@[j]).doc.parses(),
            decreases sources@.len() - i,
        {
            match Locale::new(clone_bytes(&sources[i].name), &sources[i].doc) {
                Err(e) => {
                    proof {
                        let iw = i as int;
                        assert({
                            &&& 0 <= iw < sources@.len()
                            &&& !sources@[iw].doc.parses()
                            &&& forall|j: int|
                                0 <= j < iw ==> (#[trigger] sources@[j]).doc.parses()
                            &&& doc_parse_error(e, sources@[iw].doc)
                        });
                        assert(sources_error(e, sources@));
                    }
                    return Err(e);
                },
                Ok(l) => {
                    ls.push(l);
                },
            }
            i += 1;
        }
        Ok(Namespace { key, locales: ls })
    }
}

/// The loaded resources: per-namespace locale groups, or one flat group.
#[derive(Debug)]
pub enum LocalesOrNamespaces {
    NameSpaces(Vec<Namespace>),
    Locales(Vec<Locale>),
}

pub open spec fn resources_wf(res: RawResources) -> bool {
    match res {
        RawResources::NameSpaces(nss) => forall|i: int|
            0 <= i < nss@.len() ==> sources_wf((#[trigger] nss@[i]).locales@),
        RawResources::Locales(srcs) => sources_wf(srcs@),
    }
}

impl LocalesOrNamespaces {
    /// Load every configured locale, per namespace when namespaces are
    /// configured, stopping at the first malformed document.
    #[verifier::loop_isolation(false)]
    pub fn new(res: &RawResources) -> (r: Result<LocalesOrNamespaces, Error>)
        requires
            resources_wf(*res),
        ensures
            match *res {
                RawResources::Locales(srcs) => match r {
                    Ok(l) => l matches LocalesOrNamespaces::Locales(ls) && sources_parse(srcs@)
                        && locales_from_sources(ls@, srcs@),
                    Err(e) => !sources_parse(srcs@) && sources_error(e, srcs@),
                },
                RawResources::NameSpaces(nss) => match r {
                    Ok(l) => l matches LocalesOrNamespaces::NameSpaces(v) && {
                        &&& v@.len() == nss@.len()
                        &&& forall|i: int|
                            0 <= i < nss@.len() ==> (#[trigger] v@[i]).key@ == nss@[i].key@
                                && locales_from_sources(v@[i].locales@, nss@[i].locales@)
                    },
                    Err(e) => exists|i: int|
                        #![auto]
                        {
                            &&& 0 <= i < nss@.len()
                            &&& !sources_parse(nss@[i].locales@)
                            &&& forall|j: int|
                                0 <= j < i ==> sources_parse((#[trigger] nss@[j]).locales@)
                            &&& sources_error(e, nss@[i].locales@)
                        },
                },
            },
    {
        match res {
            RawResources::Locales(srcs) => {
                match Namespace::new(Vec::new(), srcs) {
                    Ok(ns) => Ok(LocalesOrNamespaces::Locales(ns.locales)),
                    Err(e) => Err(e),
                }
            },
            RawResources::NameSpaces(nss) => {
                let mut v: Vec<Namespace> = Vec::new();
                let mut i: usize = 0;
                while i < nss.len()
                    invariant
                        i <= nss@.len(),
                        v@.len() == i,
                        forall|j: int|
                            0 <= j < i ==> (#[trigger] v@[j]).key@ == nss@[j].key@
                                && locales_from_sources(v@[j].locales@, nss@[j].locales@),
                        forall|j: int| 0 <= j < i ==> sources_parse((#[trigger] nss@[j]).locales@),
                    decreases nss@.len() - i,
                {
                    match Namespace::new(clone_bytes(&nss[i].key), &nss[i].locales) {
                        Err(e) => {
                            proof {
                                let iw = i as int;
                                assert({
                                    &&& 0 <= iw < nss@.len()
                                    &&& !sources_parse(nss@[iw].locales@)
                                    &&& forall|j: int|
                                        0 <= j < iw ==> sources_parse(
                                            (#[trigger] nss@[j]).locales@,
                                        )
                                    &&& sources_error(e, nss@[iw].locales@)
                                });
                            }
                            return Err(e);
                        },
                        Ok(ns) => {
                            v.push(ns);
                        },
                    }
                    i += 1;
                }
                Ok(LocalesOrNamespaces::NameSpaces(v))
            },
        }
    }
}

/// The unified schema: one key-to-type mapping per namespace, or one
/// global mapping.
#[derive(Debug)]
pub enum BuildersKeys {
    NameSpaces { namespaces: Vec<Namespace>, keys: Vec<(Vec<u8>, BuildersKeysInner)> },
    Locales { locales: Vec<Locale>, keys: BuildersKeysInner },
}

/// A locale group fit for unification: non-empty, every locale well
/// formed.
pub open spec fn group_ok(ls: Seq<Locale>) -> bool {
    &&& ls.len() >= 1
    &&& forall|i: int| 0 <= i < ls.len() ==> (#[trigger] ls[i]).wf()
}

pub open spec fn check_locales_pre(l: LocalesOrNamespaces) -> bool {
    match l {
        LocalesOrNamespaces::NameSpaces(nss) => forall|i: int|
            0 <= i < nss@.len() ==> group_ok((#[trigger] nss@[i]).locales@),
        LocalesOrNamespaces::Locales(ls) => group_ok(ls@),
    }
}

impl Locale {
    /// Run the unifier once per namespace, or once globally, in
    /// configuration order; the first failing group's error aborts the
    /// whole reconciliation.
    #[verifier::loop_isolation(false)]
    pub fn check_locales(locales: LocalesOrNamespaces) -> (r: Result<BuildersKeys, Error>)
        requires
            check_locales_pre(locales),
        ensures
            match locales {
                LocalesOrNamespaces::NameSpaces(nss) => match r {
                    Ok(bk) => bk matches BuildersKeys::NameSpaces { namespaces, keys } && {
                        &&& namespaces == nss
                        &&& keys@.len() == nss@.len()
                        &&& forall|i: int|
                            0 <= i < nss@.len() ==> (#[trigger] keys@[i]).0@ == nss@[i].key@
                        &&& forall|i: int|
                            0 <= i < nss@.len() ==> unify_succeeds((#[trigger] nss@[i]).locales@)
                                && unified_ok(keys@[i].1, nss@[i].locales@)
                    },
                    Err(e) => exists|i: int|
                        #![auto]
                        {
                            &&& 0 <= i < nss@.len()
                            &&& !unify_succeeds(nss@[i].locales@)
                            &&& forall|j: int|
                                0 <= j < i ==> unify_succeeds((#[trigger] nss@[j]).locales@)
                            &&& unify_error(e, nss@[i].locales@, Some(nss@[i].key@))
                        },
                },
                LocalesOrNamespaces::Locales(ls) => match r {
                    Ok(bk) => bk matches BuildersKeys::Locales { locales: lv, keys } && lv == ls
                        && unify_succeeds(ls@) && unified_ok(keys, ls@),
                    Err(e) => !unify_succeeds(ls@) && unify_error(e, ls@, None),
                },
            },
    {
        match locales {
            LocalesOrNamespaces::NameSpaces(namespaces) => {
                let mut keys: Vec<(Vec<u8>, BuildersKeysInner)> = Vec::new();
                let mut i: usize = 0;
                while i < namespaces.len()
                    invariant
                        i <= namespaces@.len(),
                        keys@.len() == i,
                        forall|j: int|
                            0 <= j < i ==> (#[trigger] keys@[j]).0@ == namespaces@[j].key@,
                        forall|j: int|
                            0 <= j < i ==> unify_succeeds((#[trigger] namespaces@[j]).locales@)
                                && unified_ok(keys@[j].1, namespaces@[j].locales@),
                    decreases namespaces@.len() - i,
                {
                    match Self::check_locales_inner(
                        &namespaces[i].locales,
                        Some(&namespaces[i].key),
                    ) {
                        Err(e) => {
                            proof {
                                let iw = i as int;
                                assert({
                                    &&& 0 <= iw < namespaces@.len()
                                    &&& !unify_succeeds(namespaces@[iw].locales@)
                                    &&& forall|j: int|
                                        0 <= j < iw ==> unify_succeeds(
                                            (#[trigger] namespaces@[j]).locales@,
                                        )
                                    &&& unify_error(
                                        e,
                                        namespaces@[iw].locales@,
                                        Some(namespaces@[iw].key@),
                                    )
                                });
                            }
                            return Err(e);
                        },
                        Ok(b) => {
                            keys.push((clone_bytes(&namespaces[i].key), b));
                        },
                    }
                    i += 1;
                }
                Ok(BuildersKeys::NameSpaces { namespaces, keys })
            },
            LocalesOrNamespaces::Locales(ls) => {
                match Self::check_locales_inner(&ls, None) {
                    Ok(keys) => Ok(BuildersKeys::Locales { locales: ls, keys }),
                    Err(e) => Err(e),
                }
            },
        }
    }
}

/// The bytes of the resource file suffix `.json`.
pub open spec fn json_suffix() -> Seq<u8> {
    seq![46u8, 106u8, 115u8, 111u8, 110u8]
}

/// Append a copy of `s` to `out`.
fn append_bytes(out: &mut Vec<u8>, s: &Vec<u8>)
    ensures
        final(out)@ == old(out)@ + s@,
{
    let mut i: usize = 0;
    while i < s.len()
        invariant
            i <= s@.len(),
            out@ == old(out)@ + s@.subrange(0, i as int),
        decreases s@.len() - i,
    {
        out.push(s[i]);
        proof {
            assert(out@ =~= old(out)@ + s@.subrange(0, i + 1));
        }
        i += 1;
    }
    proof {
        assert(out@ =~= old(out)@ + s@);
    }
}

/// Append `.json` to `out`.
fn append_json_suffix(out: &mut Vec<u8>)
    ensures
        final(out)@ == old(out)@ + json_suffix(),
{
    out.push(46);
    out.push(106);
    out.push(115);
    out.push(111);
    out.push(110);
    proof {
        assert(out@ =~= old(out)@ + json_suffix());
    }
}

/// The resource path `{dir}/{locale}.json` of a locale without
/// namespaces.
pub fn locale_file_path(dir: &Vec<u8>, locale: &Vec<u8>) -> (r: Vec<u8>)
    ensures
        r@ == dir@ + seq![crate::parse::B_SLASH] + locale@ + json_suffix(),
{
    let mut out = clone_bytes(dir);
    out.push(crate::parse::B_SLASH);
    let ghost mid = out@;
    proof {
        assert(mid =~= dir@ + seq![crate::parse::B_SLASH]);
    }
    append_bytes(&mut out, locale);
    append_json_suffix(&mut out);
    proof {
        assert(out@ =~= dir@ + seq![crate::parse::B_SLASH] + locale@ + json_suffix());
    }
    out
}

/// The resource path `{dir}/{locale}/{namespace}.json` of one namespace's
/// resource for one locale.
pub fn namespace_file_path(dir: &Vec<u8>, locale: &Vec<u8>, namespace: &Vec<u8>) -> (r: Vec<u8>)
    ensures
        r@ == dir@ + seq![crate::parse::B_SLASH] + locale@ + seq![crate::parse::B_SLASH]
            + namespace@ + json_suffix(),
{
    let mut out = clone_bytes(dir);
    out.push(crate::parse::B_SLASH);
    append_bytes(&mut out, locale);
    out.push(crate::parse::B_SLASH);
    append_bytes(&mut out, namespace);
    append_json_suffix(&mut out);
    proof {
        assert(out@ =~= dir@ + seq![crate::parse::B_SLASH] + locale@ + seq![
            crate::parse::B_SLASH,
        ] + namespace@ + json_suffix());
    }
    out
}

} // verus!
