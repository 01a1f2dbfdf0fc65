//! Laws of the unifier, stated and proved once over the specifications
//! the contracts use.

use vstd::prelude::*;

use crate::locale::{
    BuildersKeysInner, Locale, count_consistent, final_keys, has_count, lv_matches, merged_keys,
    reserved_count_var, unified_ok, unify_succeeds,
};
use crate::parse::{
    B_LT, lit_end, parse_at, spec_parse_text, starts_close_tag, starts_var,
};
use crate::value::{AbsKey, AbsSeg, PluralType, pv_keys, seg_keys, segs_keys};

verus! {

/// An interpolation key is merged for `k` exactly when some locale of the
/// group references it in its value for `k`.
pub proof fn lemma_merged_keys_contains(ls: Seq<Locale>, k: Seq<u8>, a: AbsKey)
    ensures
        merged_keys(ls, k).contains(a) <==> exists|i: int|
            0 <= i < ls.len() && pv_keys((#[trigger] ls[i]).value_of(k)).contains(a),
    decreases ls.len(),
{
    if ls.len() > 0 {
        lemma_merged_keys_contains(ls.drop_first(), k, a);
        if merged_keys(ls, k).contains(a) {
            if pv_keys(ls[0].value_of(k)).contains(a) {
                assert(pv_keys(ls[0].value_of(k)).contains(a));
            } else {
                let i = choose|i: int|
                    0 <= i < ls.drop_first().len() && pv_keys(
                        (#[trigger] ls.drop_first()[i]).value_of(k),
                    ).contains(a);
                assert(ls.drop_first()[i] == ls[i + 1]);
                assert(pv_keys(ls[i + 1].value_of(k)).contains(a));
            }
        }
        if exists|i: int|
            0 <= i < ls.len() && pv_keys((#[trigger] ls[i]).value_of(k)).contains(a) {
            let i = choose|i: int|
                0 <= i < ls.len() && pv_keys((#[trigger] ls[i]).value_of(k)).contains(a);
            if i == 0 {
                assert(merged_keys(ls, k).contains(a));
            } else {
                assert(ls.drop_first()[i - 1] == ls[i]);
                assert(merged_keys(ls.drop_first(), k).contains(a));
            }
        }
    }
}

/// Two groups holding the same locales merge every key identically.
pub proof fn lemma_merged_keys_same_elements(l1: Seq<Locale>, l2: Seq<Locale>, k: Seq<u8>)
    requires
        forall|x: Locale| l1.contains(x) <==> l2.contains(x),
    ensures
        merged_keys(l1, k) == merged_keys(l2, k),
{
    assert forall|a: AbsKey| merged_keys(l1, k).contains(a) <==> merged_keys(l2, k).contains(
        a,
    ) by {
        lemma_merged_keys_contains(l1, k, a);
        lemma_merged_keys_contains(l2, k, a);
        if exists|i: int| 0 <= i < l1.len() && pv_keys((#[trigger] l1[i]).value_of(k)).contains(a) {
            let i = choose|i: int|
                0 <= i < l1.len() && pv_keys((#[trigger] l1[i]).value_of(k)).contains(a);
            assert(l1.contains(l1[i]));
            let j = choose|j: int| 0 <= j < l2.len() && l2[j] == l1[i];
            assert(pv_keys((l2[j]).value_of(k)).contains(a));
        }
        if exists|i: int| 0 <= i < l2.len() && pv_keys((#[trigger] l2[i]).value_of(k)).contains(a) {
            let i = choose|i: int|
                0 <= i < l2.len() && pv_keys((#[trigger] l2[i]).value_of(k)).contains(a);
            assert(l2.contains(l2[i]));
            let j = choose|j: int| 0 <= j < l1.len() && l1[j] == l2[i];
            assert(pv_keys((l1[j]).value_of(k)).contains(a));
        }
    }
    assert(merged_keys(l1, k) =~= merged_keys(l2, k));
}

/// Unification is order-independent: a group made of the same locales in
/// another order succeeds as well, and reconciles every key to the same
/// interpolation keys, so every key classifies identically.  Only the
/// names blamed in error messages depend on the order.
pub proof fn lemma_unify_order_independent(l1: Seq<Locale>, l2: Seq<Locale>)
    requires
        forall|x: Locale| l1.contains(x) <==> l2.contains(x),
        l1.len() >= 1,
        l2.len() >= 1,
        unify_succeeds(l1),
    ensures
        unify_succeeds(l2),
        forall|k: Seq<u8>|
            final_keys(#[trigger] merged_keys(l1, k)) == final_keys(merged_keys(l2, k)),
{
    assert forall|x: Locale| l1.contains(x) implies x.key_set() == l1[0].key_set() by {
        let i = choose|i: int| 0 <= i < l1.len() && l1[i] == x;
        if i > 0 {
            assert(l1[i].key_set() == l1[0].key_set());
        }
    }
    assert(l2.contains(l2[0]));
    assert(l2[0].key_set() == l1[0].key_set());
    assert forall|j: int| 1 <= j < l2.len() implies (#[trigger] l2[j]).key_set()
        == l2[0].key_set() by {
        assert(l2.contains(l2[j]));
    }
    assert forall|k: Seq<u8>| true implies final_keys(#[trigger] merged_keys(l1, k))
        == final_keys(merged_keys(l2, k)) by {
        lemma_merged_keys_same_elements(l1, l2, k);
    }
    assert forall|k: Seq<u8>| l2[0].has_key(k) implies count_consistent(
        #[trigger] merged_keys(l2, k),
    ) by {
        lemma_merged_keys_same_elements(l1, l2, k);
        assert(l1[0].has_key(k));
        assert(count_consistent(merged_keys(l1, k)));
    }
}

/// A plural selector subsumes the reserved count variable: after
/// reconciliation, a key set holding a count entry keeps exactly one
/// count taxonomy and holds no variable of the reserved name.
pub proof fn lemma_count_subsumes_reserved(s: Set<AbsKey>)
    requires
        count_consistent(s),
        has_count(s),
    ensures
        !final_keys(s).contains(AbsKey::Variable(reserved_count_var())),
        forall|t: PluralType|
            s.contains(AbsKey::Count(t)) ==> final_keys(s).contains(AbsKey::Count(t)),
        forall|t1: PluralType, t2: PluralType|
            final_keys(s).contains(AbsKey::Count(t1)) && final_keys(s).contains(
                AbsKey::Count(t2),
            ) ==> t1 == t2,
{
}

/// A key whose values reference no interpolation keys in any locale
/// classifies as plain text.
pub proof fn lemma_plain_value_is_string(b: BuildersKeysInner, ls: Seq<Locale>, i: int)
    requires
        ls.len() >= 1,
        unified_ok(b, ls),
        0 <= i < b.0@.len(),
        forall|a: AbsKey| !merged_keys(ls, ls[0].key_names()[i]).contains(a),
    ensures
        b.0@[i].1 == crate::locale::LocaleValue::String,
{
    let m = merged_keys(ls, ls[0].key_names()[i]);
    let s = final_keys(m);
    assert(forall|a: AbsKey| !s.contains(a));
    assert(lv_matches(b.0@[i].1, s));
    match b.0@[i].1 {
        crate::locale::LocaleValue::String => {},
        crate::locale::LocaleValue::Builder(ks) => {
            let a = choose|a: AbsKey| s.contains(a);
            assert(false);
        },
    }
}

proof fn lemma_lit_end_all(s: Seq<u8>, i: int)
    requires
        0 <= i <= s.len(),
        forall|j: int| 0 <= j < s.len() ==> !starts_var(s, j) && s[j] != B_LT,
    ensures
        lit_end(s, i) == s.len(),
    decreases s.len() - i,
{
    if i < s.len() {
        lemma_lit_end_all(s, i + 1);
    }
}

/// A text with no placeholder and no markup parses, and its parsed
/// segments reference no interpolation keys: such a value is plain text.
pub proof fn lemma_plain_text_has_no_keys(s: Seq<u8>, ct: PluralType)
    requires
        s.len() < usize::MAX,
        forall|j: int| 0 <= j < s.len() ==> !starts_var(s, j) && s[j] != B_LT,
    ensures
        spec_parse_text(s, ct) matches Some(segs) && segs_keys(segs) == Set::<AbsKey>::empty(),
{
    let fuel = (s.len() + 1) as nat;
    if s.len() == 0 {
        assert(spec_parse_text(s, ct) == Some(Seq::<AbsSeg>::empty()));
        assert(segs_keys(Seq::<AbsSeg>::empty()) =~= Set::<AbsKey>::empty());
    } else {
        assert(!starts_close_tag(s, 0));
        lemma_lit_end_all(s, 0);
        let lit = AbsSeg::Literal(s.subrange(0, s.len() as int));
        let segs = seq![lit];
        assert(parse_at(s, s.len() as int, ct, (fuel - 1) as nat) == Some(
            (Seq::<AbsSeg>::empty(), s.len() as int),
        ));
        assert(parse_at(s, 0, ct, fuel) == Some((seq![lit] + Seq::<AbsSeg>::empty(), s.len() as int)));
        assert(seq![lit] + Seq::<AbsSeg>::empty() =~= segs);
        assert(spec_parse_text(s, ct) == Some(segs));
        assert(segs.drop_first() =~= Seq::<AbsSeg>::empty());
        assert(segs[0] == lit);
        assert(seg_keys(lit).union(segs_keys(segs.drop_first())) =~= Set::<AbsKey>::empty());
        assert(segs_keys(segs) =~= Set::<AbsKey>::empty());
    }
}

} // verus!
