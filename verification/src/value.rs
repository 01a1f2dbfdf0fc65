//! Raw and parsed translation values, and the interpolation keys they reference.

use vstd::prelude::*;

verus! {

/// Which plural-category taxonomy a selector uses.
#[derive(Clone, Copy, PartialEq, Eq, Structural, Debug)]
pub enum PluralType {
    Cardinal,
    Ordinal,
}

/// One raw value of a locale resource, before parsing: either plain text
/// (with placeholder syntax), or a plural/range selector carrying its
/// taxonomy and labelled branches of text.
#[derive(Debug, Clone, PartialEq, Eq)]
pub enum RawValue {
    Text(Vec<u8>),
    Plural(PluralType, Vec<(Vec<u8>, Vec<u8>)>),
}

/// One parsed piece of a text value: literal bytes, a `{{name}}` variable
/// placeholder, a `{{count}}` plural-count reference, or a
/// `<tag>...</tag>` component wrapping nested parsed content.
#[derive(Debug, PartialEq, Eq)]
pub enum Segment {
    Literal(Vec<u8>),
    Variable(Vec<u8>),
    Count(PluralType),
    Component(Vec<u8>, Vec<Segment>),
}

/// A fully parsed value: a sequence of segments, or a plural selector whose
/// branches are each a sequence of segments.
#[derive(Debug, PartialEq, Eq)]
pub enum ParsedValue {
    Bloc(Vec<Segment>),
    Plural(PluralType, Vec<(Vec<u8>, Vec<Segment>)>),
}

/// A tagged interpolation reference extracted from a parsed value.
#[derive(Debug, Clone, PartialEq, Eq)]
pub enum InterpolateKey {
    Variable(Vec<u8>),
    Component(Vec<u8>),
    Count(PluralType),
}

/// Mathematical model of a parsed segment.
pub enum AbsSeg {
    Literal(Seq<u8>),
    Variable(Seq<u8>),
    Count(PluralType),
    Component(Seq<u8>, Seq<AbsSeg>),
}

/// Mathematical model of a parsed value.
pub enum AbsValue {
    Bloc(Seq<AbsSeg>),
    Plural(PluralType, Seq<(Seq<u8>, Seq<AbsSeg>)>),
}

/// Mathematical model of an interpolation key.
pub enum AbsKey {
    Variable(Seq<u8>),
    Component(Seq<u8>),
    Count(PluralType),
}

/// The mathematical value of one parsed segment.
pub open spec fn seg_view(s: Segment) -> AbsSeg
    decreases s,
{
    match s {
        Segment::Literal(t) => AbsSeg::Literal(t@),
        Segment::Variable(n) => AbsSeg::Variable(n@),
        Segment::Count(pt) => AbsSeg::Count(pt),
        Segment::Component(n, inner) => AbsSeg::Component(n@, segs_view(inner@)),
    }
}

/// The mathematical values of a list of parsed segments.
pub open spec fn segs_view(ss: Seq<Segment>) -> Seq<AbsSeg>
    decreases ss,
{
    if ss.len() == 0 {
        Seq::empty()
    } else {
        seq![seg_view(ss[0])] + segs_view(ss.drop_first())
    }
}

pub proof fn lemma_segs_view_cons(x: Segment, t: Seq<Segment>)
    ensures
        segs_view(seq![x] + t) == seq![seg_view(x)] + segs_view(t),
{
    let ss = seq![x] + t;
    assert(ss.drop_first() =~= t);
    assert(ss[0] == x);
}

impl View for Segment {
    type V = AbsSeg;

    open spec fn view(&self) -> AbsSeg {
        seg_view(*self)
    }
}

impl View for ParsedValue {
    type V = AbsValue;

    open spec fn view(&self) -> AbsValue {
        match *self {
            ParsedValue::Bloc(ss) => AbsValue::Bloc(segs_view(ss@)),
            ParsedValue::Plural(pt, branches) => AbsValue::Plural(
                pt,
                branches@.map_values(|b: (Vec<u8>, Vec<Segment>)| (b.0@, segs_view(b.1@))),
            ),
        }
    }
}

impl View for InterpolateKey {
    type V = AbsKey;

    open spec fn view(&self) -> AbsKey {
        match *self {
            InterpolateKey::Variable(n) => AbsKey::Variable(n@),
            InterpolateKey::Component(n) => AbsKey::Component(n@),
            InterpolateKey::Count(pt) => AbsKey::Count(pt),
        }
    }
}

/// The set of interpolation keys a parsed segment references.
pub open spec fn seg_keys(s: AbsSeg) -> Set<AbsKey>
    decreases s,
{
    match s {
        AbsSeg::Literal(_) => Set::empty(),
        AbsSeg::Variable(n) => Set::empty().insert(AbsKey::Variable(n)),
        AbsSeg::Count(pt) => Set::empty().insert(AbsKey::Count(pt)),
        AbsSeg::Component(n, inner) => segs_keys(inner).insert(AbsKey::Component(n)),
    }
}

/// The set of interpolation keys a list of segments references.
pub open spec fn segs_keys(ss: Seq<AbsSeg>) -> Set<AbsKey>
    decreases ss,
{
    if ss.len() == 0 {
        Set::empty()
    } else {
        seg_keys(ss[0]).union(segs_keys(ss.drop_first()))
    }
}

/// The set of interpolation keys a selector's branches reference.
pub open spec fn branches_keys(bs: Seq<(Seq<u8>, Seq<AbsSeg>)>) -> Set<AbsKey>
    decreases bs,
{
    if bs.len() == 0 {
        Set::empty()
    } else {
        segs_keys(bs[0].1).union(branches_keys(bs.drop_first()))
    }
}

/// The set of interpolation keys a parsed value references: a plural
/// selector contributes a count key of its own taxonomy besides whatever
/// its branches reference.
pub open spec fn pv_keys(v: AbsValue) -> Set<AbsKey> {
    match v {
        AbsValue::Bloc(ss) => segs_keys(ss),
        AbsValue::Plural(pt, branches) => branches_keys(branches).insert(AbsKey::Count(pt)),
    }
}

/// The set of distinct interpolation keys a list of them holds.
pub open spec fn key_set(ks: Seq<InterpolateKey>) -> Set<AbsKey> {
    Set::new(|a: AbsKey| exists|i: int| 0 <= i < ks.len() && ks[i]@ == a)
}

/// No two entries denote the same interpolation key.
pub open spec fn distinct_keys(ks: Seq<InterpolateKey>) -> bool {
    forall|i: int, j: int| 0 <= i < j < ks.len() ==> ks[i]@ != ks[j]@
}

/// Copy of a byte string.
pub fn clone_bytes(v: &Vec<u8>) -> (r: Vec<u8>)
    ensures
        r@ == v@,
{
    let mut out: Vec<u8> = Vec::new();
    let mut i: usize = 0;
    while i < v.len()
        invariant
            i <= v@.len(),
            out@ == v@.subrange(0, i as int),
        decreases v@.len() - i,
    {
        out.push(v[i]);
        proof {
            assert(out@ =~= v@.subrange(0, i + 1));
        }
        i += 1;
    }
    proof {
        assert(out@ =~= v@);
    }
    out
}

/// Equality of interpolation keys, by tag and name.
pub fn ik_eq(a: &InterpolateKey, b: &InterpolateKey) -> (r: bool)
    ensures
        r == (a@ == b@),
{
    match (a, b) {
        (InterpolateKey::Variable(x), InterpolateKey::Variable(y)) => bytes_eq(x, y),
        (InterpolateKey::Component(x), InterpolateKey::Component(y)) => bytes_eq(x, y),
        (InterpolateKey::Count(p), InterpolateKey::Count(q)) => *p == *q,
        _ => false,
    }
}

/// Whether `k` is already among `ks`.
pub fn contains_key(ks: &Vec<InterpolateKey>, k: &InterpolateKey) -> (r: bool)
    ensures
        r == key_set(ks@).contains(k@),
{
    let mut i: usize = 0;
    while i < ks.len()
        invariant
            i <= ks@.len(),
            forall|j: int| 0 <= j < i ==> ks@[j]@ != k@,
        decreases ks@.len() - i,
    {
        if ik_eq(&ks[i], k) {
            return true;
        }
        i += 1;
    }
    false
}

/// Add `k` unless an equal key is already present.
pub fn push_unique(acc: &mut Vec<InterpolateKey>, k: InterpolateKey)
    requires
        distinct_keys(old(acc)@),
    ensures
        distinct_keys(final(acc)@),
        key_set(final(acc)@) == key_set(old(acc)@).insert(k@),
{
    if !contains_key(acc, &k) {
        let ghost a0 = acc@;
        acc.push(k);
        proof {
            assert forall|x: AbsKey| key_set(acc@).contains(x)
                <==> key_set(a0).insert(k@).contains(x) by {
                if key_set(a0).insert(k@).contains(x) {
                    if x == k@ {
                        assert(acc@[a0.len() as int]@ == x);
                    } else {
                        let i = choose|i: int| 0 <= i < a0.len() && a0[i]@ == x;
                        assert(acc@[i]@ == x);
                    }
                }
            }
            assert(key_set(acc@) =~= key_set(a0).insert(k@));
        }
    } else {
        proof {
            assert(key_set(acc@) =~= key_set(acc@).insert(k@));
        }
    }
}

/// Unfolding step: the keys of the segments from `k` on are the keys of
/// segment `k` joined with those of the segments after it.
pub proof fn lemma_segs_keys_skip_step(ss: Seq<Segment>, k: int)
    requires
        0 <= k < ss.len(),
    ensures
        segs_keys(segs_view(ss.skip(k))) == seg_keys(seg_view(ss[k])).union(
            segs_keys(segs_view(ss.skip(k + 1))),
        ),
{
    let tail = ss.skip(k);
    assert(tail.drop_first() =~= ss.skip(k + 1));
    assert(tail[0] == ss[k]);
    let av = segs_view(tail);
    assert(av == seq![seg_view(tail[0])] + segs_view(tail.drop_first()));
    assert(av.drop_first() =~= segs_view(tail.drop_first()));
    assert(av[0] == seg_view(ss[k]));
}

/// Collect the interpolation keys of one segment into `acc`, without
/// duplicates.
#[verifier::loop_isolation(false)]
pub fn collect_seg(seg: &Segment, acc: &mut Vec<InterpolateKey>)
    requires
        distinct_keys(old(acc)@),
    ensures
        distinct_keys(final(acc)@),
        key_set(final(acc)@) == key_set(old(acc)@).union(seg_keys(seg@)),
    decreases *seg,
{
    match seg {
        Segment::Literal(_) => {
            proof {
                assert(key_set(acc@) =~= key_set(acc@).union(seg_keys(seg@)));
            }
        },
        Segment::Variable(n) => {
            push_unique(acc, InterpolateKey::Variable(clone_bytes(n)));
            proof {
                assert(key_set(acc@) =~= key_set(old(acc)@).union(seg_keys(seg@)));
            }
        },
        Segment::Count(pt) => {
            push_unique(acc, InterpolateKey::Count(*pt));
            proof {
                assert(key_set(acc@) =~= key_set(old(acc)@).union(seg_keys(seg@)));
            }
        },
        Segment::Component(n, inner) => {
            push_unique(acc, InterpolateKey::Component(clone_bytes(n)));
            let ghost base = key_set(acc@);
            proof {
                assert(inner@.skip(0) =~= inner@);
            }
            let mut k: usize = 0;
            while k < inner.len()
                invariant
                    k <= inner@.len(),
                    distinct_keys(acc@),
                    key_set(acc@).union(segs_keys(segs_view(inner@.skip(k as int)))) == base.union(
                        segs_keys(segs_view(inner@)),
                    ),
                decreases inner@.len() - k,
            {
                let ghost before = key_set(acc@);
                proof {
                    broadcast use vstd::std_specs::vec::axiom_vec_index_decreases;

                    assert(decreases_to!(*seg => seg->Component_1));
                    assert(seg->Component_1 == *inner);
                    assert(decreases_to!(*inner => inner[k as int]));
                }
                collect_seg(&inner[k], acc);
                proof {
                    lemma_segs_keys_skip_step(inner@, k as int);
                    assert(key_set(acc@).union(segs_keys(segs_view(inner@.skip(k + 1)))) =~= before
                        .union(segs_keys(segs_view(inner@.skip(k as int)))));
                }
                k += 1;
            }
            proof {
                assert(inner@.skip(inner@.len() as int) =~= Seq::<Segment>::empty());
                assert(segs_keys(segs_view(inner@.skip(inner@.len() as int)))
                    =~= Set::<AbsKey>::empty());
                assert(key_set(acc@) =~= key_set(acc@).union(
                    segs_keys(segs_view(inner@.skip(inner@.len() as int)))));
                assert(key_set(acc@) =~= key_set(old(acc)@).union(seg_keys(seg@)));
            }
        },
    }
}

/// Unfolding step for branch sequences, as `lemma_segs_keys_skip_step`.
pub proof fn lemma_branches_keys_skip_step(bs: Seq<(Seq<u8>, Seq<AbsSeg>)>, k: int)
    requires
        0 <= k < bs.len(),
    ensures
        branches_keys(bs.skip(k)) == segs_keys(bs[k].1).union(branches_keys(bs.skip(k + 1))),
{
    let tail = bs.skip(k);
    assert(tail.drop_first() =~= bs.skip(k + 1));
    assert(tail[0] == bs[k]);
}

/// Collect the interpolation keys of a list of segments into `acc`,
/// without duplicates.
#[verifier::loop_isolation(false)]
pub fn collect_segs(ss: &Vec<Segment>, acc: &mut Vec<InterpolateKey>)
    requires
        distinct_keys(old(acc)@),
    ensures
        distinct_keys(final(acc)@),
        key_set(final(acc)@) == key_set(old(acc)@).union(segs_keys(segs_view(ss@))),
{
    proof {
        assert(ss@.skip(0) =~= ss@);
    }
    let mut k: usize = 0;
    while k < ss.len()
        invariant
            k <= ss@.len(),
            distinct_keys(acc@),
            key_set(acc@).union(segs_keys(segs_view(ss@.skip(k as int)))) == key_set(
                old(acc)@,
            ).union(segs_keys(segs_view(ss@))),
        decreases ss@.len() - k,
    {
        let ghost before = key_set(acc@);
        collect_seg(&ss[k], acc);
        proof {
            lemma_segs_keys_skip_step(ss@, k as int);
            assert(key_set(acc@).union(segs_keys(segs_view(ss@.skip(k + 1)))) =~= before.union(
                segs_keys(segs_view(ss@.skip(k as int)))));
        }
        k += 1;
    }
    proof {
        assert(ss@.skip(ss@.len() as int) =~= Seq::<Segment>::empty());
        assert(key_set(acc@) =~= key_set(acc@).union(
            segs_keys(segs_view(ss@.skip(ss@.len() as int)))));
    }
}

impl ParsedValue {
    /// Add every interpolation key this value references to `acc`, keeping
    /// the entries free of duplicates.
    #[verifier::loop_isolation(false)]
    pub fn get_keys_inner(&self, acc: &mut Vec<InterpolateKey>)
        requires
            distinct_keys(old(acc)@),
        ensures
            distinct_keys(final(acc)@),
            key_set(final(acc)@) == key_set(old(acc)@).union(pv_keys(self@)),
    {
        match self {
            ParsedValue::Bloc(ss) => {
                collect_segs(ss, acc);
            },
            ParsedValue::Plural(pt, branches) => {
                let ghost bv = branches@.map_values(
                    |b: (Vec<u8>, Vec<Segment>)| (b.0@, segs_view(b.1@)),
                );
                push_unique(acc, InterpolateKey::Count(*pt));
                let ghost base = key_set(acc@);
                proof {
                    assert(bv.skip(0) =~= bv);
                }
                let mut k: usize = 0;
                while k < branches.len()
                    invariant
                        k <= branches@.len(),
                        distinct_keys(acc@),
                        key_set(acc@).union(branches_keys(bv.skip(k as int))) == base.union(
                            branches_keys(bv),
                        ),
                    decreases branches@.len() - k,
                {
                    let ghost before = key_set(acc@);
                    collect_segs(&branches[k].1, acc);
                    proof {
                        lemma_branches_keys_skip_step(bv, k as int);
                        assert(bv[k as int].1 == segs_view(branches@[k as int].1@));
                        assert(key_set(acc@).union(branches_keys(bv.skip(k + 1))) =~= before.union(
                            branches_keys(bv.skip(k as int))));
                    }
                    k += 1;
                }
                proof {
                    assert(bv.skip(bv.len() as int) =~= Seq::<(Seq<u8>, Seq<AbsSeg>)>::empty());
                    assert(key_set(acc@) =~= key_set(acc@).union(
                        branches_keys(bv.skip(bv.len() as int))));
                    assert(key_set(acc@) =~= key_set(old(acc)@).union(pv_keys(self@)));
                }
            },
        }
    }

    /// Every interpolation key this value references, without duplicates.
    pub fn get_keys(&self) -> (r: Vec<InterpolateKey>)
        ensures
            distinct_keys(r@),
            key_set(r@) == pv_keys(self@),
    {
        let mut acc: Vec<InterpolateKey> = Vec::new();
        proof {
            assert(key_set(acc@) =~= Set::<AbsKey>::empty());
        }
        self.get_keys_inner(&mut acc);
        proof {
            assert(key_set(acc@) =~= pv_keys(self@));
        }
        acc
    }
}

/// Byte-string equality.
pub fn bytes_eq(a: &Vec<u8>, b: &Vec<u8>) -> (r: bool)
    ensures
        r == (a@ == b@),
{
    if a.len() != b.len() {
        assert(a@ != b@);
        return false;
    }
    let n = a.len();
    let mut i: usize = 0;
    while i < n
        invariant
            n == a@.len() == b@.len(),
            i <= n,
            forall|j: int| 0 <= j < i ==> a@[j] == b@[j],
        decreases n - i,
    {
        if a[i] != b[i] {
            return false;
        }
        i += 1;
    }
    assert(a@ =~= b@);
    true
}

} // verus!
