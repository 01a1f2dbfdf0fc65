//! The value parser: turns raw text with `{{name}}` placeholders and
//! `<tag>...</tag>` component markup into parsed segments.
//!
//! The grammar is stated once, as the spec functions `parse_at` /
//! `spec_parse_text`, and the executable parser is proved to return exactly
//! what they describe.

use vstd::prelude::*;

use crate::value::{
    AbsSeg, AbsValue, ParsedValue, PluralType, RawValue, Segment, lemma_segs_view_cons, segs_view,
};

verus! {

/// Why a value failed to parse.
#[derive(Debug, Clone, Copy, PartialEq, Eq, Structural)]
pub enum ParseErrorKind {
    /// `{{` not followed by an identifier and `}}`.
    BadPlaceholder,
    /// `<` not followed by an identifier and `>`.
    BadOpenTag,
    /// Component content not followed by a close tag.
    UnclosedTag,
    /// Close tag whose name differs from the open tag's.
    MismatchedCloseTag,
    /// Close tag with no matching open tag.
    StrayCloseTag,
    /// Nesting deeper than the input length allows.
    TooDeep,
}

/// A malformed fragment: the byte offset where it starts, and what was wrong.
#[derive(Debug, Clone, Copy, PartialEq, Eq, Structural)]
pub struct ParseError {
    pub position: usize,
    pub kind: ParseErrorKind,
}

/// The space byte.
pub const B_SPACE: u8 = 32;

/// The byte `/`.
pub const B_SLASH: u8 = 47;

/// The byte `<`.
pub const B_LT: u8 = 60;

/// The byte `>`.
pub const B_GT: u8 = 62;

/// The byte `{`.
pub const B_LBRACE: u8 = 123;

/// The byte `}`.
pub const B_RBRACE: u8 = 125;

/// Bytes allowed in placeholder and tag names: ASCII letters, digits and
/// the underscore.
pub open spec fn is_ident_byte(b: u8) -> bool {
    (97 <= b && b <= 122) || (65 <= b && b <= 90) || (48 <= b && b <= 57) || b == 95
}

/// The reserved placeholder name that denotes the plural count: the bytes
/// of `count`.
pub open spec fn count_name() -> Seq<u8> {
    seq![99u8, 111u8, 117u8, 110u8, 116u8]
}

/// First index at or after `i` holding no space byte.
pub open spec fn skip_spaces(s: Seq<u8>, i: int) -> int
    decreases s.len() - i,
{
    if i < s.len() && s[i] == B_SPACE {
        skip_spaces(s, i + 1)
    } else {
        i
    }
}

/// First index at or after `i` holding no identifier byte.
pub open spec fn ident_end(s: Seq<u8>, i: int) -> int
    decreases s.len() - i,
{
    if i < s.len() && is_ident_byte(s[i]) {
        ident_end(s, i + 1)
    } else {
        i
    }
}

pub open spec fn starts_var(s: Seq<u8>, i: int) -> bool {
    i + 2 <= s.len() && s[i] == B_LBRACE && s[i + 1] == B_LBRACE
}

pub open spec fn starts_close_tag(s: Seq<u8>, i: int) -> bool {
    i + 2 <= s.len() && s[i] == B_LT && s[i + 1] == B_SLASH
}

/// First index at or after `i` where a placeholder or tag begins; literal
/// text runs to that point.  A lone `{` is literal text, `<` always begins
/// markup.
pub open spec fn lit_end(s: Seq<u8>, i: int) -> int
    decreases s.len() - i,
{
    if i >= s.len() {
        i
    } else if starts_var(s, i) || s[i] == B_LT {
        i
    } else {
        lit_end(s, i + 1)
    }
}

proof fn lemma_skip_spaces_bounds(s: Seq<u8>, i: int)
    requires
        0 <= i <= s.len(),
    ensures
        i <= skip_spaces(s, i) <= s.len(),
    decreases s.len() - i,
{
    if i < s.len() && s[i] == B_SPACE {
        lemma_skip_spaces_bounds(s, i + 1);
    }
}

proof fn lemma_ident_end_bounds(s: Seq<u8>, i: int)
    requires
        0 <= i <= s.len(),
    ensures
        i <= ident_end(s, i) <= s.len(),
    decreases s.len() - i,
{
    if i < s.len() && is_ident_byte(s[i]) {
        lemma_ident_end_bounds(s, i + 1);
    }
}

proof fn lemma_lit_end_bounds(s: Seq<u8>, i: int)
    requires
        0 <= i <= s.len(),
    ensures
        i <= lit_end(s, i) <= s.len(),
    decreases s.len() - i,
{
    if i < s.len() && !(starts_var(s, i) || s[i] == B_LT) {
        lemma_lit_end_bounds(s, i + 1);
    }
}

/// Parse a `{{ name }}` placeholder beginning at `i`: the name and the index
/// after the closing braces.
pub open spec fn parse_var_at(s: Seq<u8>, i: int) -> Option<(Seq<u8>, int)> {
    let j = skip_spaces(s, i + 2);
    let k = ident_end(s, j);
    if k == j {
        None
    } else {
        let m = skip_spaces(s, k);
        if m + 2 <= s.len() && s[m] == B_RBRACE && s[m + 1] == B_RBRACE {
            Some((s.subrange(j, k), m + 2))
        } else {
            None
        }
    }
}

/// Parse a `<name>` open tag beginning at `i`.
pub open spec fn parse_open_tag_at(s: Seq<u8>, i: int) -> Option<(Seq<u8>, int)> {
    let k = ident_end(s, i + 1);
    if k > i + 1 && k < s.len() && s[k] == B_GT {
        Some((s.subrange(i + 1, k), k + 1))
    } else {
        None
    }
}

/// Parse a `</name>` close tag beginning at `i`.
pub open spec fn parse_close_tag_at(s: Seq<u8>, i: int) -> Option<(Seq<u8>, int)> {
    let k = ident_end(s, i + 2);
    if k > i + 2 && k < s.len() && s[k] == B_GT {
        Some((s.subrange(i + 2, k), k + 1))
    } else {
        None
    }
}

/// Parse segments from `i` on, stopping at the end of input or before a
/// close tag, which the caller owns.  `ct` is the taxonomy a bare
/// `{{count}}` refers to: the enclosing selector's, or cardinal at top
/// level.  The fuel only bounds recursion depth; one unit per remaining
/// byte is enough, since every recursive call starts past `i`.
pub open spec fn parse_at(s: Seq<u8>, i: int, ct: PluralType, fuel: nat) -> Option<
    (Seq<AbsSeg>, int),
>
    decreases fuel,
{
    if fuel == 0 {
        None
    } else if i >= s.len() {
        Some((Seq::empty(), i))
    } else if starts_close_tag(s, i) {
        Some((Seq::empty(), i))
    } else if starts_var(s, i) {
        match parse_var_at(s, i) {
            None => None,
            Some((name, j)) => {
                let seg = if name == count_name() {
                    AbsSeg::Count(ct)
                } else {
                    AbsSeg::Variable(name)
                };
                match parse_at(s, j, ct, (fuel - 1) as nat) {
                    None => None,
                    Some((rest, end)) => Some((seq![seg] + rest, end)),
                }
            },
        }
    } else if s[i] == B_LT {
        match parse_open_tag_at(s, i) {
            None => None,
            Some((name, j)) => match parse_at(s, j, ct, (fuel - 1) as nat) {
                None => None,
                Some((inner, m)) => {
                    if starts_close_tag(s, m) {
                        match parse_close_tag_at(s, m) {
                            None => None,
                            Some((cname, e)) => {
                                if cname == name {
                                    match parse_at(s, e, ct, (fuel - 1) as nat) {
                                        None => None,
                                        Some(
                                            (rest, end),
                                        ) => Some((seq![AbsSeg::Component(name, inner)] + rest, end)),
                                    }
                                } else {
                                    None
                                }
                            },
                        }
                    } else {
                        None
                    }
                },
            },
        }
    } else {
        let j = lit_end(s, i);
        match parse_at(s, j, ct, (fuel - 1) as nat) {
            None => None,
            Some((rest, end)) => Some((seq![AbsSeg::Literal(s.subrange(i, j))] + rest, end)),
        }
    }
}

proof fn lemma_parse_at_pos(s: Seq<u8>, i: int, ct: PluralType, fuel: nat)
    requires
        0 <= i <= s.len(),
    ensures
        parse_at(s, i, ct, fuel) matches Some((segs, end)) ==> i <= end <= s.len(),
    decreases fuel,
{
    if fuel == 0 || i >= s.len() || starts_close_tag(s, i) {
    } else if starts_var(s, i) {
        match parse_var_at(s, i) {
            None => {},
            Some((name, j)) => {
                lemma_skip_spaces_bounds(s, i + 2);
                let j0 = skip_spaces(s, i + 2);
                lemma_ident_end_bounds(s, j0);
                let k = ident_end(s, j0);
                lemma_skip_spaces_bounds(s, k);
                lemma_parse_at_pos(s, j, ct, (fuel - 1) as nat);
            },
        }
    } else if s[i] == B_LT {
        match parse_open_tag_at(s, i) {
            None => {},
            Some((name, j)) => {
                lemma_ident_end_bounds(s, i + 1);
                lemma_parse_at_pos(s, j, ct, (fuel - 1) as nat);
                match parse_at(s, j, ct, (fuel - 1) as nat) {
                    None => {},
                    Some((inner, m)) => {
                        if starts_close_tag(s, m) {
                            match parse_close_tag_at(s, m) {
                                None => {},
                                Some((cname, e)) => {
                                    lemma_ident_end_bounds(s, m + 2);
                                    lemma_parse_at_pos(s, e, ct, (fuel - 1) as nat);
                                },
                            }
                        }
                    },
                }
            },
        }
    } else {
        lemma_lit_end_bounds(s, i);
        lemma_lit_end_bounds(s, i + 1);
        lemma_parse_at_pos(s, lit_end(s, i), ct, (fuel - 1) as nat);
    }
}

/// The fuel only bounds recursion depth: any two fuels of at least one
/// unit per unread byte, plus one, parse identically, so the fixed fuel in
/// `spec_parse_text` loses nothing.
pub proof fn lemma_parse_at_fuel_irrelevant(s: Seq<u8>, i: int, ct: PluralType, f1: nat, f2: nat)
    requires
        0 <= i <= s.len(),
        f1 >= s.len() - i + 1,
        f2 >= s.len() - i + 1,
    ensures
        parse_at(s, i, ct, f1) == parse_at(s, i, ct, f2),
    decreases s.len() - i,
{
    if i >= s.len() || starts_close_tag(s, i) {
    } else if starts_var(s, i) {
        match parse_var_at(s, i) {
            None => {},
            Some((name, j)) => {
                lemma_skip_spaces_bounds(s, i + 2);
                let j0 = skip_spaces(s, i + 2);
                lemma_ident_end_bounds(s, j0);
                let k = ident_end(s, j0);
                lemma_skip_spaces_bounds(s, k);
                assert(j > i);
                lemma_parse_at_fuel_irrelevant(s, j, ct, (f1 - 1) as nat, (f2 - 1) as nat);
            },
        }
    } else if s[i] == B_LT {
        match parse_open_tag_at(s, i) {
            None => {},
            Some((name, j)) => {
                lemma_ident_end_bounds(s, i + 1);
                assert(j > i);
                lemma_parse_at_fuel_irrelevant(s, j, ct, (f1 - 1) as nat, (f2 - 1) as nat);
                match parse_at(s, j, ct, (f1 - 1) as nat) {
                    None => {},
                    Some((inner, m)) => {
                        lemma_parse_at_pos(s, j, ct, (f1 - 1) as nat);
                        if starts_close_tag(s, m) {
                            match parse_close_tag_at(s, m) {
                                None => {},
                                Some((cname, e)) => {
                                    lemma_ident_end_bounds(s, m + 2);
                                    assert(e > i);
                                    lemma_parse_at_fuel_irrelevant(
                                        s,
                                        e,
                                        ct,
                                        (f1 - 1) as nat,
                                        (f2 - 1) as nat,
                                    );
                                },
                            }
                        }
                    },
                }
            },
        }
    } else {
        lemma_lit_end_bounds(s, i + 1);
        let j = lit_end(s, i);
        assert(j > i);
        lemma_parse_at_fuel_irrelevant(s, j, ct, (f1 - 1) as nat, (f2 - 1) as nat);
    }
}

/// What parsing a whole text value yields: its segments, or nothing when
/// the value is malformed.
pub open spec fn spec_parse_text(s: Seq<u8>, ct: PluralType) -> Option<Seq<AbsSeg>> {
    match parse_at(s, 0, ct, (s.len() + 1) as nat) {
        None => None,
        Some((segs, end)) => if end == s.len() {
            Some(segs)
        } else {
            None
        },
    }
}

fn exec_skip_spaces(s: &Vec<u8>, i: usize) -> (r: usize)
    requires
        i <= s@.len(),
    ensures
        r == skip_spaces(s@, i as int),
        i <= r <= s@.len(),
{
    let mut j = i;
    while j < s.len() && s[j] == B_SPACE
        invariant
            i <= j <= s@.len(),
            skip_spaces(s@, i as int) == skip_spaces(s@, j as int),
        decreases s@.len() - j,
    {
        j += 1;
    }
    j
}

fn exec_ident_end(s: &Vec<u8>, i: usize) -> (r: usize)
    requires
        i <= s@.len(),
    ensures
        r == ident_end(s@, i as int),
        i <= r <= s@.len(),
{
    let mut j = i;
    while j < s.len() && (97 <= s[j] && s[j] <= 122 || 65 <= s[j] && s[j] <= 90 || 48 <= s[j] && s[j] <= 57
        || s[j] == 95)
        invariant
            i <= j <= s@.len(),
            ident_end(s@, i as int) == ident_end(s@, j as int),
        decreases s@.len() - j,
    {
        j += 1;
    }
    j
}

fn exec_lit_end(s: &Vec<u8>, i: usize) -> (r: usize)
    requires
        i <= s@.len(),
    ensures
        r == lit_end(s@, i as int),
        i <= r <= s@.len(),
{
    let mut j = i;
    loop
        invariant
            i <= j <= s@.len(),
            lit_end(s@, i as int) == lit_end(s@, j as int),
        decreases s@.len() - j,
    {
        if j >= s.len() {
            return j;
        }
        if s[j] == B_LT {
            return j;
        }
        if j + 1 < s.len() && s[j] == B_LBRACE && s[j + 1] == B_LBRACE {
            assert(starts_var(s@, j as int));
            return j;
        }
        assert(!starts_var(s@, j as int));
        j += 1;
    }
}

/// Copy of the bytes in `from..to`.
fn subvec(s: &Vec<u8>, from: usize, to: usize) -> (r: Vec<u8>)
    requires
        from <= to <= s@.len(),
    ensures
        r@ == s@.subrange(from as int, to as int),
{
    let mut out: Vec<u8> = Vec::new();
    let mut i = from;
    while i < to
        invariant
            from <= i <= to <= s@.len(),
            out@ == s@.subrange(from as int, i as int),
        decreases to - i,
    {
        out.push(s[i]);
        proof {
            assert(out@ =~= s@.subrange(from as int, i + 1));
        }
        i += 1;
    }
    out
}

fn is_count_name(v: &Vec<u8>) -> (r: bool)
    ensures
        r == (v@ == count_name()),
{
    proof {
        assert(count_name().len() == 5);
    }
    if v.len() != 5 {
        return false;
    }
    let r = v[0] == 99 && v[1] == 111 && v[2] == 117 && v[3] == 110 && v[4] == 116;
    proof {
        if r {
            assert(v@ =~= count_name());
        }
    }
    r
}

fn exec_parse_at(s: &Vec<u8>, i: usize, ct: PluralType, fuel: usize) -> (r: Result<
    (Vec<Segment>, usize),
    ParseError,
>)
    requires
        i <= s@.len(),
        s@.len() < usize::MAX,
    ensures
        match r {
            Ok((segs, end)) => {
                &&& parse_at(s@, i as int, ct, fuel as nat) == Some(
                    (segs_view(segs@), end as int),
                )
                &&& i <= end <= s@.len()
            },
            Err(e) => parse_at(s@, i as int, ct, fuel as nat) is None && e.position <= s@.len(),
        },
    decreases fuel,
{
    if fuel == 0 {
        return Err(ParseError { position: i, kind: ParseErrorKind::TooDeep });
    }
    if i >= s.len() {
        let segs: Vec<Segment> = Vec::new();
        return Ok((segs, i));
    }
    if i + 1 < s.len() && s[i] == B_LT && s[i + 1] == B_SLASH {
        let segs: Vec<Segment> = Vec::new();
        return Ok((segs, i));
    }
    if i + 1 < s.len() && s[i] == B_LBRACE && s[i + 1] == B_LBRACE {
        // a {{ name }} placeholder
        assert(starts_var(s@, i as int));
        let j = exec_skip_spaces(s, i + 2);
        let k = exec_ident_end(s, j);
        if k == j {
            return Err(ParseError { position: i, kind: ParseErrorKind::BadPlaceholder });
        }
        let m = exec_skip_spaces(s, k);
        if !(m + 1 < s.len() && s[m] == B_RBRACE && s[m + 1] == B_RBRACE) {
            assert(parse_var_at(s@, i as int) is None);
            return Err(ParseError { position: i, kind: ParseErrorKind::BadPlaceholder });
        }
        let name = subvec(s, j, k);
        let seg = if is_count_name(&name) {
            Segment::Count(ct)
        } else {
            Segment::Variable(name)
        };
        match exec_parse_at(s, m + 2, ct, fuel - 1) {
            Err(e) => Err(e),
            Ok((rest, end)) => {
                let ghost r0 = rest@;
                let mut out = rest;
                out.insert(0, seg);
                proof {
                    assert(out@ =~= seq![seg] + r0);
                    lemma_segs_view_cons(seg, r0);
                }
                Ok((out, end))
            },
        }
    } else if s[i] == B_LT {
        assert(!starts_close_tag(s@, i as int));
        assert(!starts_var(s@, i as int));
        let k = exec_ident_end(s, i + 1);
        if !(k > i + 1 && k < s.len() && s[k] == B_GT) {
            assert(parse_open_tag_at(s@, i as int) is None);
            return Err(ParseError { position: i, kind: ParseErrorKind::BadOpenTag });
        }
        let name = subvec(s, i + 1, k);
        match exec_parse_at(s, k + 1, ct, fuel - 1) {
            Err(e) => Err(e),
            Ok((inner, m)) => {
                if !(m + 1 < s.len() && s[m] == B_LT && s[m + 1] == B_SLASH) {
                    assert(!starts_close_tag(s@, m as int));
                    return Err(ParseError { position: m, kind: ParseErrorKind::UnclosedTag });
                }
                let k2 = exec_ident_end(s, m + 2);
                if !(k2 > m + 2 && k2 < s.len() && s[k2] == B_GT) {
                    assert(parse_close_tag_at(s@, m as int) is None);
                    return Err(ParseError { position: m, kind: ParseErrorKind::UnclosedTag });
                }
                let cname = subvec(s, m + 2, k2);
                if !crate::value::bytes_eq(&cname, &name) {
                    return Err(
                        ParseError { position: m, kind: ParseErrorKind::MismatchedCloseTag },
                    );
                }
                match exec_parse_at(s, k2 + 1, ct, fuel - 1) {
                    Err(e) => Err(e),
                    Ok((rest, end)) => {
                        let ghost r0 = rest@;
                        let seg = Segment::Component(name, inner);
                        let mut out = rest;
                        out.insert(0, seg);
                        proof {
                            assert(out@ =~= seq![seg] + r0);
                            lemma_segs_view_cons(seg, r0);
                        }
                        Ok((out, end))
                    },
                }
            },
        }
    } else {
        assert(!starts_close_tag(s@, i as int));
        assert(!starts_var(s@, i as int));
        let j = exec_lit_end(s, i);
        proof {
            lemma_lit_end_bounds(s@, i + 1);
        }
        assert(j > i);
        let lit = subvec(s, i, j);
        match exec_parse_at(s, j, ct, fuel - 1) {
            Err(e) => Err(e),
            Ok((rest, end)) => {
                let ghost r0 = rest@;
                let seg = Segment::Literal(lit);
                let mut out = rest;
                out.insert(0, seg);
                proof {
                    assert(out@ =~= seq![seg] + r0);
                    lemma_segs_view_cons(seg, r0);
                }
                Ok((out, end))
            },
        }
    }
}

/// Parse one whole text value.  The result is exactly what
/// `spec_parse_text` describes: `Ok` if and only if the text is
/// well-formed, and then precisely its segments.
pub fn parse_text(s: &Vec<u8>, ct: PluralType) -> (r: Result<Vec<Segment>, ParseError>)
    requires
        s@.len() < usize::MAX,
    ensures
        match r {
            Ok(segs) => spec_parse_text(s@, ct) == Some(segs_view(segs@)),
            Err(e) => spec_parse_text(s@, ct) is None && e.position <= s@.len(),
        },
{
    match exec_parse_at(s, 0, ct, s.len() + 1) {
        Err(e) => Err(e),
        Ok((segs, end)) => {
            if end == s.len() {
                Ok(segs)
            } else {
                Err(ParseError { position: end, kind: ParseErrorKind::StrayCloseTag })
            }
        },
    }
}

/// What parsing the labelled branches of a plural selector yields, branch
/// by branch in order.
pub open spec fn spec_parse_branches(bs: Seq<(Vec<u8>, Vec<u8>)>, pt: PluralType) -> Option<
    Seq<(Seq<u8>, Seq<AbsSeg>)>,
>
    decreases bs.len(),
{
    if bs.len() == 0 {
        Some(Seq::empty())
    } else {
        match spec_parse_branches(bs.drop_last(), pt) {
            None => None,
            Some(rest) => match spec_parse_text(bs.last().1@, pt) {
                None => None,
                Some(ss) => Some(rest.push((bs.last().0@, ss))),
            },
        }
    }
}

/// What parsing one raw value yields.  A bare `{{count}}` in plain text
/// refers to the cardinal taxonomy; inside a selector's branches it refers
/// to the selector's own taxonomy.
pub open spec fn spec_parse_raw(raw: RawValue) -> Option<AbsValue> {
    match raw {
        RawValue::Text(t) => match spec_parse_text(t@, PluralType::Cardinal) {
            None => None,
            Some(ss) => Some(AbsValue::Bloc(ss)),
        },
        RawValue::Plural(pt, bs) => match spec_parse_branches(bs@, pt) {
            None => None,
            Some(parsed) => Some(AbsValue::Plural(pt, parsed)),
        },
    }
}

/// The value's text fits the machine: every text it holds is shorter than
/// the address space.
pub open spec fn raw_fits(raw: RawValue) -> bool {
    match raw {
        RawValue::Text(t) => t@.len() < usize::MAX,
        RawValue::Plural(_, bs) => forall|i: int|
            0 <= i < bs@.len() ==> bs@[i].1@.len() < usize::MAX,
    }
}

proof fn lemma_branches_none_extends(bs: Seq<(Vec<u8>, Vec<u8>)>, pt: PluralType, j: int)
    requires
        0 <= j <= bs.len(),
        spec_parse_branches(bs.take(j), pt) is None,
    ensures
        spec_parse_branches(bs, pt) is None,
    decreases bs.len() - j,
{
    if j == bs.len() {
        assert(bs.take(j) =~= bs);
    } else {
        assert(bs.take(j + 1).drop_last() =~= bs.take(j));
        lemma_branches_none_extends(bs, pt, j + 1);
    }
}

/// Parse one raw value.  The result is exactly what `spec_parse_raw`
/// describes: `Ok` if and only if every text the value holds is
/// well-formed, and then precisely the parsed value.
#[verifier::loop_isolation(false)]
pub fn parse_raw_value(raw: &RawValue) -> (r: Result<ParsedValue, ParseError>)
    requires
        raw_fits(*raw),
    ensures
        match r {
            Ok(v) => spec_parse_raw(*raw) == Some(v@),
            Err(_) => spec_parse_raw(*raw) is None,
        },
{
    match raw {
        RawValue::Text(t) => match parse_text(t, PluralType::Cardinal) {
            Ok(segs) => Ok(ParsedValue::Bloc(segs)),
            Err(e) => Err(e),
        },
        RawValue::Plural(pt, bs) => {
            let mut out: Vec<(Vec<u8>, Vec<Segment>)> = Vec::new();
            let ghost outv = |o: Seq<(Vec<u8>, Vec<Segment>)>|
                o.map_values(|b: (Vec<u8>, Vec<Segment>)| (b.0@, segs_view(b.1@)));
            let mut k: usize = 0;
            while k < bs.len()
                invariant
                    k <= bs@.len(),
                    spec_parse_branches(bs@.take(k as int), *pt) == Some(outv(out@)),
                decreases bs@.len() - k,
            {
                match parse_text(&bs[k].1, *pt) {
                    Err(e) => {
                        proof {
                            assert(bs@.take(k + 1).drop_last() =~= bs@.take(k as int));
                            assert(spec_parse_branches(bs@.take(k + 1), *pt) is None);
                            lemma_branches_none_extends(bs@, *pt, k + 1);
                        }
                        return Err(e);
                    },
                    Ok(segs) => {
                        let ghost o0 = out@;
                        out.push((crate::value::clone_bytes(&bs[k].0), segs));
                        proof {
                            assert(bs@.take(k + 1).drop_last() =~= bs@.take(k as int));
                            assert(bs@.take(k + 1).last() == bs@[k as int]);
                            assert(outv(out@) =~= outv(o0).push(
                                (bs@[k as int].0@, segs_view(segs@))));
                        }
                    },
                }
                k += 1;
            }
            proof {
                assert(bs@.take(bs@.len() as int) =~= bs@);
            }
            Ok(ParsedValue::Plural(*pt, out))
        },
    }
}

} // verus!
