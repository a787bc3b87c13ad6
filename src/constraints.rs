//! Parser for ASN.1 subtype constraints: `(` element sets, unions and
//! intersections of them, and an optional extension `)`.
use vstd::prelude::*;
use vstd::slice::slice_subrange;
use crate::tokenizer::{Keyword, ParseError, Token, TokenKind};

verus! {

/// A constraint: its root element set and, after an extension marker, the
/// additional elements (possibly none).
#[derive(Debug)]
pub struct Asn1Constraint {
    pub root_elements: UnionSet,
    pub additional_elements: Option<UnionSet>,
}

/// Intersection sets joined by `|` or `UNION`.
#[derive(Debug)]
pub struct UnionSet {
    pub elements: Vec<IntersectionSet>,
}

/// Elements joined by `^` or `INTERSECTION`.
#[derive(Debug)]
pub struct IntersectionSet {
    pub elements: Vec<Elements>,
}

#[derive(Debug)]
pub enum Elements {
    Subtype(SubtypeElements),
    /// A parenthesised union set.
    ElementSet(UnionSet),
}

#[derive(Debug)]
pub enum SubtypeElements {
    SingleValue(ValueElement),
    /// A type whose values are taken (written as a type reference).
    ConstrainedSubtype(Vec<u8>),
    ValueRange(RangeElement),
    SizeConstraint(UnionSetElement),
    PermittedAlphabet(UnionSetElement),
}

#[derive(Debug)]
pub struct UnionSetElement {
    pub values: UnionSet,
}

#[derive(Debug)]
pub struct ValueElement {
    pub value: Vec<u8>,
}

/// `lower..upper`, where `<` after `lower` or before `upper` excludes it.
#[derive(Debug)]
pub struct RangeElement {
    pub lower: Vec<u8>,
    pub lower_inclusive: bool,
    pub upper: Vec<u8>,
    pub upper_inclusive: bool,
}

/// Kinds that can begin an element of an intersection: everything but
/// closing brackets, separators and the set operators.
pub open spec fn may_start_element(k: TokenKind) -> bool {
    !(k is RoundEnd || k is CurlyEnd || k is Comma || k is Extension || k is RangeSeparator
        || k is LessThan || k is SetUnion || k is SetIntersection)
}

/// Kinds before which a union set ends without taking a token: those that
/// start no element and join nothing.
pub open spec fn ends_union_set(k: TokenKind) -> bool {
    !may_start_element(k) && !(k is SetUnion) && !(k is SetIntersection)
}

/// The index of the first `}` at or after `j`, or -1 where there is none.
pub open spec fn curly_close(ts: Seq<Token>, j: int) -> int
    decreases ts.len() - j,
{
    if j < 0 || j >= ts.len() {
        -1
    } else if ts[j].kind is CurlyEnd {
        j
    } else {
        curly_close(ts, j + 1)
    }
}

/// The texts of the first `k` tokens, one after another.
pub open spec fn texts_upto(ts: Seq<Token>, k: int) -> Seq<u8>
    decreases k,
{
    if k <= 0 || k > ts.len() {
        Seq::empty()
    } else {
        texts_upto(ts, k - 1) + ts[k - 1].text@
    }
}

/// A value at the front of `ts`: its text and the tokens it takes. A number,
/// a string and a value reference (a word starting in lower case) take one
/// token; a braced value takes the tokens up to the first `}`, its text being
/// theirs run together.
pub open spec fn value_spec(ts: Seq<Token>) -> Option<(Seq<u8>, int)> {
    if ts.len() == 0 {
        None
    } else if ts[0].kind is Number || ts[0].kind is CString {
        Some((ts[0].text@, 1))
    } else if ts[0].kind is Identifier {
        if ts[0].text@.len() > 0 && 0x61 <= ts[0].text@[0] <= 0x7a {
            Some((ts[0].text@, 1))
        } else {
            None
        }
    } else if ts[0].kind is CurlyBegin {
        let c = curly_close(ts, 0);
        if c < 0 {
            None
        } else {
            Some((texts_upto(ts, c + 1), c + 1))
        }
    } else {
        None
    }
}

/// An end point of a range at the front of `ts`: a value, `MIN` or `MAX`.
pub open spec fn bound_spec(ts: Seq<Token>) -> Option<(Seq<u8>, int)> {
    match value_spec(ts) {
        Some(v) => Some(v),
        None => if ts.len() > 0 && (ts[0].kind == TokenKind::Keyword(Keyword::Min) || ts[0].kind
            == TokenKind::Keyword(Keyword::Max)) {
            Some((ts[0].text@, 1))
        } else {
            None
        },
    }
}

/// A range's lower text, whether it is included, upper text, whether it is
/// included.
pub open spec fn range_view(re: RangeElement) -> (Seq<u8>, bool, Seq<u8>, bool) {
    (re.lower@, re.lower_inclusive, re.upper@, re.upper_inclusive)
}

/// A value range at the front of `ts`, `lower [<] .. [<] upper`, and the
/// tokens it takes. The token after the lower end must be `<` or `..`; a `<`
/// there makes the lower end exclusive and is followed by one more token
/// (taken as the `..`); a `<` after that makes the upper end exclusive.
pub open spec fn range_spec(ts: Seq<Token>) -> Option<((Seq<u8>, bool, Seq<u8>, bool), int)> {
    match bound_spec(ts) {
        None => None,
        Some((lo, a)) => if a >= ts.len() || !(ts[a].kind is LessThan || ts[a].kind
            is RangeSeparator) {
            None
        } else {
            let li = !(ts[a].kind is LessThan);
            let b = if li { a + 1 } else { a + 2 };
            if b >= ts.len() {
                None
            } else {
                let ui = !(ts[b].kind is LessThan);
                let c = if ui { b } else { b + 1 };
                match bound_spec(ts.subrange(c, ts.len() as int)) {
                    None => None,
                    Some((hi, m)) => Some(((lo, li, hi, ui), c + m)),
                }
            }
        },
    }
}

/// The tokens of `ts` from `i` on.
pub open spec fn rest(ts: Seq<Token>, i: int) -> Seq<Token> {
    ts.subrange(i, ts.len() as int)
}

/// A type at the front of `ts`: a type reference (a word starting in upper
/// case) or a built-in type; it takes one token.
pub open spec fn type_spec(ts: Seq<Token>) -> bool {
    ts.len() > 0 && ((ts[0].kind is Identifier && ts[0].text@.len() > 0 && 0x41 <= ts[0].text@[0]
        <= 0x5a) || ts[0].kind == TokenKind::Keyword(Keyword::Other))
}

pub open spec fn is_size_or_from(k: TokenKind) -> bool {
    k == TokenKind::Keyword(Keyword::Size) || k == TokenKind::Keyword(Keyword::From)
}

/// The tokens one element of an intersection takes at the front of `ts`:
/// `SIZE` or `FROM` with an enclosed set; else, after a `SIZE` or `FROM` not
/// followed by `(`, the first of a value range, an enclosed set, a single
/// value and a type that parses.
pub open spec fn inter_spec(ts: Seq<Token>) -> Option<int>
    decreases ts.len(), 1int, 0int,
{
    if ts.len() == 0 {
        None
    } else if is_size_or_from(ts[0].kind) && ts.len() < 2 {
        None
    } else if is_size_or_from(ts[0].kind) && ts[1].kind is RoundBegin {
        match enclosed_spec(rest(ts, 1)) {
            Some(m) => Some(1 + m),
            None => None,
        }
    } else {
        let c: int = if is_size_or_from(ts[0].kind) { 1 } else { 0 };
        match range_spec(rest(ts, c)) {
            Some((_, n)) => Some(c + n),
            None => if ts[c].kind is RoundBegin {
                match enclosed_spec(rest(ts, c)) {
                    Some(m) => Some(c + m),
                    None => None,
                }
            } else {
                match value_spec(rest(ts, c)) {
                    Some((_, n)) => Some(c + n),
                    None => if type_spec(rest(ts, c)) {
                        Some(c + 1)
                    } else {
                        None
                    },
                }
            },
        }
    }
}

/// The tokens a union set between `(` and `)` takes at the front of `ts`.
pub open spec fn enclosed_spec(ts: Seq<Token>) -> Option<int>
    decreases ts.len(), 0int, 0int,
{
    if ts.len() == 0 || !(ts[0].kind is RoundBegin) {
        None
    } else {
        match union_spec(rest(ts, 1)) {
            Some((k, _)) => if 0 <= k && 1 + k < ts.len() && ts[1 + k].kind is RoundEnd {
                Some(k + 2)
            } else {
                None
            },
            None => None,
        }
    }
}

/// A union set at the front of `ts`: the tokens it takes and the number of
/// (non-empty) intersection sets in it.
pub open spec fn union_spec(ts: Seq<Token>) -> Option<(int, int)>
    decreases ts.len(), 4int, 0int,
{
    union_loop(ts, 0, 0)
}

/// The rest of a union set from `pos`, with `sets` intersection sets so far.
pub open spec fn union_loop(ts: Seq<Token>, pos: int, sets: int) -> Option<(int, int)>
    decreases ts.len(), 3int, ts.len() - pos,
{
    if pos < 0 || pos > ts.len() {
        None
    } else {
        match iset_loop(ts, pos, false, false) {
            None => None,
            Some((p, got)) => {
                let s2 = if got { sets + 1 } else { sets };
                if p < pos || p >= ts.len() {
                    None
                } else if ts[p].kind is SetUnion {
                    union_loop(ts, p + 1, s2)
                } else {
                    Some((p, s2))
                }
            },
        }
    }
}

/// The rest of an intersection set from `pos`: where it ends and whether it
/// holds an element. After `^` (`expecting`) an element must follow.
pub open spec fn iset_loop(ts: Seq<Token>, pos: int, expecting: bool, got: bool) -> Option<
    (int, bool),
>
    decreases ts.len(), 2int, ts.len() - pos,
{
    if pos < 0 || pos > ts.len() {
        None
    } else {
        let r = inter_spec(rest(ts, pos));
        if r is None && expecting {
            None
        } else {
            let p = match r {
                Some(n) => pos + n,
                None => pos,
            };
            let g = got || r is Some;
            if p < pos || p >= ts.len() {
                None
            } else if ts[p].kind is SetIntersection {
                iset_loop(ts, p + 1, true, g)
            } else {
                Some((p, g))
            }
        }
    }
}

/// A constraint at the front of `ts`: the tokens it takes, the number of
/// root intersection sets, and whether an extension with additional elements
/// follows them.
#[verifier::opaque]
pub open spec fn constraint_spec(ts: Seq<Token>) -> Option<(int, int, bool)> {
    if ts.len() == 0 || !(ts[0].kind is RoundBegin) {
        None
    } else {
        match union_spec(rest(ts, 1)) {
            None => None,
            Some((k, sets)) => {
                let c = 1 + k;
                if sets == 0 || c >= ts.len() {
                    None
                } else if ts[c].kind is Comma {
                    if c + 1 >= ts.len() || !(ts[c + 1].kind is Extension) {
                        None
                    } else {
                        let d = c + 2;
                        let (e, add) = match union_spec(rest(ts, d)) {
                            Some((m, _)) => (d + m, true),
                            None => (d, false),
                        };
                        if e < ts.len() && ts[e].kind is RoundEnd {
                            Some((e + 1, sets, add))
                        } else {
                            None
                        }
                    }
                } else if ts[c].kind is RoundEnd {
                    Some((c + 1, sets, false))
                } else {
                    None
                }
            },
        }
    }
}

/// The constraints that follow one another from `pos`: how many, and where
/// the last of them ends.
pub open spec fn constraints_run(ts: Seq<Token>, pos: int) -> (int, int)
    decreases ts.len() - pos,
{
    if pos < 0 || pos > ts.len() {
        (0, pos)
    } else {
        match constraint_spec(rest(ts, pos)) {
            Some((k, _, _)) => if k >= 1 && pos + k <= ts.len() {
                let (c, e) = constraints_run(ts, pos + k);
                (c + 1, e)
            } else {
                (0, pos)
            },
            None => (0, pos),
        }
    }
}

/// A copy of a token's text.
fn copy_text(t: &Vec<u8>) -> (r: Vec<u8>)
    ensures
        r@ == t@,
{
    let mut r: Vec<u8> = Vec::new();
    let mut k: usize = 0;
    while k < t.len()
        invariant
            k <= t@.len(),
            r@ == t@.subrange(0, k as int),
        decreases t@.len() - k,
    {
        r.push(t[k]);
        k = k + 1;
        assert(r@ =~= t@.subrange(0, k as int));
    }
    assert(r@ =~= t@);
    r
}

/// The tokens from `start` on.
fn tail(tokens: &[Token], start: usize) -> (r: &[Token])
    requires
        start <= tokens@.len(),
    ensures
        r@ == tokens@.subrange(start as int, tokens@.len() as int),
        tokens@.len() <= usize::MAX,
{
    slice_subrange(tokens, start, tokens.len())
}

/// Whether the first token has kind `kind`; fails where there is none.
fn expect_kind(tokens: &[Token], kind: TokenKind) -> (r: Result<bool, ParseError>)
    ensures
        tokens@.len() <= usize::MAX,
        tokens@.len() == 0 ==> r == Err::<bool, ParseError>(ParseError::UnexpectedEnd),
        tokens@.len() > 0 ==> r == Ok::<bool, ParseError>(tokens@[0].kind == kind),
{
    if tokens.len() == 0 {
        Err(ParseError::UnexpectedEnd)
    } else {
        Ok(tokens[0].kind == kind)
    }
}

/// A value: a number, a string, a value reference (a word starting in lower
/// case), or a braced list of tokens up to the first `}`. Returns its text
/// and the tokens it took.
pub fn parse_value(tokens: &[Token]) -> (r: Result<(Vec<u8>, usize), ParseError>)
    ensures
        r matches Ok((_, n)) ==> 1 <= n <= tokens@.len(),
        r is Ok ==> (tokens@[0].kind is Number || tokens@[0].kind is CString
            || tokens@[0].kind is Identifier || tokens@[0].kind is CurlyBegin),
        match value_spec(tokens@) {
            Some((t, n)) => r matches Ok((v, k)) && v@ == t && k == n,
            None => r is Err,
        },
{
    if tokens.len() == 0 {
        return Err(ParseError::UnexpectedEnd);
    }
    let first = &tokens[0];
    match first.kind {
        TokenKind::Number | TokenKind::CString => Ok((copy_text(&first.text), 1)),
        TokenKind::Identifier => {
            if first.text.len() > 0 && 0x61 <= first.text[0] && first.text[0] <= 0x7a {
                Ok((copy_text(&first.text), 1))
            } else {
                Err(ParseError::UnexpectedToken)
            }
        },
        TokenKind::CurlyBegin => {
            let mut text: Vec<u8> = Vec::new();
            let mut j: usize = 0;
            while j < tokens.len()
                invariant
                    j <= tokens@.len(),
                    tokens@.len() > 0 && tokens@[0].kind is CurlyBegin,
                    curly_close(tokens@, 0) == curly_close(tokens@, j as int),
                    text@ == texts_upto(tokens@, j as int),
                decreases tokens@.len() - j,
            {
                let t = &tokens[j];
                let mut k: usize = 0;
                while k < t.text.len()
                    invariant
                        k <= t.text@.len(),
                        t == tokens@[j as int],
                        j < tokens@.len(),
                        text@ == texts_upto(tokens@, j as int) + t.text@.subrange(0, k as int),
                    decreases t.text@.len() - k,
                {
                    text.push(t.text[k]);
                    k = k + 1;
                    assert(text@ =~= texts_upto(tokens@, j as int) + t.text@.subrange(0, k as int));
                }
                assert(text@ =~= texts_upto(tokens@, j + 1));
                if t.kind == TokenKind::CurlyEnd {
                    return Ok((text, j + 1));
                }
                j = j + 1;
            }
            Err(ParseError::UnexpectedEnd)
        },
        _ => Err(ParseError::UnexpectedToken),
    }
}

/// A type reference (a word starting in upper case) or a built-in type.
pub fn parse_type(tokens: &[Token]) -> (r: Result<(Vec<u8>, usize), ParseError>)
    ensures
        r matches Ok((_, n)) ==> n == 1 && tokens@.len() >= 1,
        r is Ok ==> (tokens@[0].kind is Identifier || tokens@[0].kind == TokenKind::Keyword(
            Keyword::Other,
        )),
        r is Ok <==> type_spec(tokens@),
{
    if tokens.len() == 0 {
        return Err(ParseError::UnexpectedEnd);
    }
    let first = &tokens[0];
    match first.kind {
        TokenKind::Identifier => {
            if first.text.len() > 0 && 0x41 <= first.text[0] && first.text[0] <= 0x5a {
                Ok((first.text.clone(), 1))
            } else {
                Err(ParseError::UnexpectedToken)
            }
        },
        TokenKind::Keyword(Keyword::Other) => Ok((first.text.clone(), 1)),
        _ => Err(ParseError::UnexpectedToken),
    }
}

/// An end point of a range: a value, `MIN` or `MAX`.
fn parse_range_bound(tokens: &[Token]) -> (r: Result<(Vec<u8>, usize), ParseError>)
    ensures
        r matches Ok((_, n)) ==> 1 <= n <= tokens@.len(),
        r is Ok ==> may_start_element(tokens@[0].kind),
        match bound_spec(tokens@) {
            Some((t, n)) => r matches Ok((v, k)) && v@ == t && k == n,
            None => r is Err,
        },
{
    match parse_value(tokens) {
        Ok(result) => Ok(result),
        Err(_) => {
            if tokens.len() == 0 {
                return Err(ParseError::UnexpectedEnd);
            }
            let kind = tokens[0].kind;
            if kind == TokenKind::Keyword(Keyword::Min) || kind == TokenKind::Keyword(Keyword::Max) {
                Ok((copy_text(&tokens[0].text), 1))
            } else {
                Err(ParseError::UnexpectedToken)
            }
        },
    }
}

/// A value range `lower [<] .. [<] upper`, each end a value, `MIN` or `MAX`.
pub fn parse_range_elements(tokens: &[Token]) -> (r: Result<(RangeElement, usize), ParseError>)
    ensures
        r matches Ok((_, n)) ==> 3 <= n <= tokens@.len(),
        r is Ok ==> may_start_element(tokens@[0].kind),
        match range_spec(tokens@) {
            Some((m, n)) => r matches Ok((re, k)) && range_view(re) == m && k == n,
            None => r is Err,
        },
{
    let mut consumed: usize = 0;
    let (lower, lower_consumed) = match parse_range_bound(tokens) {
        Ok(result) => result,
        Err(e) => return Err(e),
    };
    consumed += lower_consumed;
    if consumed >= tokens.len() {
        return Err(ParseError::UnexpectedEnd);
    }
    let kind = tokens[consumed].kind;
    if kind != TokenKind::LessThan && kind != TokenKind::RangeSeparator {
        return Err(ParseError::UnexpectedToken);
    }
    let lower_inclusive = if kind == TokenKind::LessThan {
        consumed += 1;
        false
    } else {
        true
    };
    if consumed >= tokens.len() {
        return Err(ParseError::UnexpectedEnd);
    }
    consumed += 1;
    if consumed >= tokens.len() {
        return Err(ParseError::UnexpectedEnd);
    }
    let upper_inclusive = if tokens[consumed].kind == TokenKind::LessThan {
        consumed += 1;
        false
    } else {
        true
    };
    let (upper, upper_consumed) = match parse_range_bound(tail(tokens, consumed)) {
        Ok(result) => result,
        Err(e) => return Err(e),
    };
    consumed += upper_consumed;
    Ok((RangeElement { lower, lower_inclusive, upper, upper_inclusive }, consumed))
}

/// A union set: intersection sets joined by `|` or `UNION`, each of them
/// elements joined by `^` or `INTERSECTION`. It ends before the first token
/// that joins nothing; running out of tokens is an error.
pub fn parse_union_set(tokens: &[Token]) -> (r: Result<(UnionSet, usize), ParseError>)
    ensures
        r matches Ok((u, n)) ==> n <= tokens@.len() && forall|i: int|
            0 <= i < u.elements@.len() ==> #[trigger] u.elements@[i].elements@.len() > 0,
        tokens@.len() > 0 && ends_union_set(tokens@[0].kind) ==> (r matches Ok((u, n))
            && n == 0 && u.elements@.len() == 0),
        match union_spec(tokens@) {
            Some((n, sets)) => r matches Ok((u, k)) && k == n && u.elements@.len() == sets,
            None => r is Err,
        },
    decreases tokens@.len(), 2nat,
{
    let len = tokens.len();
    let mut consumed: usize = 0;
    let mut elements: Vec<IntersectionSet> = Vec::new();
    let ghost stops = tokens@.len() > 0 && ends_union_set(tokens@[0].kind);
    loop
        invariant_except_break
            union_spec(tokens@) == union_loop(tokens@, consumed as int, elements@.len() as int),
        invariant
            len == tokens@.len(),
            consumed <= tokens@.len(),
            stops == (tokens@.len() > 0 && ends_union_set(tokens@[0].kind)),
            stops ==> consumed == 0 && elements@.len() == 0,
            forall|i: int|
                0 <= i < elements@.len() ==> #[trigger] elements@[i].elements@.len() > 0,
        ensures
            union_spec(tokens@) == Some((consumed as int, elements@.len() as int)),
        decreases tokens@.len() - consumed,
    {
        let mut iset_elements: Vec<Elements> = Vec::new();
        let mut expecting_iset = false;
        let ghost start = consumed;
        loop
            invariant_except_break
                iset_loop(tokens@, start as int, false, false) == iset_loop(
                    tokens@,
                    consumed as int,
                    expecting_iset,
                    iset_elements@.len() > 0,
                ),
            invariant
                len == tokens@.len(),
                start <= consumed <= tokens@.len(),
                stops == (tokens@.len() > 0 && ends_union_set(tokens@[0].kind)),
                stops ==> consumed == 0 && iset_elements@.len() == 0 && !expecting_iset,
                union_spec(tokens@) == union_loop(tokens@, start as int, elements@.len() as int),
            ensures
                iset_loop(tokens@, start as int, false, false) == Some(
                    (consumed as int, iset_elements@.len() > 0),
                ),
            decreases tokens@.len() - consumed,
        {
            match parse_intersection_set(tail(tokens, consumed)) {
                Ok((element, n)) => {
                    iset_elements.push(element);
                    consumed += n;
                },
                Err(_) => {
                    if expecting_iset {
                        return Err(ParseError::UnexpectedToken);
                    }
                },
            }
            match expect_kind(tail(tokens, consumed), TokenKind::SetIntersection) {
                Ok(true) => {
                    expecting_iset = true;
                    consumed += 1;
                },
                Ok(false) => break,
                Err(e) => return Err(e),
            }
        }
        if iset_elements.len() > 0 {
            elements.push(IntersectionSet { elements: iset_elements });
        }
        match expect_kind(tail(tokens, consumed), TokenKind::SetUnion) {
            Ok(true) => {
                consumed += 1;
            },
            Ok(false) => break,
            Err(e) => return Err(e),
        }
    }
    Ok((UnionSet { elements }, consumed))
}

/// A union set between `(` and `)`.
pub fn parse_enclosed_union_set(tokens: &[Token]) -> (r: Result<(UnionSet, usize), ParseError>)
    ensures
        r matches Ok((_, n)) ==> 2 <= n <= tokens@.len() && tokens@[0].kind == TokenKind::RoundBegin
            && tokens@[n - 1].kind == TokenKind::RoundEnd,
        tokens@.len() == 0 || tokens@[0].kind != TokenKind::RoundBegin ==> r is Err,
        tokens@.len() >= 2 && tokens@[0].kind == TokenKind::RoundBegin && tokens@[1].kind
            == TokenKind::RoundEnd ==> (r matches Ok((u, n)) && n == 2 && u.elements@.len() == 0),
        match enclosed_spec(tokens@) {
            Some(n) => r matches Ok((u, k)) && k == n && u.elements@.len() == union_spec(
                rest(tokens@, 1),
            )->Some_0.1,
            None => r is Err,
        },
    decreases tokens@.len(), 0nat,
{
    match expect_kind(tokens, TokenKind::RoundBegin) {
        Ok(true) => {},
        Ok(false) => return Err(ParseError::UnexpectedToken),
        Err(e) => return Err(e),
    }
    let mut consumed: usize = 1;
    let (union_set, union_set_consumed) = match parse_union_set(tail(tokens, consumed)) {
        Ok(result) => result,
        Err(e) => return Err(e),
    };
    consumed += union_set_consumed;
    match expect_kind(tail(tokens, consumed), TokenKind::RoundEnd) {
        Ok(true) => {},
        Ok(false) => return Err(ParseError::UnexpectedToken),
        Err(e) => return Err(e),
    }
    consumed += 1;
    Ok((union_set, consumed))
}

/// One element of an intersection: `SIZE` or `FROM` with a parenthesised set,
/// a value range, a parenthesised set, a single value, or a contained type,
/// tried in that order.
pub fn parse_intersection_set(tokens: &[Token]) -> (r: Result<(Elements, usize), ParseError>)
    ensures
        r matches Ok((_, n)) ==> 1 <= n <= tokens@.len(),
        r is Ok ==> may_start_element(tokens@[0].kind),
        tokens@.len() >= 2 && tokens@[0].kind == TokenKind::Keyword(Keyword::Size)
            && tokens@[1].kind == TokenKind::RoundBegin ==> (r matches Ok((e, n)) ==> n >= 3
            && e matches Elements::Subtype(SubtypeElements::SizeConstraint(_))),
        tokens@.len() >= 2 && tokens@[0].kind == TokenKind::Keyword(Keyword::From)
            && tokens@[1].kind == TokenKind::RoundBegin ==> (r matches Ok((e, n)) ==> n >= 3
            && e matches Elements::Subtype(SubtypeElements::PermittedAlphabet(_))),
        tokens@.len() > 0 && tokens@[0].kind != TokenKind::Keyword(Keyword::Size) && tokens@[0].kind
            != TokenKind::Keyword(Keyword::From) ==> match range_spec(tokens@) {
            Some((m, n)) => r matches Ok((Elements::Subtype(SubtypeElements::ValueRange(re)), k))
                && range_view(re) == m && k == n,
            None => true,
        },
        match inter_spec(tokens@) {
            Some(n) => r matches Ok((_, k)) && k == n,
            None => r is Err,
        },
    decreases tokens@.len(), 1nat,
{
    if tokens.len() == 0 {
        return Err(ParseError::UnexpectedEnd);
    }
    let mut consumed: usize = 0;
    let kind = tokens[0].kind;
    if kind == TokenKind::Keyword(Keyword::Size) || kind == TokenKind::Keyword(Keyword::From) {
        consumed += 1;
        match expect_kind(tail(tokens, consumed), TokenKind::RoundBegin) {
            Ok(true) => {
                let (values, values_consumed) = match parse_enclosed_union_set(
                    tail(tokens, consumed),
                ) {
                    Ok(result) => result,
                    Err(e) => return Err(e),
                };
                consumed += values_consumed;
                let element = UnionSetElement { values };
                let subtype = if kind == TokenKind::Keyword(Keyword::Size) {
                    SubtypeElements::SizeConstraint(element)
                } else {
                    SubtypeElements::PermittedAlphabet(element)
                };
                return Ok((Elements::Subtype(subtype), consumed));
            },
            Ok(false) => {},
            Err(e) => return Err(e),
        }
    }
    assert(consumed == 0 ==> tokens@.subrange(consumed as int, tokens@.len() as int) =~= tokens@);
    if let Ok((range_elements, n)) = parse_range_elements(tail(tokens, consumed)) {
        return Ok(
            (Elements::Subtype(SubtypeElements::ValueRange(range_elements)), consumed + n),
        );
    }
    match expect_kind(tail(tokens, consumed), TokenKind::RoundBegin) {
        Ok(true) => {
            let (union_set, n) = match parse_enclosed_union_set(tail(tokens, consumed)) {
                Ok(result) => result,
                Err(e) => return Err(e),
            };
            return Ok((Elements::ElementSet(union_set), consumed + n));
        },
        Ok(false) => {},
        Err(e) => return Err(e),
    }
    if let Ok((value, n)) = parse_value(tail(tokens, consumed)) {
        return Ok(
            (Elements::Subtype(SubtypeElements::SingleValue(ValueElement { value })), consumed + n),
        );
    }
    if let Ok((parsed_type, n)) = parse_type(tail(tokens, consumed)) {
        return Ok(
            (Elements::Subtype(SubtypeElements::ConstrainedSubtype(parsed_type)), consumed + n),
        );
    }
    Err(ParseError::UnexpectedToken)
}

/// One constraint: `(`, a non-empty root element set, optionally `,` `...`
/// and additional elements, then `)`.
#[verifier::rlimit(60)]
pub fn parse_constraint(tokens: &[Token]) -> (r: Result<(Asn1Constraint, usize), ParseError>)
    ensures
        r matches Ok((c, n)) ==> 2 <= n <= tokens@.len() && tokens@[0].kind
            == TokenKind::RoundBegin && tokens@[n - 1].kind == TokenKind::RoundEnd
            && c.root_elements.elements@.len() > 0,
        tokens@.len() == 0 ==> (r matches Err(e) && e == ParseError::UnexpectedEnd),
        tokens@.len() > 0 && tokens@[0].kind != TokenKind::RoundBegin ==> (r matches Err(e)
            && e == ParseError::UnexpectedToken),
        tokens@.len() > 0 && tokens@[0].kind == TokenKind::RoundBegin && union_spec(
            rest(tokens@, 1),
        ) is Some && union_spec(rest(tokens@, 1))->Some_0.1 == 0 ==> (r matches Err(e) && e
            == ParseError::EmptySet),
        match constraint_spec(tokens@) {
            Some((n, roots, add)) => r matches Ok((c, k)) && k == n
                && c.root_elements.elements@.len() == roots && (c.additional_elements is Some)
                == add,
            None => r is Err,
        },
{
    reveal(constraint_spec);
    match expect_kind(tokens, TokenKind::RoundBegin) {
        Ok(true) => {},
        Ok(false) => return Err(ParseError::UnexpectedToken),
        Err(e) => return Err(e),
    }
    let mut consumed: usize = 1;
    let (root_elements, root_consumed) = match parse_union_set(tail(tokens, consumed)) {
        Ok(result) => result,
        Err(e) => return Err(e),
    };
    consumed += root_consumed;
    if root_elements.elements.len() == 0 {
        return Err(ParseError::EmptySet);
    }
    let mut additional_elements: Option<UnionSet> = None;
    match expect_kind(tail(tokens, consumed), TokenKind::Comma) {
        Ok(true) => {
            consumed += 1;
            match expect_kind(tail(tokens, consumed), TokenKind::Extension) {
                Ok(true) => {},
                Ok(false) => return Err(ParseError::UnexpectedToken),
                Err(e) => return Err(e),
            }
            consumed += 1;
            if let Ok((set, n)) = parse_union_set(tail(tokens, consumed)) {
                additional_elements = Some(set);
                consumed += n;
            }
        },
        Ok(false) => {},
        Err(e) => return Err(e),
    }
    match expect_kind(tail(tokens, consumed), TokenKind::RoundEnd) {
        Ok(true) => {},
        Ok(false) => return Err(ParseError::UnexpectedToken),
        Err(e) => return Err(e),
    }
    consumed += 1;
    Ok((Asn1Constraint { root_elements, additional_elements }, consumed))
}

/// As many constraints as follow one another; stops at the first token that
/// starts none. Returns them and the tokens they took.
pub fn parse_constraints(tokens: &[Token]) -> (r: Result<(Vec<Asn1Constraint>, usize), ParseError>)
    ensures
        r matches Ok((cs, n)) && n <= tokens@.len() && 2 * cs@.len() <= n && (cs@.len() == 0
            <==> n == 0),
        tokens@.len() == 0 || tokens@[0].kind != TokenKind::RoundBegin ==> (r matches Ok((cs, n))
            && n == 0 && cs@.len() == 0),
        r matches Ok((cs, n)) && cs@.len() == constraints_run(tokens@, 0).0 && n
            == constraints_run(tokens@, 0).1,
{
    let len = tokens.len();
    let mut consumed: usize = 0;
    let mut constraints: Vec<Asn1Constraint> = Vec::new();
    loop
        invariant
            len == tokens@.len(),
            consumed <= tokens@.len(),
            2 * constraints@.len() <= consumed,
            constraints@.len() == 0 <==> consumed == 0,
            tokens@.len() == 0 || tokens@[0].kind != TokenKind::RoundBegin ==> consumed == 0,
            constraints_run(tokens@, 0) == (
                constraints@.len() + constraints_run(tokens@, consumed as int).0,
                constraints_run(tokens@, consumed as int).1,
            ),
        ensures
            constraints_run(tokens@, consumed as int) == (0int, consumed as int),
        decreases tokens@.len() - consumed,
    {
        assert(consumed == 0 ==> tokens@.subrange(consumed as int, tokens@.len() as int)
            =~= tokens@);
        match parse_constraint(tail(tokens, consumed)) {
            Ok((constraint, n)) => {
                constraints.push(constraint);
                consumed += n;
            },
            Err(_) => {
                assert(constraints_run(tokens@, consumed as int) == (0int, consumed as int));
                break;
            },
        }
    }
    Ok((constraints, consumed))
}

} // verus!
