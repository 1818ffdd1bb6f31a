//! Directive parser: turns raw configuration strings into a typed quota
//! request.
//!
//! Grammar per token: `<tag>=<soft>,<hard>`, where `tag` is a run of one or
//! more lowercase letters and `soft`/`hard` are non-empty runs of decimal
//! digits whose values fit in a `u64`. The only recognized tags are
//! `blocks` and `inodes`; anything else, or a token that does not match the
//! grammar exactly (trailing text included), fails the parse. Tokens are
//! folded left to right into a `QuotaRequest`; the first failing token
//! aborts the fold and is reported verbatim.

use vstd::prelude::*;

use crate::directive::{QuotaDirective, QuotaRequest, ResourceKind};

verus! {

/// A lowercase ASCII letter, the only characters a tag may contain.
pub open spec fn is_lower_char(c: char) -> bool {
    97 <= c as u32 <= 122
}

/// A decimal digit.
pub open spec fn is_digit_char(c: char) -> bool {
    48 <= c as u32 <= 57
}

/// The numeric value of one decimal digit.
pub open spec fn digit_val(c: char) -> int {
    c as u32 - 48
}

/// The value of a run of decimal digits, most significant first.
pub open spec fn digits_val(s: Seq<char>) -> int
    decreases s.len(),
{
    if s.len() == 0 {
        0
    } else {
        digits_val(s.drop_last()) * 10 + digit_val(s.last())
    }
}

/// The token `s` decomposes as `tag=soft,hard` with the `=` at index `e` and
/// the `,` at index `c`: a non-empty lowercase tag before the `=`, and
/// non-empty digit runs between `=` and `,` and after the `,`.
pub open spec fn token_shape(s: Seq<char>, e: int, c: int) -> bool {
    &&& 1 <= e
    &&& e + 2 <= c
    &&& c + 2 <= s.len()
    &&& s[e] == '='
    &&& s[c] == ','
    &&& forall|i: int| 0 <= i < e ==> is_lower_char(#[trigger] s[i])
    &&& forall|i: int| e < i < c ==> is_digit_char(#[trigger] s[i])
    &&& forall|i: int| c < i < s.len() ==> is_digit_char(#[trigger] s[i])
}

/// The token matches the directive grammar for some positions of `=` and `,`.
pub open spec fn wf_token(s: Seq<char>) -> bool {
    exists|e: int, c: int| token_shape(s, e, c)
}

/// The positions of the `=` and the `,` in a well-formed token.
pub open spec fn token_parts(s: Seq<char>) -> (int, int) {
    choose|e: int, c: int| token_shape(s, e, c)
}

/// A well-formed token decomposes in exactly one way: the `=` ends the
/// maximal lowercase prefix and the `,` ends the maximal digit run after it.
pub proof fn lemma_token_shape_unique(s: Seq<char>, e1: int, c1: int, e2: int, c2: int)
    requires
        token_shape(s, e1, c1),
        token_shape(s, e2, c2),
    ensures
        e1 == e2,
        c1 == c2,
{
    if e1 < e2 {
        assert(is_lower_char(s[e1]));
        assert(false);
    }
    if e2 < e1 {
        assert(is_lower_char(s[e2]));
        assert(false);
    }
    if c1 < c2 {
        assert(is_digit_char(s[c1]));
        assert(false);
    }
    if c2 < c1 {
        assert(is_digit_char(s[c2]));
        assert(false);
    }
}

/// The directive denoted by one configuration token, or `None` where the
/// token does not match the grammar, carries an unrecognized tag, or holds a
/// limit too large for a `u64`.
pub open spec fn token_directive(s: Seq<char>) -> Option<QuotaDirective> {
    if wf_token(s) {
        let (e, c) = token_parts(s);
        let tag = s.subrange(0, e);
        let soft = digits_val(s.subrange(e + 1, c));
        let hard = digits_val(s.subrange(c + 1, s.len() as int));
        if soft <= u64::MAX && hard <= u64::MAX {
            if tag == "blocks"@ {
                Some(
                    QuotaDirective {
                        resource: ResourceKind::Blocks,
                        soft: soft as u64,
                        hard: hard as u64,
                    },
                )
            } else if tag == "inodes"@ {
                Some(
                    QuotaDirective {
                        resource: ResourceKind::Inodes,
                        soft: soft as u64,
                        hard: hard as u64,
                    },
                )
            } else {
                None
            }
        } else {
            None
        }
    } else {
        None
    }
}

/// Whether this character may appear in a tag.
fn is_lower(c: char) -> (r: bool)
    ensures
        r == is_lower_char(c),
{
    let u = c as u32;
    97 <= u && u <= 122
}

/// Whether this character is a decimal digit.
fn is_digit(c: char) -> (r: bool)
    ensures
        r == is_digit_char(c),
{
    let u = c as u32;
    48 <= u && u <= 57
}

/// The numeric value of a digit character.
fn digit_value(c: char) -> (r: u64)
    requires
        is_digit_char(c),
    ensures
        r == digit_val(c),
{
    (c as u32 - 48) as u64
}

/// Whether the first `e` characters of `s` are exactly the characters of
/// `lit`.
fn prefix_matches(s: &str, e: usize, lit: &str) -> (r: bool)
    requires
        e <= s@.len(),
    ensures
        r == (s@.subrange(0, e as int) == lit@),
{
    let m = lit.unicode_len();
    if m != e {
        proof {
            if s@.subrange(0, e as int) == lit@ {
                assert(lit@.len() == e);
            }
        }
        return false;
    }
    let mut i: usize = 0;
    while i < e
        invariant
            i <= e,
            e == lit@.len(),
            e <= s@.len(),
            forall|j: int| 0 <= j < i ==> s@[j] == lit@[j],
        decreases e - i,
    {
        if s.get_char(i) != lit.get_char(i) {
            proof {
                if s@.subrange(0, e as int) == lit@ {
                    assert(s@.subrange(0, e as int)[i as int] == lit@[i as int]);
                }
            }
            return false;
        }
        i += 1;
    }
    proof {
        assert(s@.subrange(0, e as int) =~= lit@);
    }
    true
}

/// Parse one configuration token into a directive. Returns `None` exactly
/// where the token denotes no directive: a grammar mismatch, an unrecognized
/// tag, or a limit that overflows a `u64`.
pub fn parse_token(s: &str) -> (r: Option<QuotaDirective>)
    ensures
        r == token_directive(s@),
{
    let n = s.unicode_len();

    // Scan the maximal lowercase prefix; the `=` must follow it.
    let mut e: usize = 0;
    while e < n && is_lower(s.get_char(e))
        invariant
            e <= n,
            n == s@.len(),
            forall|j: int| 0 <= j < e ==> is_lower_char(#[trigger] s@[j]),
        decreases n - e,
    {
        e += 1;
    }
    if e == 0 || e >= n || s.get_char(e) != '=' {
        proof {
            if wf_token(s@) {
                let (e2, c2) = token_parts(s@);
                assert(token_shape(s@, e2, c2));
                if e2 < e {
                    assert(is_lower_char(s@[e2]));
                } else if e2 > e {
                    if e < n {
                        assert(is_lower_char(s@[e as int]));
                    }
                }
                assert(false);
            }
        }
        return None;
    }

    // Scan the first digit run and its value; the `,` must follow it.
    let mut c: usize = e + 1;
    let mut soft: u64 = 0;
    let mut soft_ovf: bool = false;
    while c < n && is_digit(s.get_char(c))
        invariant
            e + 1 <= c <= n,
            n == s@.len(),
            forall|j: int| e < j < c ==> is_digit_char(#[trigger] s@[j]),
            !soft_ovf ==> soft == digits_val(s@.subrange(e + 1, c as int)),
            soft_ovf ==> digits_val(s@.subrange(e + 1, c as int)) > u64::MAX,
        decreases n - c,
    {
        let d = digit_value(s.get_char(c));
        proof {
            lemma_digits_val_snoc(s@, e + 1, c as int);
        }
        if !soft_ovf {
            match soft.checked_mul(10) {
                Some(t) => match t.checked_add(d) {
                    Some(v) => {
                        soft = v;
                    },
                    None => {
                        soft_ovf = true;
                    },
                },
                None => {
                    soft_ovf = true;
                },
            }
        }
        c += 1;
    }
    if c == e + 1 || c >= n || s.get_char(c) != ',' {
        proof {
            if wf_token(s@) {
                let (e2, c2) = token_parts(s@);
                assert(token_shape(s@, e2, c2));
                lemma_scan_fixes_eq(s@, e2, c2, e as int);
                if c2 < c {
                    assert(is_digit_char(s@[c2]));
                } else if c2 > c {
                    if c < n {
                        assert(is_digit_char(s@[c as int]));
                    }
                }
                assert(false);
            }
        }
        return None;
    }

    // Scan the second digit run and its value; it must reach the end.
    let mut k: usize = c + 1;
    let mut hard: u64 = 0;
    let mut hard_ovf: bool = false;
    while k < n && is_digit(s.get_char(k))
        invariant
            c + 1 <= k <= n,
            n == s@.len(),
            forall|j: int| c < j < k ==> is_digit_char(#[trigger] s@[j]),
            !hard_ovf ==> hard == digits_val(s@.subrange(c + 1, k as int)),
            hard_ovf ==> digits_val(s@.subrange(c + 1, k as int)) > u64::MAX,
        decreases n - k,
    {
        let d = digit_value(s.get_char(k));
        proof {
            lemma_digits_val_snoc(s@, c + 1, k as int);
        }
        if !hard_ovf {
            match hard.checked_mul(10) {
                Some(t) => match t.checked_add(d) {
                    Some(v) => {
                        hard = v;
                    },
                    None => {
                        hard_ovf = true;
                    },
                },
                None => {
                    hard_ovf = true;
                },
            }
        }
        k += 1;
    }
    if k == c + 1 || k < n {
        proof {
            if wf_token(s@) {
                let (e2, c2) = token_parts(s@);
                assert(token_shape(s@, e2, c2));
                lemma_scan_fixes_eq(s@, e2, c2, e as int);
                lemma_scan_fixes_comma(s@, e2, c2, c as int);
                if k == c + 1 {
                    assert(is_digit_char(s@[c + 1]));
                } else {
                    assert(is_digit_char(s@[k as int]));
                }
                assert(false);
            }
        }
        return None;
    }

    // The token is well-formed, and its unique decomposition is (e, c).
    proof {
        assert(token_shape(s@, e as int, c as int));
        let (e2, c2) = token_parts(s@);
        assert(token_shape(s@, e2, c2));
        lemma_token_shape_unique(s@, e as int, c as int, e2, c2);
    }

    if soft_ovf || hard_ovf {
        return None;
    }
    if prefix_matches(s, e, "blocks") {
        Some(QuotaDirective { resource: ResourceKind::Blocks, soft, hard })
    } else if prefix_matches(s, e, "inodes") {
        Some(QuotaDirective { resource: ResourceKind::Inodes, soft, hard })
    } else {
        None
    }
}

/// In a token of shape `(e2, c2)` whose prefix up to `e` is lowercase and
/// whose character at `e` is `=`, the `=` stands at `e`.
proof fn lemma_scan_fixes_eq(s: Seq<char>, e2: int, c2: int, e: int)
    requires
        token_shape(s, e2, c2),
        0 <= e < s.len(),
        s[e] == '=',
        forall|j: int| 0 <= j < e ==> is_lower_char(#[trigger] s[j]),
    ensures
        e2 == e,
{
    if e2 < e {
        assert(is_lower_char(s[e2]));
        assert(false);
    }
    if e2 > e {
        assert(is_lower_char(s[e]));
        assert(false);
    }
}

/// In a token of shape `(e2, c2)` with `e2 < c`, digits from `e2` up to `c`,
/// and a `,` at `c`, the `,` stands at `c`.
proof fn lemma_scan_fixes_comma(s: Seq<char>, e2: int, c2: int, c: int)
    requires
        token_shape(s, e2, c2),
        e2 < c < s.len(),
        s[c] == ',',
        forall|j: int| e2 < j < c ==> is_digit_char(#[trigger] s[j]),
    ensures
        c2 == c,
{
    if c2 < c {
        assert(is_digit_char(s[c2]));
        assert(false);
    }
    if c2 > c {
        assert(is_digit_char(s[c]));
        assert(false);
    }
}

/// Extending a digit run by one digit multiplies its value by ten and adds
/// the digit.
proof fn lemma_digits_val_snoc(s: Seq<char>, a: int, j: int)
    requires
        0 <= a <= j < s.len(),
    ensures
        digits_val(s.subrange(a, j + 1)) == digits_val(s.subrange(a, j)) * 10 + digit_val(s[j]),
{
    assert(s.subrange(a, j + 1).drop_last() =~= s.subrange(a, j));
    assert(s.subrange(a, j + 1).last() == s[j]);
}

/// The result of folding the given tokens, left to right, into `acc`:
/// the final request, or the first token that denotes no directive.
pub open spec fn spec_fold_tokens(tokens: Seq<Seq<char>>, acc: QuotaRequest) -> Result<
    QuotaRequest,
    Seq<char>,
>
    decreases tokens.len(),
{
    if tokens.len() == 0 {
        Ok(acc)
    } else {
        match token_directive(tokens[0]) {
            Some(d) => spec_fold_tokens(tokens.drop_first(), acc.spec_apply(d)),
            None => Err(tokens[0]),
        }
    }
}

/// The request denoted by a whole list of configuration tokens, or the first
/// failing token.
pub open spec fn spec_parse_args(tokens: Seq<Seq<char>>) -> Result<QuotaRequest, Seq<char>> {
    spec_fold_tokens(tokens, QuotaRequest::spec_empty())
}

/// Parse the configuration strings into a quota request, folding directives
/// left to right with last-writer-wins per resource kind. On the first token
/// that denotes no directive, the fold aborts and that token is returned
/// verbatim.
pub fn parse_args(args: &Vec<String>) -> (r: Result<QuotaRequest, String>)
    ensures
        match r {
            Ok(req) => spec_parse_args(args.deep_view()) == Ok::<QuotaRequest, Seq<char>>(req),
            Err(tok) => spec_parse_args(args.deep_view()) == Err::<QuotaRequest, Seq<char>>(tok@),
        },
{
    let ghost tokens = args.deep_view();
    let mut req = QuotaRequest::empty();
    let mut i: usize = 0;
    proof {
        assert(tokens.skip(0) =~= tokens);
    }
    while i < args.len()
        invariant
            i <= args.len(),
            tokens == args.deep_view(),
            tokens.len() == args.len(),
            spec_fold_tokens(tokens.skip(i as int), req) == spec_parse_args(tokens),
        decreases args.len() - i,
    {
        proof {
            assert(tokens.skip(i as int).len() > 0);
            assert(tokens.skip(i as int)[0] == tokens[i as int]);
            assert(tokens.skip(i as int).drop_first() =~= tokens.skip(i + 1));
            assert(tokens[i as int] == args[i as int]@);
        }
        match parse_token(args[i].as_str()) {
            Some(d) => {
                req = req.apply(d);
            },
            None => {
                return Err(args[i].clone());
            },
        }
        i += 1;
    }
    proof {
        assert(tokens.skip(i as int) =~= Seq::<Seq<char>>::empty());
    }
    Ok(req)
}

/// The slot of one resource kind in a request: its presence flag and limits.
pub open spec fn kind_slot(req: QuotaRequest, kind: ResourceKind) -> (bool, u64, u64) {
    match kind {
        ResourceKind::Blocks => (req.blocks_set, req.bsoft, req.bhard),
        ResourceKind::Inodes => (req.inodes_set, req.isoft, req.ihard),
    }
}

/// The last directive of the given kind among the tokens, if any.
pub open spec fn last_of_kind(tokens: Seq<Seq<char>>, kind: ResourceKind) -> Option<QuotaDirective>
    decreases tokens.len(),
{
    if tokens.len() == 0 {
        None
    } else {
        match token_directive(tokens.last()) {
            Some(d) => if d.resource == kind {
                Some(d)
            } else {
                last_of_kind(tokens.drop_last(), kind)
            },
            None => last_of_kind(tokens.drop_last(), kind),
        }
    }
}

/// `last_of_kind` seen from the front: the last directive of a kind in a
/// non-empty list is the one in the tail, or else the head's if it matches.
proof fn lemma_last_of_kind_cons(tokens: Seq<Seq<char>>, kind: ResourceKind)
    requires
        tokens.len() > 0,
    ensures
        last_of_kind(tokens, kind) == {
            let rest_last = last_of_kind(tokens.drop_first(), kind);
            if rest_last is Some {
                rest_last
            } else {
                match token_directive(tokens[0]) {
                    Some(d) => if d.resource == kind {
                        Some(d)
                    } else {
                        None::<QuotaDirective>
                    },
                    None => None::<QuotaDirective>,
                }
            }
        },
    decreases tokens.len(),
{
    if tokens.len() == 1 {
        assert(tokens.drop_first() =~= Seq::<Seq<char>>::empty());
        assert(tokens.drop_last() =~= Seq::<Seq<char>>::empty());
        assert(tokens.last() == tokens[0]);
    } else {
        let rest = tokens.drop_first();
        assert(tokens.last() == rest.last());
        assert(tokens.drop_last()[0] == tokens[0]);
        assert(tokens.drop_last().drop_first() =~= rest.drop_last());
        lemma_last_of_kind_cons(tokens.drop_last(), kind);
    }
}

/// The fold's request holds, per kind, the last directive of that kind, or
/// the accumulator's slot where the tokens hold none.
proof fn lemma_fold_last_writer(
    tokens: Seq<Seq<char>>,
    acc: QuotaRequest,
    req: QuotaRequest,
    kind: ResourceKind,
)
    requires
        spec_fold_tokens(tokens, acc) == Ok::<QuotaRequest, Seq<char>>(req),
    ensures
        match last_of_kind(tokens, kind) {
            Some(d) => kind_slot(req, kind) == (true, d.soft, d.hard),
            None => kind_slot(req, kind) == kind_slot(acc, kind),
        },
    decreases tokens.len(),
{
    if tokens.len() == 0 {
    } else {
        match token_directive(tokens[0]) {
            Some(d) => {
                lemma_fold_last_writer(tokens.drop_first(), acc.spec_apply(d), req, kind);
                lemma_last_of_kind_cons(tokens, kind);
            },
            None => {
                assert(false);
            },
        }
    }
}

/// Law: parsing keeps, for each resource kind, exactly the last directive of
/// that kind — later directives overwrite earlier ones, directives of the
/// other kind are untouched, and a kind no directive names stays unset with
/// zero limits. With determinism this is all that parsing order means.
pub proof fn lemma_last_writer_wins(tokens: Seq<Seq<char>>, req: QuotaRequest)
    requires
        spec_parse_args(tokens) == Ok::<QuotaRequest, Seq<char>>(req),
    ensures
        match last_of_kind(tokens, ResourceKind::Blocks) {
            Some(d) => req.blocks_set && req.bsoft == d.soft && req.bhard == d.hard,
            None => !req.blocks_set && req.bsoft == 0 && req.bhard == 0,
        },
        match last_of_kind(tokens, ResourceKind::Inodes) {
            Some(d) => req.inodes_set && req.isoft == d.soft && req.ihard == d.hard,
            None => !req.inodes_set && req.isoft == 0 && req.ihard == 0,
        },
{
    lemma_fold_last_writer(tokens, QuotaRequest::spec_empty(), req, ResourceKind::Blocks);
    lemma_fold_last_writer(tokens, QuotaRequest::spec_empty(), req, ResourceKind::Inodes);
}

/// Law: two well-formed token lists with the same last directive per kind
/// parse to the same request, however the other tokens are ordered or
/// repeated.
pub proof fn lemma_parse_order_independent(
    tokens1: Seq<Seq<char>>,
    tokens2: Seq<Seq<char>>,
    req1: QuotaRequest,
    req2: QuotaRequest,
)
    requires
        spec_parse_args(tokens1) == Ok::<QuotaRequest, Seq<char>>(req1),
        spec_parse_args(tokens2) == Ok::<QuotaRequest, Seq<char>>(req2),
        last_of_kind(tokens1, ResourceKind::Blocks) == last_of_kind(tokens2, ResourceKind::Blocks),
        last_of_kind(tokens1, ResourceKind::Inodes) == last_of_kind(tokens2, ResourceKind::Inodes),
    ensures
        req1 == req2,
{
    lemma_last_writer_wins(tokens1, req1);
    lemma_last_writer_wins(tokens2, req2);
}

proof fn lemma_fold_first_malformed(tokens: Seq<Seq<char>>, acc: QuotaRequest, i: int)
    requires
        0 <= i < tokens.len(),
        token_directive(tokens[i]) is None,
        forall|j: int| 0 <= j < i ==> (#[trigger] token_directive(tokens[j])) is Some,
    ensures
        spec_fold_tokens(tokens, acc) == Err::<QuotaRequest, Seq<char>>(tokens[i]),
    decreases i,
{
    if i == 0 {
    } else {
        match token_directive(tokens[0]) {
            Some(d) => {
                let rest = tokens.drop_first();
                assert(forall|j: int|
                    0 <= j < i - 1 ==> (#[trigger] token_directive(rest[j])) is Some && rest[j]
                        == tokens[j + 1]);
                assert(rest[i - 1] == tokens[i]);
                lemma_fold_first_malformed(rest, acc.spec_apply(d), i - 1);
            },
            None => {
                assert(false);
            },
        }
    }
}

/// Law: the fold is fail-fast — the first token that denotes no directive is
/// the one the parse reports, verbatim.
pub proof fn lemma_first_malformed(tokens: Seq<Seq<char>>, i: int)
    requires
        0 <= i < tokens.len(),
        token_directive(tokens[i]) is None,
        forall|j: int| 0 <= j < i ==> (#[trigger] token_directive(tokens[j])) is Some,
    ensures
        spec_parse_args(tokens) == Err::<QuotaRequest, Seq<char>>(tokens[i]),
{
    lemma_fold_first_malformed(tokens, QuotaRequest::spec_empty(), i);
}

/// The directive denoted by `tag=d1,d2` where the digit runs are non-empty
/// and their values fit in a `u64`: the token is well-formed and decomposes
/// at the `=` and the `,` that the construction placed.
proof fn lemma_built_token_parts(tag: Seq<char>, d1: Seq<char>, d2: Seq<char>)
    requires
        tag.len() > 0,
        forall|i: int| 0 <= i < tag.len() ==> is_lower_char(#[trigger] tag[i]),
        d1.len() > 0,
        d2.len() > 0,
        forall|i: int| 0 <= i < d1.len() ==> is_digit_char(#[trigger] d1[i]),
        forall|i: int| 0 <= i < d2.len() ==> is_digit_char(#[trigger] d2[i]),
    ensures
        ({
            let s = tag + seq!['='] + d1 + seq![','] + d2;
            let e = tag.len() as int;
            let c = tag.len() + 1 + d1.len() as int;
            token_shape(s, e, c) && token_parts(s) == (e, c) && s.subrange(0, e) == tag
                && s.subrange(e + 1, c) == d1 && s.subrange(c + 1, s.len() as int) == d2
        }),
{
    let s = tag + seq!['='] + d1 + seq![','] + d2;
    let e = tag.len() as int;
    let c = tag.len() + 1 + d1.len() as int;
    assert(s.len() == tag.len() + d1.len() + d2.len() + 2);
    assert(s[e] == '=');
    assert(s[c] == ',');
    assert(forall|i: int| 0 <= i < e ==> s[i] == tag[i]);
    assert(forall|i: int| e < i < c ==> s[i] == d1[i - e - 1]);
    assert(forall|i: int| c < i < s.len() ==> s[i] == d2[i - c - 1]);
    assert(token_shape(s, e, c));
    let (e2, c2) = token_parts(s);
    assert(token_shape(s, e2, c2));
    lemma_token_shape_unique(s, e, c, e2, c2);
    assert(s.subrange(0, e) =~= tag);
    assert(s.subrange(e + 1, c) =~= d1);
    assert(s.subrange(c + 1, s.len() as int) =~= d2);
}

/// Law: a single `blocks=soft,hard` directive produces exactly the request
/// that sets the block limits to those values and leaves inodes unset.
pub proof fn lemma_blocks_round_trip(d1: Seq<char>, d2: Seq<char>)
    requires
        d1.len() > 0,
        d2.len() > 0,
        forall|i: int| 0 <= i < d1.len() ==> is_digit_char(#[trigger] d1[i]),
        forall|i: int| 0 <= i < d2.len() ==> is_digit_char(#[trigger] d2[i]),
        digits_val(d1) <= u64::MAX,
        digits_val(d2) <= u64::MAX,
    ensures
        spec_parse_args(seq!["blocks"@ + seq!['='] + d1 + seq![','] + d2]) == Ok::<
            QuotaRequest,
            Seq<char>,
        >(
            QuotaRequest {
                blocks_set: true,
                bsoft: digits_val(d1) as u64,
                bhard: digits_val(d2) as u64,
                inodes_set: false,
                isoft: 0,
                ihard: 0,
            },
        ),
{
    reveal_strlit("blocks");
    let tag = "blocks"@;
    assert(is_lower_char(tag[0]));
    assert(is_lower_char(tag[1]));
    assert(is_lower_char(tag[2]));
    assert(is_lower_char(tag[3]));
    assert(is_lower_char(tag[4]));
    assert(is_lower_char(tag[5]));
    lemma_built_token_parts(tag, d1, d2);
    let s = tag + seq!['='] + d1 + seq![','] + d2;
    let d = QuotaDirective {
        resource: ResourceKind::Blocks,
        soft: digits_val(d1) as u64,
        hard: digits_val(d2) as u64,
    };
    assert(token_directive(s) == Some(d));
    let req = QuotaRequest::spec_empty().spec_apply(d);
    let tokens = seq![s];
    assert(tokens[0] == s);
    let rest = tokens.drop_first();
    assert(rest =~= Seq::<Seq<char>>::empty());
    assert(spec_fold_tokens(rest, req) == Ok::<QuotaRequest, Seq<char>>(req));
    assert(spec_parse_args(tokens) == Ok::<QuotaRequest, Seq<char>>(req));
}

/// Law: a single `inodes=soft,hard` directive produces exactly the request
/// that sets the inode limits to those values and leaves blocks unset.
pub proof fn lemma_inodes_round_trip(d1: Seq<char>, d2: Seq<char>)
    requires
        d1.len() > 0,
        d2.len() > 0,
        forall|i: int| 0 <= i < d1.len() ==> is_digit_char(#[trigger] d1[i]),
        forall|i: int| 0 <= i < d2.len() ==> is_digit_char(#[trigger] d2[i]),
        digits_val(d1) <= u64::MAX,
        digits_val(d2) <= u64::MAX,
    ensures
        spec_parse_args(seq!["inodes"@ + seq!['='] + d1 + seq![','] + d2]) == Ok::<
            QuotaRequest,
            Seq<char>,
        >(
            QuotaRequest {
                blocks_set: false,
                bsoft: 0,
                bhard: 0,
                inodes_set: true,
                isoft: digits_val(d1) as u64,
                ihard: digits_val(d2) as u64,
            },
        ),
{
    reveal_strlit("inodes");
    reveal_strlit("blocks");
    let tag = "inodes"@;
    assert(is_lower_char(tag[0]));
    assert(is_lower_char(tag[1]));
    assert(is_lower_char(tag[2]));
    assert(is_lower_char(tag[3]));
    assert(is_lower_char(tag[4]));
    assert(is_lower_char(tag[5]));
    lemma_built_token_parts(tag, d1, d2);
    let s = tag + seq!['='] + d1 + seq![','] + d2;
    if tag == "blocks"@ {
        assert(tag[0] == "blocks"@[0]);
        assert(false);
    }
    let d = QuotaDirective {
        resource: ResourceKind::Inodes,
        soft: digits_val(d1) as u64,
        hard: digits_val(d2) as u64,
    };
    assert(token_directive(s) == Some(d));
    let req = QuotaRequest::spec_empty().spec_apply(d);
    let tokens = seq![s];
    assert(tokens[0] == s);
    let rest = tokens.drop_first();
    assert(rest =~= Seq::<Seq<char>>::empty());
    assert(spec_fold_tokens(rest, req) == Ok::<QuotaRequest, Seq<char>>(req));
    assert(spec_parse_args(tokens) == Ok::<QuotaRequest, Seq<char>>(req));
}

} // verus!
