//! Byte-level text operations: case folding, line and token splitting,
//! comment stripping, trimming, and numeric-literal parsing.
//!
//! The interpreter works on the UTF-8 bytes of its source text.  Every
//! operation here is specified on `Seq<u8>` and implemented on `Vec<u8>`.

use vstd::prelude::*;

verus! {

/// ASCII whitespace: space, tab, line feed, form feed, carriage return.
pub open spec fn is_ws(b: u8) -> bool {
    b == 0x20 || b == 0x09 || b == 0x0a || b == 0x0c || b == 0x0d
}

/// ASCII upper-case letters fold to lower case; all other bytes are kept,
/// so multi-byte UTF-8 sequences pass through untouched.
pub open spec fn lower_byte(b: u8) -> u8 {
    if 0x41 <= b && b <= 0x5a {
        (b + 0x20) as u8
    } else {
        b
    }
}

/// The whole text folded to lower case, byte by byte.
pub open spec fn lower(s: Seq<u8>) -> Seq<u8> {
    s.map_values(|b: u8| lower_byte(b))
}

/// The first position at or after `i` holding `b`.
pub open spec fn find_byte_from(s: Seq<u8>, b: u8, i: int) -> Option<int>
    decreases s.len() - i,
{
    if i < 0 || i >= s.len() {
        None
    } else if s[i] == b {
        Some(i)
    } else {
        find_byte_from(s, b, i + 1)
    }
}

/// The first position holding `b`.
pub open spec fn find_byte(s: Seq<u8>, b: u8) -> Option<int> {
    find_byte_from(s, b, 0)
}

pub proof fn lemma_find_byte_from(s: Seq<u8>, b: u8, i: int)
    requires
        0 <= i,
    ensures
        match find_byte_from(s, b, i) {
            Some(j) => i <= j < s.len() && s[j] == b && (forall|k: int| i <= k < j ==> s[k] != b),
            None => forall|k: int| i <= k < s.len() ==> s[k] != b,
        },
    decreases s.len() - i,
{
    if i < s.len() && s[i] != b {
        lemma_find_byte_from(s, b, i + 1);
    }
}

/// The comment region begins at whichever of `;` or `#` occurs earliest.
pub open spec fn find_comment_from(s: Seq<u8>, i: int) -> Option<int>
    decreases s.len() - i,
{
    if i < 0 || i >= s.len() {
        None
    } else if s[i] == 0x3b || s[i] == 0x23 {
        Some(i)
    } else {
        find_comment_from(s, i + 1)
    }
}

/// A line with everything from the first comment marker onward dropped.
pub open spec fn strip_comment(s: Seq<u8>) -> Seq<u8> {
    match find_comment_from(s, 0) {
        Some(i) => s.take(i),
        None => s,
    }
}

/// The text divided at every line feed; an empty text is one empty line.
pub open spec fn split_lines(s: Seq<u8>) -> Seq<Seq<u8>>
    decreases s.len(),
    via split_lines_decreases
{
    match find_byte(s, 0x0a) {
        None => seq![s],
        Some(i) => seq![s.take(i)] + split_lines(s.skip(i + 1)),
    }
}

#[via_fn]
proof fn split_lines_decreases(s: Seq<u8>) {
    lemma_find_byte_from(s, 0x0a, 0);
}

/// The first whitespace position at or after `i`, or the length.
pub open spec fn token_end(s: Seq<u8>, i: int) -> int
    decreases s.len() - i,
{
    if i < 0 || i >= s.len() {
        s.len() as int
    } else if is_ws(s[i]) {
        i
    } else {
        token_end(s, i + 1)
    }
}

pub proof fn lemma_token_end(s: Seq<u8>, i: int)
    requires
        0 <= i <= s.len(),
    ensures
        i <= token_end(s, i) <= s.len(),
        forall|k: int| i <= k < token_end(s, i) ==> !is_ws(s[k]),
        token_end(s, i) < s.len() ==> is_ws(s[token_end(s, i)]),
    decreases s.len() - i,
{
    if i < s.len() && !is_ws(s[i]) {
        lemma_token_end(s, i + 1);
    }
}

/// The maximal runs of non-whitespace bytes at or after `i`, in order.
pub open spec fn tokenize_from(s: Seq<u8>, i: int) -> Seq<Seq<u8>>
    decreases s.len() - i, s.len() - i + 1
    via tokenize_from_decreases
{
    if i < 0 || i >= s.len() {
        Seq::empty()
    } else if is_ws(s[i]) {
        tokenize_from(s, i + 1)
    } else {
        seq![s.subrange(i, token_end(s, i))] + tokenize_from(s, token_end(s, i))
    }
}

#[via_fn]
proof fn tokenize_from_decreases(s: Seq<u8>, i: int) {
    if 0 <= i < s.len() && !is_ws(s[i]) {
        lemma_token_end(s, i);
        assert(token_end(s, i) == token_end(s, i + 1));
    }
}

/// The whitespace-separated tokens of a line.
pub open spec fn tokenize(s: Seq<u8>) -> Seq<Seq<u8>> {
    tokenize_from(s, 0)
}

/// The first non-whitespace position at or after `i`, or the length.
pub open spec fn skip_ws(s: Seq<u8>, i: int) -> int
    decreases s.len() - i,
{
    if i < 0 || i >= s.len() {
        s.len() as int
    } else if is_ws(s[i]) {
        skip_ws(s, i + 1)
    } else {
        i
    }
}

/// The position after the last non-whitespace byte before `j`, or zero.
pub open spec fn rskip_ws(s: Seq<u8>, j: int) -> int
    decreases j,
{
    if j <= 0 || j > s.len() {
        0
    } else if is_ws(s[j - 1]) {
        rskip_ws(s, j - 1)
    } else {
        j
    }
}

/// The text with leading and trailing whitespace dropped.
pub open spec fn trim(s: Seq<u8>) -> Seq<u8> {
    let a = skip_ws(s, 0);
    let b = rskip_ws(s, s.len() as int);
    if a < b {
        s.subrange(a, b)
    } else {
        Seq::empty()
    }
}

/// Whether every byte is an ASCII decimal digit.
pub open spec fn all_digits(s: Seq<u8>) -> bool {
    forall|k: int| 0 <= k < s.len() ==> 0x30 <= #[trigger] s[k] <= 0x39
}

/// The value of a digit string, unbounded.
pub open spec fn digits_val(s: Seq<u8>) -> int
    decreases s.len(),
{
    if s.len() == 0 {
        0
    } else {
        digits_val(s.drop_last()) * 10 + (s.last() - 0x30)
    }
}

/// A numeric literal: an optional leading `+`, then one or more decimal
/// digits, whose value fits the unsigned word; anything else is refused.
pub open spec fn parse_num(s: Seq<u8>) -> Option<usize> {
    let d = if s.len() >= 1 && s[0] == 0x2b {
        s.skip(1)
    } else {
        s
    };
    if d.len() == 0 || !all_digits(d) {
        None
    } else if digits_val(d) > usize::MAX {
        None
    } else {
        Some(digits_val(d) as usize)
    }
}

pub proof fn lemma_digits_val_bounds(s: Seq<u8>)
    requires
        all_digits(s),
    ensures
        digits_val(s) >= 0,
        s.len() > 0 ==> digits_val(s) >= digits_val(s.drop_last()),
    decreases s.len(),
{
    if s.len() > 0 {
        assert(all_digits(s.drop_last()));
        lemma_digits_val_bounds(s.drop_last());
    }
}

pub proof fn lemma_digits_val_mono(s: Seq<u8>, i: int)
    requires
        all_digits(s),
        0 <= i <= s.len(),
    ensures
        digits_val(s.take(i)) <= digits_val(s),
    decreases s.len(),
{
    lemma_digits_val_bounds(s);
    if i == s.len() {
        assert(s.take(i) =~= s);
    } else {
        assert(all_digits(s.drop_last()));
        assert(s.drop_last().take(i) =~= s.take(i));
        lemma_digits_val_mono(s.drop_last(), i);
    }
}

/// The views of a sequence of byte vectors.
pub open spec fn views(vv: Seq<Vec<u8>>) -> Seq<Seq<u8>> {
    vv.map_values(|x: Vec<u8>| x@)
}

proof fn lemma_find_byte_shift(s: Seq<u8>, b: u8, i: int, k: int)
    requires
        0 <= i <= s.len(),
        0 <= k,
    ensures
        find_byte_from(s.skip(i), b, k) == match find_byte_from(s, b, i + k) {
            Some(j) => Some(j - i),
            None => None::<int>,
        },
    decreases s.len() - i - k,
{
    if i + k < s.len() {
        assert(s.skip(i)[k] == s[i + k]);
        if s[i + k] != b {
            lemma_find_byte_shift(s, b, i, k + 1);
        }
    }
}

/// Whether a byte is ASCII whitespace.
pub fn ws(b: u8) -> (r: bool)
    ensures
        r == is_ws(b),
{
    b == 0x20 || b == 0x09 || b == 0x0a || b == 0x0c || b == 0x0d
}

/// A copy of the bytes in the half-open range `a .. b`.
pub fn subvec(v: &Vec<u8>, a: usize, b: usize) -> (r: Vec<u8>)
    requires
        a <= b <= v@.len(),
    ensures
        r@ == v@.subrange(a as int, b as int),
{
    let mut out: Vec<u8> = Vec::new();
    let mut i: usize = a;
    while i < b
        invariant
            a <= i <= b <= v@.len(),
            out@.len() == i - a,
            forall|k: int| 0 <= k < out@.len() ==> out@[k] == v@[a + k],
        decreases b - i,
    {
        out.push(v[i]);
        i = i + 1;
    }
    proof {
        assert(out@ =~= v@.subrange(a as int, b as int));
    }
    out
}

/// The text folded to lower case.
pub fn to_lower(v: &Vec<u8>) -> (r: Vec<u8>)
    ensures
        r@ == lower(v@),
{
    let mut out: Vec<u8> = Vec::new();
    let mut i: usize = 0;
    while i < v.len()
        invariant
            i <= v@.len(),
            out@.len() == i,
            forall|k: int| 0 <= k < i ==> out@[k] == lower_byte(v@[k]),
        decreases v@.len() - i,
    {
        let b = v[i];
        if 0x41 <= b && b <= 0x5a {
            out.push(b + 0x20);
        } else {
            out.push(b);
        }
        i = i + 1;
    }
    proof {
        assert(out@ =~= lower(v@));
    }
    out
}

/// The position of the first colon, if any.
pub fn find_colon(v: &Vec<u8>) -> (r: Option<usize>)
    ensures
        match r {
            Some(i) => find_byte(v@, 0x3a) == Some(i as int),
            None => find_byte(v@, 0x3a) == None::<int>,
        },
{
    let mut i: usize = 0;
    while i < v.len()
        invariant
            i <= v@.len(),
            find_byte(v@, 0x3a) == find_byte_from(v@, 0x3a, i as int),
        decreases v@.len() - i,
    {
        if v[i] == 0x3a {
            return Some(i);
        }
        i = i + 1;
    }
    None
}

/// The line with its comment region dropped.
pub fn cut_comment(v: &Vec<u8>) -> (r: Vec<u8>)
    ensures
        r@ == strip_comment(v@),
{
    let mut i: usize = 0;
    while i < v.len()
        invariant
            i <= v@.len(),
            find_comment_from(v@, 0) == find_comment_from(v@, i as int),
        decreases v@.len() - i,
    {
        let b = v[i];
        if b == 0x3b || b == 0x23 {
            return subvec(v, 0, i);
        }
        i = i + 1;
    }
    subvec(v, 0, v.len())
}

/// The text divided at every line feed.
pub fn split_into_lines(v: &Vec<u8>) -> (r: Vec<Vec<u8>>)
    ensures
        views(r@) == split_lines(v@),
{
    let mut out: Vec<Vec<u8>> = Vec::new();
    let mut i: usize = 0;
    proof {
        assert(v@.skip(0) =~= v@);
        assert(views(out@) + split_lines(v@) =~= split_lines(v@));
    }
    loop
        invariant
            i <= v@.len(),
            split_lines(v@) == views(out@) + split_lines(v@.skip(i as int)),
        decreases v@.len() - i,
    {
        let mut j: usize = i;
        while j < v.len() && v[j] != 0x0a
            invariant
                i <= j <= v@.len(),
                find_byte_from(v@, 0x0a, i as int) == find_byte_from(v@, 0x0a, j as int),
            decreases v@.len() - j,
        {
            j = j + 1;
        }
        proof {
            lemma_find_byte_shift(v@, 0x0a, i as int, 0);
        }
        if j < v.len() {
            let ghost pre = views(out@);
            out.push(subvec(v, i, j));
            proof {
                assert(find_byte_from(v@, 0x0a, i as int) == Some(j as int));
                assert(find_byte(v@.skip(i as int), 0x0a) == Some(j - i));
                assert(v@.skip(i as int).take(j - i) =~= v@.subrange(i as int, j as int));
                assert(v@.skip(i as int).skip(j - i + 1) =~= v@.skip(j + 1));
                assert(views(out@) =~= pre.push(v@.subrange(i as int, j as int)));
                assert(split_lines(v@.skip(i as int)) == seq![v@.subrange(i as int, j as int)]
                    + split_lines(v@.skip(j + 1)));
                assert(views(out@) + split_lines(v@.skip(j + 1)) =~= pre + split_lines(
                    v@.skip(i as int),
                ));
            }
            i = j + 1;
        } else {
            let ghost pre = views(out@);
            out.push(subvec(v, i, v.len()));
            proof {
                assert(find_byte_from(v@, 0x0a, i as int) == None::<int>);
                assert(find_byte(v@.skip(i as int), 0x0a) == None::<int>);
                assert(v@.subrange(i as int, v@.len() as int) =~= v@.skip(i as int));
                assert(views(out@) =~= pre.push(v@.skip(i as int)));
                assert(split_lines(v@.skip(i as int)) == seq![v@.skip(i as int)]);
                assert(views(out@) =~= pre + split_lines(v@.skip(i as int)));
            }
            return out;
        }
    }
}

/// The whitespace-separated tokens of a line.
pub fn split_tokens(v: &Vec<u8>) -> (r: Vec<Vec<u8>>)
    ensures
        views(r@) == tokenize(v@),
{
    let mut out: Vec<Vec<u8>> = Vec::new();
    let mut i: usize = 0;
    while i < v.len()
        invariant
            i <= v@.len(),
            tokenize(v@) == views(out@) + tokenize_from(v@, i as int),
        decreases v@.len() - i,
    {
        if ws(v[i]) {
            i = i + 1;
        } else {
            let mut j: usize = i;
            while j < v.len() && !ws(v[j])
                invariant
                    i <= j <= v@.len(),
                    token_end(v@, i as int) == token_end(v@, j as int),
                decreases v@.len() - j,
            {
                j = j + 1;
            }
            proof {
                assert(token_end(v@, i as int) == j);
            }
            let ghost pre = views(out@);
            out.push(subvec(v, i, j));
            proof {
                assert(views(out@) =~= pre.push(v@.subrange(i as int, j as int)));
                assert(tokenize_from(v@, i as int) == seq![v@.subrange(i as int, j as int)]
                    + tokenize_from(v@, j as int));
                assert(views(out@) + tokenize_from(v@, j as int) =~= pre + tokenize_from(
                    v@,
                    i as int,
                ));
            }
            i = j;
        }
    }
    proof {
        assert(views(out@) =~= views(out@) + tokenize_from(v@, i as int));
    }
    out
}

proof fn lemma_rskip_ws_all(s: Seq<u8>, j: int)
    requires
        0 <= j <= s.len(),
        forall|k: int| 0 <= k < j ==> is_ws(s[k]),
    ensures
        rskip_ws(s, j) == 0,
    decreases j,
{
    if j > 0 {
        lemma_rskip_ws_all(s, j - 1);
    }
}

/// The text with leading and trailing whitespace dropped.
pub fn trim_bytes(v: &Vec<u8>) -> (r: Vec<u8>)
    ensures
        r@ == trim(v@),
{
    let mut a: usize = 0;
    while a < v.len() && ws(v[a])
        invariant
            a <= v@.len(),
            skip_ws(v@, 0) == skip_ws(v@, a as int),
            forall|k: int| 0 <= k < a ==> is_ws(v@[k]),
        decreases v@.len() - a,
    {
        a = a + 1;
    }
    proof {
        assert(skip_ws(v@, 0) == a);
    }
    let mut b: usize = v.len();
    while b > a && ws(v[b - 1])
        invariant
            a <= b <= v@.len(),
            rskip_ws(v@, v@.len() as int) == rskip_ws(v@, b as int),
        decreases b,
    {
        b = b - 1;
    }
    if a < b {
        proof {
            assert(rskip_ws(v@, b as int) == b);
        }
        subvec(v, a, b)
    } else {
        proof {
            lemma_rskip_ws_all(v@, b as int);
            assert(trim(v@) =~= Seq::<u8>::empty());
        }
        Vec::new()
    }
}

/// The numeric literal the token holds, if it is one.
pub fn parse_literal(v: &Vec<u8>) -> (r: Option<usize>)
    ensures
        r == parse_num(v@),
{
    let start: usize = if v.len() >= 1 && v[0] == 0x2b {
        1
    } else {
        0
    };
    let ghost d = if v@.len() >= 1 && v@[0] == 0x2b {
        v@.skip(1)
    } else {
        v@
    };
    proof {
        assert(d =~= v@.subrange(start as int, v@.len() as int));
    }
    if v.len() == start {
        return None;
    }
    let mut acc: usize = 0;
    let mut i: usize = start;
    while i < v.len()
        invariant
            start <= i <= v@.len(),
            start < v@.len(),
            d == v@.subrange(start as int, v@.len() as int),
            parse_num(v@) == (if d.len() == 0 || !all_digits(d) {
                None::<usize>
            } else if digits_val(d) > usize::MAX {
                None::<usize>
            } else {
                Some(digits_val(d) as usize)
            }),
            all_digits(v@.subrange(start as int, i as int)),
            acc == digits_val(v@.subrange(start as int, i as int)),
        decreases v@.len() - i,
    {
        let b = v[i];
        if b < 0x30 || b > 0x39 {
            proof {
                assert(d[i - start] == v@[i as int]);
                assert(!all_digits(d));
            }
            return None;
        }
        let ghost prefix = v@.subrange(start as int, i as int);
        let ghost prefix1 = v@.subrange(start as int, i + 1);
        proof {
            assert(prefix1.drop_last() =~= prefix);
            assert(all_digits(prefix1));
        }
        let next = match acc.checked_mul(10) {
            Some(m) => m.checked_add((b - 0x30) as usize),
            None => None,
        };
        match next {
            Some(n) => {
                acc = n;
            },
            None => {
                proof {
                    assert(digits_val(prefix1) > usize::MAX);
                    if all_digits(d) {
                        assert(d.take(i + 1 - start) =~= prefix1);
                        lemma_digits_val_mono(d, i + 1 - start);
                    }
                }
                return None;
            },
        }
        i = i + 1;
    }
    proof {
        assert(v@.subrange(start as int, i as int) =~= d);
    }
    Some(acc)
}

} // verus!
