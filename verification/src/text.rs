//! Character and string helpers shared by the index and the search engine.
//!
//! Name comparisons throughout the launcher are case-insensitive; the
//! folding itself is `str::to_lowercase` behind the trusted
//! [`crate::bindings::fold_case`], and everything here compares the folded
//! strings character for character.

use crate::bindings::push_char;
use vstd::prelude::*;

verus! {

/// Character-for-character string equality.
pub fn str_eq(a: &str, b: &str) -> (r: bool)
    ensures
        r <==> a@ == b@,
{
    let la = a.unicode_len();
    let lb = b.unicode_len();
    if la != lb {
        return false;
    }
    let mut i: usize = 0;
    while i < la
        invariant
            la == a@.len(),
            la == b@.len(),
            i <= la,
            forall|k: int| 0 <= k < i ==> a@[k] == b@[k],
        decreases la - i,
    {
        if a.get_char(i) != b.get_char(i) {
            return false;
        }
        i = i + 1;
    }
    proof {
        assert(a@ =~= b@);
    }
    true
}

/// Does `s` end in `suffix`?
pub fn ends_with_str(s: &str, suffix: &str) -> (r: bool)
    ensures
        r <==> (s@.len() >= suffix@.len() && s@.skip(s@.len() - suffix@.len()) == suffix@),
{
    let n = s.unicode_len();
    let m = suffix.unicode_len();
    if m > n {
        return false;
    }
    let tail = s.substring_char(n - m, n);
    str_eq(tail, suffix)
}

/// Does `sub` occur somewhere inside `s`?
pub open spec fn has_substr(s: Seq<char>, sub: Seq<char>) -> bool {
    exists|i: int| 0 <= i && i + sub.len() <= s.len() && #[trigger] s.subrange(i, i + sub.len())
        == sub
}

pub fn contains_substr(s: &str, sub: &str) -> (r: bool)
    ensures
        r <==> has_substr(s@, sub@),
{
    let n = s.unicode_len();
    let m = sub.unicode_len();
    if m > n {
        return false;
    }
    if m == 0 {
        proof {
            assert(s@.subrange(0, 0 + sub@.len() as int) =~= sub@);
            assert(has_substr(s@, sub@));
        }
        return true;
    }
    let mut i: usize = 0;
    while i <= n - m
        invariant
            n == s@.len(),
            m == sub@.len(),
            0 < m <= n,
            i <= n - m + 1,
            forall|k: int| 0 <= k < i ==> #[trigger] s@.subrange(k, k + sub@.len()) != sub@,
        decreases n - i,
    {
        let piece = s.substring_char(i, i + m);
        if str_eq(piece, sub) {
            return true;
        }
        i = i + 1;
    }
    false
}

/// Does `s` begin with `prefix`?
pub fn starts_with_str(s: &str, prefix: &str) -> (r: bool)
    ensures
        r <==> (s@.len() >= prefix@.len() && s@.take(prefix@.len() as int) == prefix@),
{
    let n = s.unicode_len();
    let m = prefix.unicode_len();
    if m > n {
        return false;
    }
    let head = s.substring_char(0, m);
    str_eq(head, prefix)
}

/// The whitespace this library recognizes: blank, tab, and line breaks.
pub open spec fn is_space_char(c: char) -> bool {
    c == ' ' || c == '\t' || c == '\n' || c == '\r'
}

pub fn is_space(c: char) -> (r: bool)
    ensures
        r == is_space_char(c),
{
    c == ' ' || c == '\t' || c == '\n' || c == '\r'
}

/// Lexicographic order on character sequences, by code point; the empty
/// sequence comes first. (Opaque: the order's callers reason through the
/// totality and transitivity lemmas and the comparison function below.)
#[verifier::opaque]
pub open spec fn lex_le(a: Seq<char>, b: Seq<char>) -> bool
    decreases a.len(),
{
    if a.len() == 0 {
        true
    } else if b.len() == 0 {
        false
    } else if a[0] == b[0] {
        lex_le(a.drop_first(), b.drop_first())
    } else {
        (a[0] as u32) < (b[0] as u32)
    }
}

/// Any two sequences are lexicographically comparable.
pub proof fn lemma_lex_le_total(a: Seq<char>, b: Seq<char>)
    ensures
        lex_le(a, b) || lex_le(b, a),
    decreases a.len(),
{
    reveal(lex_le);
    if a.len() > 0 && b.len() > 0 {
        if a[0] == b[0] {
            lemma_lex_le_total(a.drop_first(), b.drop_first());
        } else {
            vstd::utf8::char_u32_cast(a[0], a[0] as u32);
            vstd::utf8::char_u32_cast(b[0], b[0] as u32);
            assert((a[0] as u32) != (b[0] as u32));
        }
    }
}

/// Lexicographic order is transitive.
pub proof fn lemma_lex_le_trans(a: Seq<char>, b: Seq<char>, c: Seq<char>)
    requires
        lex_le(a, b),
        lex_le(b, c),
    ensures
        lex_le(a, c),
    decreases a.len(),
{
    reveal(lex_le);
    if a.len() > 0 && b.len() > 0 && c.len() > 0 && a[0] == b[0] && b[0] == c[0] {
        lemma_lex_le_trans(a.drop_first(), b.drop_first(), c.drop_first());
    }
}

/// Lexicographic comparison of two strings, character for character.
pub fn lex_le_str(a: &str, b: &str) -> (r: bool)
    ensures
        r == lex_le(a@, b@),
{
    let la = a.unicode_len();
    let lb = b.unicode_len();
    proof {
        reveal(lex_le);
        assert(a@.skip(0) =~= a@);
        assert(b@.skip(0) =~= b@);
    }
    let mut i: usize = 0;
    while i < la && i < lb
        invariant
            la == a@.len(),
            lb == b@.len(),
            i <= la,
            i <= lb,
            lex_le(a@, b@) == lex_le(a@.skip(i as int), b@.skip(i as int)),
            forall|k: int| 0 <= k < i ==> a@[k] == b@[k],
        decreases la - i,
    {
        let ca = a.get_char(i);
        let cb = b.get_char(i);
        proof {
            reveal(lex_le);
            assert(a@.skip(i as int)[0] == a@[i as int]);
            assert(b@.skip(i as int)[0] == b@[i as int]);
        }
        if ca != cb {
            return (ca as u32) < (cb as u32);
        }
        proof {
            assert(a@.skip(i as int).drop_first() =~= a@.skip(i + 1));
            assert(b@.skip(i as int).drop_first() =~= b@.skip(i + 1));
        }
        i = i + 1;
    }
    proof {
        reveal(lex_le);
        if i >= la {
            assert(a@.skip(i as int) =~= Seq::<char>::empty());
        } else {
            assert(b@.skip(i as int) =~= Seq::<char>::empty());
            assert(a@.skip(i as int).len() > 0);
        }
    }
    la <= lb
}

/// The end of the whitespace-free run starting at `i`: the first position
/// at or after `i` holding whitespace, or the end of the sequence.
pub open spec fn tok_end(s: Seq<char>, i: int) -> int
    decreases s.len() - i when 0 <= i <= s.len()
{
    if i >= s.len() || is_space_char(s[i]) {
        i
    } else {
        tok_end(s, i + 1)
    }
}

pub proof fn lemma_tok_end_bounds(s: Seq<char>, i: int)
    requires
        0 <= i <= s.len(),
    ensures
        i <= tok_end(s, i) <= s.len(),
        i < s.len() && !is_space_char(s[i]) ==> tok_end(s, i) > i,
    decreases s.len() - i,
{
    if i < s.len() && !is_space_char(s[i]) {
        lemma_tok_end_bounds(s, i + 1);
    }
}

/// The whitespace-separated tokens of `s` from position `i` on.
pub open spec fn tokens_from(s: Seq<char>, i: int) -> Seq<Seq<char>>
    decreases s.len() - i when 0 <= i <= s.len() via tokens_from_decreases
{
    if i >= s.len() {
        Seq::empty()
    } else if is_space_char(s[i]) {
        tokens_from(s, i + 1)
    } else {
        seq![s.subrange(i, tok_end(s, i))] + tokens_from(s, tok_end(s, i))
    }
}

#[via_fn]
proof fn tokens_from_decreases(s: Seq<char>, i: int) {
    if 0 <= i <= s.len() && i < s.len() && !is_space_char(s[i]) {
        lemma_tok_end_bounds(s, i);
    }
}

/// The whitespace-separated tokens of `s`.
pub open spec fn tokens(s: Seq<char>) -> Seq<Seq<char>> {
    tokens_from(s, 0)
}

/// Splits a string on runs of whitespace, dropping empty pieces.
pub fn split_tokens(s: &str) -> (r: Vec<String>)
    ensures
        r.deep_view() == tokens(s@),
{
    let n = s.unicode_len();
    let mut out: Vec<String> = Vec::new();
    let mut i: usize = 0;
    while i < n
        invariant
            n == s@.len(),
            i <= n,
            tokens(s@) == out.deep_view() + tokens_from(s@, i as int),
        decreases n - i,
    {
        if is_space(s.get_char(i)) {
            i = i + 1;
        } else {
            let mut j: usize = i;
            while j < n && !is_space(s.get_char(j))
                invariant
                    n == s@.len(),
                    i <= j <= n,
                    tok_end(s@, i as int) == tok_end(s@, j as int),
                decreases n - j,
            {
                j = j + 1;
            }
            proof {
                assert(tok_end(s@, j as int) == j);
                lemma_tok_end_bounds(s@, i as int);
            }
            let piece = s.substring_char(i, j);
            let ghost prev = out.deep_view();
            out.push(piece.to_owned());
            proof {
                assert(out.deep_view() =~= prev.push(s@.subrange(i as int, j as int)));
                assert(tokens_from(s@, i as int) =~= seq![s@.subrange(i as int, j as int)]
                    + tokens_from(s@, j as int));
                assert(prev + tokens_from(s@, i as int) =~= out.deep_view() + tokens_from(
                    s@,
                    j as int,
                ));
            }
            i = j;
        }
    }
    proof {
        assert(tokens_from(s@, n as int) =~= Seq::<Seq<char>>::empty());
        assert(out.deep_view() + tokens_from(s@, n as int) =~= out.deep_view());
    }
    out
}

pub open spec fn dec_digit(d: int) -> char {
    if d == 0 {
        '0'
    } else if d == 1 {
        '1'
    } else if d == 2 {
        '2'
    } else if d == 3 {
        '3'
    } else if d == 4 {
        '4'
    } else if d == 5 {
        '5'
    } else if d == 6 {
        '6'
    } else if d == 7 {
        '7'
    } else if d == 8 {
        '8'
    } else {
        '9'
    }
}

/// A count as written: decimal, most significant digit first, no sign,
/// no leading zeroes (but `0` itself).
pub open spec fn dec_of(n: nat) -> Seq<char>
    decreases n,
{
    if n < 10 {
        seq![dec_digit(n as int)]
    } else {
        dec_of(n / 10).push(dec_digit((n % 10) as int))
    }
}

pub fn digit_char(d: u32) -> (r: char)
    requires
        d < 10,
    ensures
        r == dec_digit(d as int),
{
    match d {
        0 => '0',
        1 => '1',
        2 => '2',
        3 => '3',
        4 => '4',
        5 => '5',
        6 => '6',
        7 => '7',
        8 => '8',
        _ => '9',
    }
}

/// Appends a count in decimal.
pub fn push_dec(out: &mut String, v: u32)
    ensures
        final(out)@ == old(out)@ + dec_of(v as nat),
    decreases v,
{
    if v < 10 {
        crate::bindings::push_char(out, digit_char(v));
        proof {
            assert(old(out)@ + dec_of(v as nat) =~= old(out)@.push(dec_digit(v as int)));
        }
    } else {
        push_dec(out, v / 10);
        crate::bindings::push_char(out, digit_char(v % 10));
        proof {
            assert(old(out)@ + dec_of(v as nat) =~= (old(out)@ + dec_of((v / 10) as nat)).push(
                dec_digit((v % 10) as int),
            ));
        }
    }
}


/// The first position at or after `i` holding `sep`, or the end.
pub open spec fn sep_end(s: Seq<char>, i: int, sep: char) -> int
    decreases s.len() - i when 0 <= i <= s.len()
{
    if i >= s.len() || s[i] == sep {
        i
    } else {
        sep_end(s, i + 1, sep)
    }
}

pub proof fn lemma_sep_end_bounds(s: Seq<char>, i: int, sep: char)
    requires
        0 <= i <= s.len(),
    ensures
        i <= sep_end(s, i, sep) <= s.len(),
        sep_end(s, i, sep) < s.len() ==> s[sep_end(s, i, sep)] == sep,
    decreases s.len() - i,
{
    if i < s.len() && s[i] != sep {
        lemma_sep_end_bounds(s, i + 1, sep);
    }
}

/// The fields of `s` from position `i` on, separated by `sep`; empty
/// fields are kept, and there is always one more field than separators.
pub open spec fn split_from(s: Seq<char>, i: int, sep: char) -> Seq<Seq<char>>
    decreases s.len() - i when 0 <= i <= s.len() via split_from_decreases
{
    if sep_end(s, i, sep) >= s.len() {
        seq![s.subrange(i, s.len() as int)]
    } else {
        seq![s.subrange(i, sep_end(s, i, sep))] + split_from(s, sep_end(s, i, sep) + 1, sep)
    }
}

#[via_fn]
proof fn split_from_decreases(s: Seq<char>, i: int, sep: char) {
    if 0 <= i <= s.len() {
        lemma_sep_end_bounds(s, i, sep);
    }
}

/// The `sep`-separated fields of `s`.
pub open spec fn split_char(s: Seq<char>, sep: char) -> Seq<Seq<char>> {
    split_from(s, 0, sep)
}

/// Splits a string on every occurrence of `sep`, keeping empty fields.
pub fn split_on(s: &str, from: usize, sep: char) -> (r: Vec<String>)
    requires
        from <= s@.len(),
    ensures
        r.deep_view() == split_from(s@, from as int, sep),
    decreases s@.len() - from,
{
    let n = s.unicode_len();
    let mut j: usize = from;
    while j < n && s.get_char(j) != sep
        invariant
            n == s@.len(),
            from <= j <= n,
            sep_end(s@, from as int, sep) == sep_end(s@, j as int, sep),
        decreases n - j,
    {
        j = j + 1;
    }
    proof {
        assert(sep_end(s@, j as int, sep) == j);
    }
    let field = s.substring_char(from, j).to_owned();
    if j < n {
        proof {
            lemma_sep_end_bounds(s@, from as int, sep);
        }
        let mut rest = split_on(s, j + 1, sep);
        rest.insert(0, field);
        proof {
            assert(rest.deep_view() =~= seq![s@.subrange(from as int, j as int)] + split_from(
                s@,
                j + 1,
                sep,
            ));
        }
        rest
    } else {
        let mut out: Vec<String> = Vec::new();
        out.push(field);
        proof {
            assert(out.deep_view() =~= seq![s@.subrange(from as int, s@.len() as int)]);
        }
        out
    }
}

/// How many whitespace characters lead `s`.
pub open spec fn lead_ws(s: Seq<char>) -> int
    decreases s.len(),
{
    if s.len() > 0 && is_space_char(s[0]) {
        1 + lead_ws(s.drop_first())
    } else {
        0
    }
}

/// How many whitespace characters end `s`.
pub open spec fn tail_ws(s: Seq<char>) -> int
    decreases s.len(),
{
    if s.len() > 0 && is_space_char(s.last()) {
        1 + tail_ws(s.drop_last())
    } else {
        0
    }
}

pub proof fn lemma_lead_ws_char(s: Seq<char>)
    ensures
        0 <= lead_ws(s) <= s.len(),
        forall|j: int| 0 <= j < lead_ws(s) ==> is_space_char(#[trigger] s[j]),
        lead_ws(s) == s.len() || !is_space_char(s[lead_ws(s)]),
    decreases s.len(),
{
    if s.len() > 0 && is_space_char(s[0]) {
        lemma_lead_ws_char(s.drop_first());
        assert forall|j: int| 0 <= j < lead_ws(s) implies is_space_char(#[trigger] s[j]) by {
            if j > 0 {
                assert(s.drop_first()[j - 1] == s[j]);
            }
        }
        if lead_ws(s) < s.len() {
            assert(s.drop_first()[lead_ws(s) - 1] == s[lead_ws(s)]);
        }
    }
}

pub proof fn lemma_tail_ws_char(s: Seq<char>)
    ensures
        0 <= tail_ws(s) <= s.len(),
        forall|j: int| s.len() - tail_ws(s) <= j < s.len() ==> is_space_char(#[trigger] s[j]),
        tail_ws(s) == s.len() || !is_space_char(s[s.len() - tail_ws(s) - 1]),
    decreases s.len(),
{
    if s.len() > 0 && is_space_char(s.last()) {
        lemma_tail_ws_char(s.drop_last());
        assert forall|j: int| s.len() - tail_ws(s) <= j < s.len() implies is_space_char(
            #[trigger] s[j],
        ) by {
            if j < s.len() - 1 {
                assert(s.drop_last()[j] == s[j]);
            }
        }
        if tail_ws(s) < s.len() {
            assert(s.drop_last()[s.len() - tail_ws(s) - 1] == s[s.len() - tail_ws(s) - 1]);
        }
    }
}

/// `s` without its leading and trailing whitespace.
pub open spec fn trim_spec(s: Seq<char>) -> Seq<char> {
    if lead_ws(s) == s.len() {
        Seq::empty()
    } else {
        s.subrange(lead_ws(s), s.len() - tail_ws(s))
    }
}

/// `s` without its trailing whitespace.
pub open spec fn trim_end_spec(s: Seq<char>) -> Seq<char> {
    s.take(s.len() - tail_ws(s))
}

/// The position `delete_word` moves the cursor to: from `p`, backwards
/// over whitespace, then backwards over one word.
pub open spec fn skip_ws_back(s: Seq<char>, p: int) -> int
    decreases p when 0 <= p <= s.len()
{
    if p > 0 && is_space_char(s[p - 1]) {
        skip_ws_back(s, p - 1)
    } else {
        p
    }
}

pub open spec fn skip_word_back(s: Seq<char>, p: int) -> int
    decreases p when 0 <= p <= s.len()
{
    if p > 0 && !is_space_char(s[p - 1]) {
        skip_word_back(s, p - 1)
    } else {
        p
    }
}

proof fn lemma_skip_back_bounds(s: Seq<char>, p: int)
    requires
        0 <= p <= s.len(),
    ensures
        0 <= skip_ws_back(s, p) <= p,
        0 <= skip_word_back(s, p) <= p,
    decreases p,
{
    if p > 0 {
        lemma_skip_back_bounds(s, p - 1);
    }
}

/// Deletes the word (and the whitespace after it) that ends at the
/// cursor, then trims trailing whitespace, as the editing key does.
/// `None` when the text is empty or the cursor at its start.
pub fn delete_word(text: &str, cursor_pos: usize) -> (r: Option<(String, usize)>)
    requires
        cursor_pos <= text@.len(),
    ensures
        r is Some <==> (text@.len() > 0 && cursor_pos > 0),
        r matches Some(tp) ==> {
            let np = skip_word_back(text@, skip_ws_back(text@, cursor_pos as int));
            let kept = text@.take(np) + text@.skip(cursor_pos as int);
            let trimmed = trim_end_spec(kept);
            &&& tp.0@ == trimmed
            &&& tp.1 == (if np <= trimmed.len() {
                np
            } else {
                trimmed.len() as int
            })
        },
{
    let n = text.unicode_len();
    if n == 0 || cursor_pos == 0 {
        return None;
    }
    let ghost s = text@;
    let mut np: usize = cursor_pos;
    while np > 0 && is_space(text.get_char(np - 1))
        invariant
            s == text@,
            np <= s.len(),
            skip_ws_back(s, cursor_pos as int) == skip_ws_back(s, np as int),
        decreases np,
    {
        np = np - 1;
    }
    proof {
        assert(skip_ws_back(s, np as int) == np);
    }
    while np > 0 && !is_space(text.get_char(np - 1))
        invariant
            s == text@,
            np <= s.len(),
            skip_word_back(s, skip_ws_back(s, cursor_pos as int)) == skip_word_back(s, np as int),
        decreases np,
    {
        np = np - 1;
    }
    proof {
        assert(skip_word_back(s, np as int) == np);
    }
    let kept = String::from_str(text.substring_char(0, np)).concat(
        text.substring_char(cursor_pos, n),
    );
    let ghost ks = s.take(np as int) + s.skip(cursor_pos as int);
    proof {
        assert(kept@ =~= ks);
        lemma_tail_ws_char(ks);
    }
    let kn = kept.unicode_len();
    proof {
        assert(ks.take(kn as int) =~= ks);
    }
    let mut end: usize = kn;
    while end > 0 && is_space(kept.as_str().get_char(end - 1))
        invariant
            kn == kept@.len(),
            kept@ == ks,
            end <= kn,
            tail_ws(ks) == tail_ws(ks.take(end as int)) + (kn - end),
        decreases end,
    {
        proof {
            assert(ks.take(end as int).last() == ks[end - 1]);
            assert(ks.take(end as int).drop_last() =~= ks.take(end - 1));
        }
        end = end - 1;
    }
    proof {
        assert(tail_ws(ks.take(end as int)) == 0) by {
            if end > 0 {
                assert(ks.take(end as int).last() == ks[end - 1]);
            }
        }
        assert(end == kn - tail_ws(ks));
        assert(ks.take(end as int) == trim_end_spec(ks));
    }
    let trimmed = String::from_str(kept.as_str().substring_char(0, end));
    let new_pos = if np <= end {
        np
    } else {
        end
    };
    Some((trimmed, new_pos))
}


/// A signed count in decimal.
pub open spec fn dec_i32(v: int) -> Seq<char> {
    if v < 0 {
        seq!['-'] + dec_of((-v) as nat)
    } else {
        dec_of(v as nat)
    }
}

/// Appends a signed count in decimal.
pub fn push_dec_i32(out: &mut String, v: i32)
    ensures
        final(out)@ == old(out)@ + dec_i32(v as int),
{
    if v < 0 {
        crate::bindings::push_char(out, '-');
        let m: u32 = (-(v as i64)) as u32;
        push_dec(out, m);
        proof {
            assert(final(out)@ =~= old(out)@ + dec_i32(v as int));
        }
    } else {
        push_dec(out, v as u32);
    }
}

} // verus!
