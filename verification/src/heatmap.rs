//! The heatmap: launch counts keyed by entry name, persisted by the caller
//! as a small text file. The store itself is a list of pairs with unique
//! keys; this module holds the mapping operations, and the codec between a
//! heatmap and its on-disk text.

use crate::text::{dec_digit, dec_of, digit_char, push_dec};
use vstd::prelude::*;

verus! {

/// Launch counts by entry name. Keys are unique (see [`Heatmap::wf`]).
#[derive(Clone, Debug)]
pub struct Heatmap {
    pub pairs: Vec<(String, u32)>,
}

/// The count stored for `key` in a pair list: the first (with a
/// well-formed heatmap, the only) pair bearing it.
pub open spec fn heat_count(s: Seq<(String, u32)>, key: Seq<char>) -> Option<u32>
    decreases s.len(),
{
    if s.len() == 0 {
        None
    } else if s[0].0@ == key {
        Some(s[0].1)
    } else {
        heat_count(s.drop_first(), key)
    }
}

impl Heatmap {
    pub open spec fn view_seq(&self) -> Seq<(String, u32)> {
        self.pairs@
    }

    /// Keys are unique.
    pub open spec fn wf(&self) -> bool {
        forall|i: int, j: int|
            0 <= i < j < self.pairs@.len() ==> (#[trigger] self.pairs@[i]).0@ != (
            #[trigger] self.pairs@[j]).0@
    }

    /// The empty heatmap, also what any unreadable or malformed file
    /// stands for.
    pub fn new() -> (r: Heatmap)
        ensures
            r.wf(),
            r.view_seq().len() == 0,
    {
        Heatmap { pairs: Vec::new() }
    }

    /// The count recorded for `name`, if any.
    pub fn get(&self, name: &str) -> (r: Option<u32>)
        ensures
            r == heat_count(self.view_seq(), name@),
    {
        let n = self.pairs.len();
        proof {
            assert(self.pairs@.skip(0) =~= self.pairs@);
        }
        let mut i: usize = 0;
        while i < n
            invariant
                n == self.pairs@.len(),
                i <= n,
                heat_count(self.pairs@, name@) == heat_count(self.pairs@.skip(i as int), name@),
            decreases n - i,
        {
            proof {
                assert(self.pairs@.skip(i as int)[0] == self.pairs@[i as int]);
                assert(self.pairs@.skip(i as int).drop_first() =~= self.pairs@.skip(i + 1));
            }
            if crate::text::str_eq(self.pairs[i].0.as_str(), name) {
                return Some(self.pairs[i].1);
            }
            i = i + 1;
        }
        proof {
            assert(self.pairs@.skip(n as int) =~= Seq::<(String, u32)>::empty());
        }
        None
    }

    /// Records `count` for `name`, replacing any earlier pair with that
    /// name (the read-modify-write step of a save).
    pub fn set(&mut self, name: String, count: u32)
        requires
            old(self).wf(),
        ensures
            final(self).wf(),
            heat_count(final(self).view_seq(), name@) == Some(count),
            // every other name keeps its count
            forall|k: Seq<char>|
                k != name@ ==> #[trigger] heat_count(final(self).view_seq(), k) == heat_count(
                    old(self).view_seq(),
                    k,
                ),
    {
        let n = self.pairs.len();
        let mut i: usize = 0;
        while i < n
            invariant
                old(self).wf(),
                n == self.pairs@.len(),
                i <= n,
                self.pairs@ == old(self).pairs@,
                forall|k: int| 0 <= k < i ==> (#[trigger] self.pairs@[k]).0@ != name@,
            decreases n - i,
        {
            if crate::text::str_eq(self.pairs[i].0.as_str(), name.as_str()) {
                let ghost pair: (String, u32) = (name, count);
                let _ = self.pairs.remove(i);
                self.pairs.insert(i, (name, count));
                proof {
                    assert(self.pairs@ =~= old(self).pairs@.update(i as int, pair));
                    lemma_heat_count_update(old(self).pairs@, i as int, pair);
                    assert forall|a: int|
                        0 <= a < self.pairs@.len() && a != i implies (#[trigger] self.pairs@[a]).0@
                        != name@ by {
                        assert(self.pairs@[a] == old(self).pairs@[a]);
                        if a > i {
                            assert(old(self).pairs@[i as int].0@ != old(self).pairs@[a].0@);
                        }
                    }
                }
                return ;
            }
            i = i + 1;
        }
        self.pairs.push((name, count));
        proof {
            lemma_heat_count_push(old(self).pairs@, (name, count));
        }
    }
}

// ---------------------------------------------------------------------
// The on-disk text: one object mapping each name to its count, written
// as `{"name":count,...}` with `"` and `\` escaped in names. The parser
// below accepts exactly this canonical form; anything else stands for
// the empty heatmap, as any unreadable file does.
// ---------------------------------------------------------------------

/// A heatmap's pairs with the keys as plain character sequences.
pub open spec fn pairs_view(v: Seq<(String, u32)>) -> Seq<(Seq<char>, u32)> {
    v.map_values(|p: (String, u32)| (p.0@, p.1))
}

/// A key character as written: `"` and `\` behind a backslash, all else
/// as itself.
pub open spec fn esc_char(c: char) -> Seq<char> {
    if c == '"' || c == '\\' {
        seq!['\\', c]
    } else {
        seq![c]
    }
}

/// A key as written.
pub open spec fn esc(s: Seq<char>) -> Seq<char>
    decreases s.len(),
{
    if s.len() == 0 {
        Seq::empty()
    } else {
        esc_char(s[0]) + esc(s.drop_first())
    }
}

/// One pair as written: the quoted, escaped name, a colon, the count.
pub open spec fn ser_pair(p: (Seq<char>, u32)) -> Seq<char> {
    seq!['"'] + esc(p.0) + seq!['"', ':'] + dec_of(p.1 as nat)
}

/// The pairs as written: comma-separated.
pub open spec fn ser_body(ps: Seq<(Seq<char>, u32)>) -> Seq<char>
    decreases ps.len(),
{
    if ps.len() == 0 {
        Seq::empty()
    } else if ps.len() == 1 {
        ser_pair(ps[0])
    } else {
        ser_pair(ps[0]) + seq![','] + ser_body(ps.drop_first())
    }
}

/// The whole file: the pairs between braces.
pub open spec fn ser_map(ps: Seq<(Seq<char>, u32)>) -> Seq<char> {
    seq!['{'] + ser_body(ps) + seq!['}']
}

pub open spec fn digit_val(c: char) -> int {
    match c {
        '0' => 0,
        '1' => 1,
        '2' => 2,
        '3' => 3,
        '4' => 4,
        '5' => 5,
        '6' => 6,
        '7' => 7,
        '8' => 8,
        '9' => 9,
        _ => 10,
    }
}

pub open spec fn is_digit(c: char) -> bool {
    digit_val(c) < 10
}

/// A name read back up to its closing quote: the characters before it,
/// with the two escapes honoured, and the text after it.
pub open spec fn parse_str(s: Seq<char>) -> Option<(Seq<char>, Seq<char>)>
    decreases s.len(),
{
    if s.len() == 0 {
        None
    } else if s[0] == '"' {
        Some((Seq::empty(), s.drop_first()))
    } else if s[0] == '\\' {
        if s.len() >= 2 && (s[1] == '"' || s[1] == '\\') {
            match parse_str(s.skip(2)) {
                Some((k, rest)) => Some((seq![s[1]] + k, rest)),
                None => None,
            }
        } else {
            None
        }
    } else {
        match parse_str(s.drop_first()) {
            Some((k, rest)) => Some((seq![s[0]] + k, rest)),
            None => None,
        }
    }
}

/// How many digits stand at the front of `s`.
pub open spec fn dig_prefix(s: Seq<char>) -> int
    decreases s.len(),
{
    if s.len() > 0 && is_digit(s[0]) {
        1 + dig_prefix(s.drop_first())
    } else {
        0
    }
}

/// The value of a digit run.
pub open spec fn num_val(s: Seq<char>) -> int
    decreases s.len(),
{
    if s.len() == 0 {
        0
    } else {
        num_val(s.drop_last()) * 10 + digit_val(s.last())
    }
}

/// A count read back: the value of the digit run at the front, and the
/// text after it; nothing where no digit stands.
pub open spec fn parse_num(s: Seq<char>) -> Option<(int, Seq<char>)> {
    if dig_prefix(s) == 0 {
        None
    } else {
        Some((num_val(s.take(dig_prefix(s))), s.skip(dig_prefix(s))))
    }
}

pub proof fn lemma_parse_str_shrinks(s: Seq<char>)
    ensures
        parse_str(s) matches Some(kr) ==> kr.1.len() < s.len(),
    decreases s.len(),
{
    if s.len() > 0 && s[0] != '"' {
        if s[0] == '\\' {
            if s.len() >= 2 && (s[1] == '"' || s[1] == '\\') {
                lemma_parse_str_shrinks(s.skip(2));
            }
        } else {
            lemma_parse_str_shrinks(s.drop_first());
        }
    }
}

pub proof fn lemma_dig_prefix_bound(s: Seq<char>)
    ensures
        0 <= dig_prefix(s) <= s.len(),
    decreases s.len(),
{
    if s.len() > 0 && is_digit(s[0]) {
        lemma_dig_prefix_bound(s.drop_first());
    }
}

/// The pair list read back: quoted name, colon, count, then either a
/// comma and more pairs, or the closing brace ending the text.
pub open spec fn parse_pairs(s: Seq<char>) -> Option<Seq<(Seq<char>, u32)>>
    decreases s.len() via parse_pairs_decreases
{
    if s.len() == 0 || s[0] != '"' {
        None
    } else {
        match parse_str(s.drop_first()) {
            None => None,
            Some((k, r1)) => {
                if r1.len() == 0 || r1[0] != ':' {
                    None
                } else {
                    match parse_num(r1.drop_first()) {
                        None => None,
                        Some((v, r2)) => {
                            if v > u32::MAX {
                                None
                            } else if r2.len() > 0 && r2[0] == ',' {
                                match parse_pairs(r2.drop_first()) {
                                    Some(ps) => Some(seq![(k, v as u32)] + ps),
                                    None => None,
                                }
                            } else if r2.len() == 1 && r2[0] == '}' {
                                Some(seq![(k, v as u32)])
                            } else {
                                None
                            }
                        },
                    }
                }
            },
        }
    }
}

#[via_fn]
proof fn parse_pairs_decreases(s: Seq<char>) {
    if s.len() > 0 && s[0] == '"' {
        lemma_parse_str_shrinks(s.drop_first());
        match parse_str(s.drop_first()) {
            Some((k, r1)) => {
                if r1.len() > 0 && r1[0] == ':' {
                    lemma_dig_prefix_bound(r1.drop_first());
                }
            },
            None => {},
        }
    }
}

/// The whole file read back: `{}` is the empty heatmap; otherwise the
/// pairs between the braces, in order; anything else is no heatmap.
pub open spec fn parse_map(s: Seq<char>) -> Option<Seq<(Seq<char>, u32)>> {
    if s.len() == 2 && s[0] == '{' && s[1] == '}' {
        Some(Seq::empty())
    } else if s.len() > 0 && s[0] == '{' {
        parse_pairs(s.drop_first())
    } else {
        None
    }
}

/// The count the last pair bearing `key` gives, if any: what reading the
/// pairs into a store in order leaves for `key`.
pub open spec fn alist_count_last(ps: Seq<(Seq<char>, u32)>, key: Seq<char>) -> Option<u32>
    decreases ps.len(),
{
    if ps.len() == 0 {
        None
    } else if ps.last().0 == key {
        Some(ps.last().1)
    } else {
        alist_count_last(ps.drop_last(), key)
    }
}

// ---------------------------------------------------------------------
// Reading back what was written yields the same pairs.
// ---------------------------------------------------------------------

/// A written name reads back exactly, leaving the text after its closing
/// quote untouched.
proof fn lemma_parse_str_esc(k: Seq<char>, rest: Seq<char>)
    ensures
        parse_str(esc(k) + seq!['"'] + rest) == Some((k, rest)),
    decreases k.len(),
{
    let s = esc(k) + seq!['"'] + rest;
    if k.len() == 0 {
        assert(esc(k) =~= Seq::<char>::empty());
        assert(s[0] == '"');
        assert(s.drop_first() =~= rest);
    } else {
        let c = k[0];
        lemma_parse_str_esc(k.drop_first(), rest);
        if c == '"' || c == '\\' {
            assert(esc(k) =~= seq!['\\', c] + esc(k.drop_first()));
            assert(s[0] == '\\');
            assert(s[1] == c);
            assert(s.skip(2) =~= esc(k.drop_first()) + seq!['"'] + rest);
            assert(seq![s[1]] + k.drop_first() =~= k);
        } else {
            assert(esc(k) =~= seq![c] + esc(k.drop_first()));
            assert(s[0] == c);
            assert(s.drop_first() =~= esc(k.drop_first()) + seq!['"'] + rest);
            assert(seq![s[0]] + k.drop_first() =~= k);
        }
    }
}

/// Every character a count is written with is a digit.
proof fn lemma_dec_of_digits(n: nat)
    ensures
        dec_of(n).len() > 0,
        forall|i: int| 0 <= i < dec_of(n).len() ==> is_digit(#[trigger] dec_of(n)[i]),
    decreases n,
{
    if n < 10 {
        assert(is_digit(dec_digit(n as int)));
    } else {
        lemma_dec_of_digits(n / 10);
        assert(is_digit(dec_digit((n % 10) as int)));
        assert forall|i: int| 0 <= i < dec_of(n).len() implies is_digit(
            #[trigger] dec_of(n)[i],
        ) by {
            if i < dec_of(n / 10).len() {
                assert(dec_of(n)[i] == dec_of(n / 10)[i]);
            }
        }
    }
}

/// The digit run of a written count followed by a non-digit is exactly the
/// written count.
proof fn lemma_dig_prefix_concat(a: Seq<char>, rest: Seq<char>)
    requires
        forall|i: int| 0 <= i < a.len() ==> is_digit(#[trigger] a[i]),
        rest.len() == 0 || !is_digit(rest[0]),
    ensures
        dig_prefix(a + rest) == a.len(),
    decreases a.len(),
{
    if a.len() == 0 {
        assert(a + rest =~= rest);
    } else {
        assert forall|i: int| 0 <= i < a.drop_first().len() implies is_digit(
            #[trigger] a.drop_first()[i],
        ) by {
            assert(a.drop_first()[i] == a[i + 1]);
        }
        lemma_dig_prefix_concat(a.drop_first(), rest);
        assert((a + rest)[0] == a[0]);
        assert((a + rest).drop_first() =~= a.drop_first() + rest);
    }
}

/// A written count reads back to its value.
proof fn lemma_num_val_dec_of(n: nat)
    ensures
        num_val(dec_of(n)) == n,
    decreases n,
{
    if n < 10 {
        assert(dec_of(n) =~= seq![dec_digit(n as int)]);
        assert(dec_of(n).drop_last() =~= Seq::<char>::empty());
        assert(num_val(dec_of(n).drop_last()) == 0);
        assert(dec_of(n).last() == dec_digit(n as int));
        assert(num_val(dec_of(n)) == digit_val(dec_digit(n as int)));
    } else {
        lemma_num_val_dec_of(n / 10);
        assert(dec_of(n).drop_last() =~= dec_of(n / 10));
        assert(dec_of(n).last() == dec_digit((n % 10) as int));
        assert(digit_val(dec_digit((n % 10) as int)) == n % 10);
        assert(num_val(dec_of(n)) == (n / 10) * 10 + n % 10);
        assert((n / 10) * 10 + n % 10 == n) by {
            vstd::arithmetic::div_mod::lemma_fundamental_div_mod(n as int, 10);
        }
    }
}

/// A written count followed by a non-digit parses back to its value,
/// leaving the rest untouched.
proof fn lemma_parse_num_dec_of(n: nat, rest: Seq<char>)
    requires
        rest.len() == 0 || !is_digit(rest[0]),
    ensures
        parse_num(dec_of(n) + rest) == Some((n as int, rest)),
{
    let s = dec_of(n) + rest;
    lemma_dec_of_digits(n);
    lemma_dig_prefix_concat(dec_of(n), rest);
    assert(dig_prefix(s) == dec_of(n).len());
    assert(s.take(dec_of(n).len() as int) =~= dec_of(n));
    assert(s.skip(dec_of(n).len() as int) =~= rest);
    lemma_num_val_dec_of(n);
}

/// Written pairs read back exactly, closing brace and all.
proof fn lemma_parse_pairs_ser(ps: Seq<(Seq<char>, u32)>)
    requires
        ps.len() > 0,
    ensures
        parse_pairs(ser_body(ps) + seq!['}']) == Some(ps),
    decreases ps.len(),
{
    let s = ser_body(ps) + seq!['}'];
    let k = ps[0].0;
    let v = ps[0].1;
    if ps.len() == 1 {
        assert(ser_body(ps) == ser_pair(ps[0]));
        assert(s =~= seq!['"'] + (esc(k) + seq!['"'] + (seq![':'] + dec_of(v as nat)
            + seq!['}'])));
        assert(s[0] == '"');
        assert(s.drop_first() =~= esc(k) + seq!['"'] + (seq![':'] + dec_of(v as nat)
            + seq!['}']));
        lemma_parse_str_esc(k, seq![':'] + dec_of(v as nat) + seq!['}']);
        let r1 = seq![':'] + dec_of(v as nat) + seq!['}'];
        assert(r1[0] == ':');
        assert(r1.drop_first() =~= dec_of(v as nat) + seq!['}']);
        lemma_parse_num_dec_of(v as nat, seq!['}']);
        let r2 = seq!['}'];
        assert(r2.len() == 1 && r2[0] == '}');
        assert(parse_pairs(s) == Some(seq![(k, v)]));
        assert(seq![(k, v)] =~= ps);
    } else {
        lemma_parse_pairs_ser(ps.drop_first());
        assert(ser_body(ps) == ser_pair(ps[0]) + seq![','] + ser_body(ps.drop_first()));
        let tail = seq![','] + ser_body(ps.drop_first()) + seq!['}'];
        assert(s =~= seq!['"'] + (esc(k) + seq!['"'] + (seq![':'] + dec_of(v as nat) + tail)));
        assert(s[0] == '"');
        assert(s.drop_first() =~= esc(k) + seq!['"'] + (seq![':'] + dec_of(v as nat) + tail));
        lemma_parse_str_esc(k, seq![':'] + dec_of(v as nat) + tail);
        let r1 = seq![':'] + dec_of(v as nat) + tail;
        assert(r1[0] == ':');
        assert(r1.drop_first() =~= dec_of(v as nat) + tail);
        assert(tail[0] == ',');
        lemma_parse_num_dec_of(v as nat, tail);
        let r2 = tail;
        assert(r2.len() > 0 && r2[0] == ',');
        assert(r2.drop_first() =~= ser_body(ps.drop_first()) + seq!['}']);
        assert(parse_pairs(s) == Some(seq![(k, v)] + ps.drop_first()));
        assert(seq![(k, v)] + ps.drop_first() =~= ps);
    }
}

/// Reading back a written heatmap yields exactly its pairs: the law behind
/// save-then-load.
pub proof fn lemma_heatmap_round_trip(ps: Seq<(Seq<char>, u32)>)
    ensures
        parse_map(ser_map(ps)) == Some(ps),
{
    let s = ser_map(ps);
    if ps.len() == 0 {
        assert(ser_body(ps) =~= Seq::<char>::empty());
        assert(s =~= seq!['{', '}']);
        assert(Seq::<(Seq<char>, u32)>::empty() =~= ps);
    } else {
        lemma_parse_pairs_ser(ps);
        assert(s[0] == '{');
        assert(s.drop_first() =~= ser_body(ps) + seq!['}']);
        assert(ser_body(ps).len() > 0) by {
            if ps.len() == 1 {
                assert(ser_body(ps) == ser_pair(ps[0]));
            }
        }
        assert(s.len() > 2) by {
            assert(ser_body(ps).len() > 0);
        }
    }
}

// ---------------------------------------------------------------------
// The writer.
// ---------------------------------------------------------------------

/// Escaping one more character appends its escape.
proof fn lemma_esc_push(s: Seq<char>, c: char)
    ensures
        esc(s.push(c)) == esc(s) + esc_char(c),
    decreases s.len(),
{
    if s.len() == 0 {
        assert(s.push(c)[0] == c);
        assert(s.push(c).drop_first() =~= Seq::<char>::empty());
        assert(esc(Seq::<char>::empty()) =~= Seq::<char>::empty());
        assert(esc(s.push(c)) =~= esc(s) + esc_char(c));
    } else {
        assert(s.push(c)[0] == s[0]);
        assert(s.push(c).drop_first() =~= s.drop_first().push(c));
        lemma_esc_push(s.drop_first(), c);
        assert(esc(s.push(c)) =~= esc(s) + esc_char(c));
    }
}

/// One more pair in the body follows a comma (unless it is the first).
proof fn lemma_ser_body_push(ps: Seq<(Seq<char>, u32)>, p: (Seq<char>, u32))
    ensures
        ps.len() == 0 ==> ser_body(ps.push(p)) == ser_pair(p),
        ps.len() > 0 ==> ser_body(ps.push(p)) == ser_body(ps) + seq![','] + ser_pair(p),
    decreases ps.len(),
{
    if ps.len() == 0 {
        assert(ps.push(p)[0] == p);
    } else {
        assert(ps.push(p)[0] == ps[0]);
        assert(ps.push(p).drop_first() =~= ps.drop_first().push(p));
        lemma_ser_body_push(ps.drop_first(), p);
        if ps.len() == 1 {
            assert(ser_body(ps.push(p)) =~= ser_body(ps) + seq![','] + ser_pair(p));
        } else {
            assert(ser_body(ps.push(p)) =~= ser_body(ps) + seq![','] + ser_pair(p));
        }
    }
}

/// Appends a name with its two escapes.
fn push_escaped(out: &mut String, k: &str)
    ensures
        final(out)@ == old(out)@ + esc(k@),
{
    let n = k.unicode_len();
    proof {
        assert(esc(k@.take(0)) =~= Seq::<char>::empty());
        assert(old(out)@ + esc(k@.take(0)) =~= old(out)@);
    }
    let mut i: usize = 0;
    while i < n
        invariant
            n == k@.len(),
            i <= n,
            out@ == old(out)@ + esc(k@.take(i as int)),
        decreases n - i,
    {
        let c = k.get_char(i);
        if c == '"' || c == '\\' {
            crate::bindings::push_char(out, '\\');
            crate::bindings::push_char(out, c);
        } else {
            crate::bindings::push_char(out, c);
        }
        proof {
            assert(k@.take(i + 1) =~= k@.take(i as int).push(k@[i as int]));
            lemma_esc_push(k@.take(i as int), k@[i as int]);
            assert(out@ =~= old(out)@ + esc(k@.take(i + 1)));
        }
        i = i + 1;
    }
    proof {
        assert(k@.take(n as int) =~= k@);
    }
}

impl Heatmap {
    /// The heatmap as its on-disk text.
    pub fn to_text(&self) -> (r: String)
        ensures
            r@ == ser_map(pairs_view(self.view_seq())),
    {
        let ghost pv = pairs_view(self.pairs@);
        let mut out = String::new();
        crate::bindings::push_char(&mut out, '{');
        proof {
            assert(pv.take(0) =~= Seq::<(Seq<char>, u32)>::empty());
            assert(out@ =~= seq!['{'] + ser_body(pv.take(0)));
        }
        let n = self.pairs.len();
        let mut i: usize = 0;
        while i < n
            invariant
                n == self.pairs@.len(),
                pv == pairs_view(self.pairs@),
                pv.len() == n,
                i <= n,
                out@ == seq!['{'] + ser_body(pv.take(i as int)),
            decreases n - i,
        {
            if i > 0 {
                crate::bindings::push_char(&mut out, ',');
            }
            crate::bindings::push_char(&mut out, '"');
            push_escaped(&mut out, self.pairs[i].0.as_str());
            crate::bindings::push_char(&mut out, '"');
            crate::bindings::push_char(&mut out, ':');
            push_dec(&mut out, self.pairs[i].1);
            proof {
                assert(pv[i as int] == (self.pairs@[i as int].0@, self.pairs@[i as int].1));
                assert(pv.take(i + 1) =~= pv.take(i as int).push(pv[i as int]));
                lemma_ser_body_push(pv.take(i as int), pv[i as int]);
                assert(ser_pair(pv[i as int]) =~= seq!['"'] + esc(self.pairs@[i as int].0@) + seq![
                    '"',
                    ':',
                ] + dec_of(self.pairs@[i as int].1 as nat));
                assert(out@ =~= seq!['{'] + ser_body(pv.take(i + 1)));
            }
            i = i + 1;
        }
        crate::bindings::push_char(&mut out, '}');
        proof {
            assert(pv.take(n as int) =~= pv);
            assert(out@ =~= ser_map(pv));
        }
        out
    }
}

// ---------------------------------------------------------------------
// The reader.
// ---------------------------------------------------------------------

fn is_digit_exec(c: char) -> (r: bool)
    ensures
        r == is_digit(c),
{
    match c {
        '0' | '1' | '2' | '3' | '4' | '5' | '6' | '7' | '8' | '9' => true,
        _ => false,
    }
}

fn digit_val_exec(c: char) -> (r: u32)
    requires
        is_digit(c),
    ensures
        r == digit_val(c),
{
    match c {
        '0' => 0,
        '1' => 1,
        '2' => 2,
        '3' => 3,
        '4' => 4,
        '5' => 5,
        '6' => 6,
        '7' => 7,
        '8' => 8,
        _ => 9,
    }
}

/// Reads a name from position `i` (just past its opening quote).
fn scan_str(s: &str, i: usize) -> (r: Option<(String, usize)>)
    requires
        i <= s@.len(),
    ensures
        r is Some <==> parse_str(s@.skip(i as int)) is Some,
        r matches Some(kj) ==> (parse_str(s@.skip(i as int)) matches Some(kr) && kr.0 == kj.0@
            && kr.1 == s@.skip(kj.1 as int) && i < kj.1 <= s@.len()),
    decreases s@.len() - i,
{
    let n = s.unicode_len();
    if i >= n {
        return None;
    }
    let c = s.get_char(i);
    proof {
        assert(s@.skip(i as int)[0] == s@[i as int]);
    }
    if c == '"' {
        proof {
            assert(s@.skip(i as int).drop_first() =~= s@.skip(i + 1));
        }
        return Some((String::new(), i + 1));
    }
    if c == '\\' {
        if i + 1 < n {
            let c2 = s.get_char(i + 1);
            if c2 == '"' || c2 == '\\' {
                proof {
                    assert(s@.skip(i as int)[1] == s@[i + 1]);
                    assert(s@.skip(i as int).skip(2) =~= s@.skip(i + 2));
                }
                match scan_str(s, i + 2) {
                    Some((k, j)) => {
                        let mut t = String::new();
                        crate::bindings::push_char(&mut t, c2);
                        let t2 = t.concat(k.as_str());
                        proof {
                            assert(t2@ =~= seq![s@[i + 1]] + k@);
                        }
                        return Some((t2, j));
                    },
                    None => {
                        return None;
                    },
                }
            }
            proof {
                assert(s@.skip(i as int)[1] == s@[i + 1]);
            }
            return None;
        }
        proof {
            assert(s@.skip(i as int).len() < 2);
        }
        return None;
    }
    proof {
        assert(s@.skip(i as int).drop_first() =~= s@.skip(i + 1));
    }
    match scan_str(s, i + 1) {
        Some((k, j)) => {
            let mut t = String::new();
            crate::bindings::push_char(&mut t, c);
            let t2 = t.concat(k.as_str());
            proof {
                assert(t2@ =~= seq![s@[i as int]] + k@);
            }
            Some((t2, j))
        },
        None => None,
    }
}

/// Digit runs only grow in value as they grow in length.
proof fn lemma_num_val_nonneg(s: Seq<char>)
    ensures
        num_val(s) >= 0,
    decreases s.len(),
{
    if s.len() > 0 {
        lemma_num_val_nonneg(s.drop_last());
    }
}

/// Which positions the digit prefix covers.
proof fn lemma_dig_prefix_char(s: Seq<char>)
    ensures
        0 <= dig_prefix(s) <= s.len(),
        forall|j: int| 0 <= j < dig_prefix(s) ==> is_digit(#[trigger] s[j]),
        dig_prefix(s) == s.len() || !is_digit(s[dig_prefix(s)]),
    decreases s.len(),
{
    if s.len() > 0 && is_digit(s[0]) {
        lemma_dig_prefix_char(s.drop_first());
        assert forall|j: int| 0 <= j < dig_prefix(s) implies is_digit(#[trigger] s[j]) by {
            if j > 0 {
                assert(s.drop_first()[j - 1] == s[j]);
            }
        }
        if dig_prefix(s) < s.len() {
            assert(s.drop_first()[dig_prefix(s) - 1] == s[dig_prefix(s)]);
        }
    }
}

/// A longer digit run never has a smaller value.
proof fn lemma_num_val_mono(s: Seq<char>, a: int, b: int)
    requires
        0 <= a <= b <= s.len(),
    ensures
        num_val(s.take(a)) <= num_val(s.take(b)),
    decreases b - a,
{
    if a < b {
        lemma_num_val_mono(s, a, b - 1);
        assert(s.take(b).drop_last() =~= s.take(b - 1));
        lemma_num_val_nonneg(s.take(b - 1));
        assert(num_val(s.take(b)) == num_val(s.take(b - 1)) * 10 + digit_val(s.take(b).last()));
        assert(digit_val(s.take(b).last()) >= 0);
        assert(num_val(s.take(b - 1)) * 10 >= num_val(s.take(b - 1)));
    }
}

/// Reads a count from position `i`; `None` where none stands, or where
/// the run's value does not fit the count type.
fn scan_num(s: &str, i: usize) -> (r: Option<(u32, usize)>)
    requires
        i <= s@.len(),
    ensures
        parse_num(s@.skip(i as int)) is None ==> r is None,
        parse_num(s@.skip(i as int)) matches Some(vr) ==> {
            &&& (vr.0 > u32::MAX ==> r is None)
            &&& (vr.0 <= u32::MAX ==> (r matches Some(vj) && vj.0 == vr.0 && vr.1 == s@.skip(
                vj.1 as int,
            ) && i < vj.1 <= s@.len()))
        },
{
    let n = s.unicode_len();
    let ghost t = s@.skip(i as int);
    proof {
        lemma_dig_prefix_char(t);
    }
    if i >= n || !is_digit_exec(s.get_char(i)) {
        proof {
            if i < n {
                assert(t[0] == s@[i as int]);
            }
            assert(dig_prefix(t) == 0);
        }
        return None;
    }
    let ghost dp = dig_prefix(t);
    let ghost e = i + dp;
    let mut p: usize = i;
    let mut acc: u64 = 0;
    proof {
        assert(t.take(0) =~= Seq::<char>::empty());
    }
    while p < n && is_digit_exec(s.get_char(p))
        invariant
            n == s@.len(),
            t == s@.skip(i as int),
            dp == dig_prefix(t),
            e == i + dp,
            i <= p <= n,
            dp <= t.len(),
            t.len() == n - i,
            p - i <= dp,
            acc == num_val(t.take(p - i)),
            acc <= u32::MAX,
            forall|j: int| 0 <= j < dp ==> is_digit(#[trigger] t[j]),
            dp == t.len() || !is_digit(t[dp as int]),
            p - i < dp ==> is_digit(t[p - i]),
        decreases n - p,
    {
        let d = digit_val_exec(s.get_char(p));
        proof {
            assert(t[p - i] == s@[p as int]);
            assert(p - i < dp) by {
                if p - i == dp {
                    assert(!is_digit(t[dp as int]));
                }
            }
        }
        let next: u64 = acc * 10 + (d as u64);
        proof {
            assert(t.take(p - i + 1).drop_last() =~= t.take(p - i));
            assert(t.take(p - i + 1).last() == t[p - i]);
            assert(next == num_val(t.take(p - i + 1)));
        }
        if next > 0xffff_ffffu64 {
            proof {
                lemma_num_val_mono(t, p - i + 1, dp as int);
                assert(num_val(t.take(dp as int)) > u32::MAX);
            }
            return None;
        }
        acc = next;
        p = p + 1;
        proof {
            if p < n && p - i < dp {
                assert(is_digit(t[p - i]));
            }
            if p - i < dp {
                assert(is_digit(t[p - i]));
                assert(p < n) by {
                    assert(dp <= t.len());
                }
            }
        }
    }
    proof {
        assert(p - i == dp) by {
            if p - i < dp {
                assert(is_digit(t[p - i]));
                assert(t[p - i] == s@[p as int]);
            }
        }
        assert(t.take(dp as int) == t.take(p - i));
    }
    Some((acc as u32, p))
}

/// Reads the pair list from position `i` (just past the opening brace or
/// a comma) to the closing brace that ends the text.
fn scan_pairs(s: &str, i: usize) -> (r: Option<Vec<(String, u32)>>)
    requires
        i <= s@.len(),
    ensures
        r is Some <==> parse_pairs(s@.skip(i as int)) is Some,
        r matches Some(v) ==> parse_pairs(s@.skip(i as int)) == Some(pairs_view(v@)),
    decreases s@.len() - i,
{
    let ghost t = s@.skip(i as int);
    let n = s.unicode_len();
    if i >= n || s.get_char(i) != '"' {
        proof {
            if i < n {
                assert(t[0] == s@[i as int]);
            }
        }
        return None;
    }
    proof {
        assert(t[0] == s@[i as int]);
        assert(t.drop_first() =~= s@.skip(i + 1));
    }
    let (k, j1) = match scan_str(s, i + 1) {
        Some(kj) => kj,
        None => {
            return None;
        },
    };
    if j1 >= n || s.get_char(j1) != ':' {
        proof {
            let kr = parse_str(t.drop_first())->Some_0;
            if j1 < n {
                assert(kr.1[0] == s@[j1 as int]) by {
                    assert(kr.1 == s@.skip(j1 as int));
                }
            }
        }
        return None;
    }
    proof {
        let kr = parse_str(t.drop_first())->Some_0;
        assert(kr.1[0] == s@[j1 as int]) by {
            assert(kr.1 == s@.skip(j1 as int));
        }
        assert(kr.1.drop_first() =~= s@.skip(j1 + 1));
    }
    let (v, j2) = match scan_num(s, j1 + 1) {
        Some(vj) => vj,
        None => {
            return None;
        },
    };
    proof {
        lemma_num_val_nonneg(s@.skip(j1 + 1).take(dig_prefix(s@.skip(j1 + 1))));
    }
    if j2 < n && s.get_char(j2) == ',' {
        proof {
            assert(s@.skip(j2 as int)[0] == s@[j2 as int]);
            assert(s@.skip(j2 as int).drop_first() =~= s@.skip(j2 + 1));
        }
        match scan_pairs(s, j2 + 1) {
            Some(mut ps) => {
                ps.insert(0, (k, v));
                proof {
                    assert(pairs_view(ps@) =~= seq![(ps@[0].0@, ps@[0].1)] + pairs_view(
                        ps@.drop_first(),
                    ));
                }
                Some(ps)
            },
            None => None,
        }
    } else if j2 == n - 1 && s.get_char(j2) == '}' {
        proof {
            assert(s@.skip(j2 as int)[0] == s@[j2 as int]);
            assert(s@.skip(j2 as int).len() == 1);
        }
        let mut out: Vec<(String, u32)> = Vec::new();
        out.push((k, v));
        proof {
            assert(pairs_view(out@) =~= seq![(out@[0].0@, out@[0].1)]);
        }
        Some(out)
    } else {
        proof {
            if j2 < n {
                assert(s@.skip(j2 as int)[0] == s@[j2 as int]);
            }
            assert(s@.skip(j2 as int).len() == n - j2);
        }
        None
    }
}

/// Reads a heatmap back from its on-disk text. Any text that is not a
/// well-formed heatmap — an unreadable file is handed here as the empty
/// string — stands for the empty heatmap: the store is best-effort and
/// never fails.
pub fn heatmap_from_text(s: &str) -> (r: Heatmap)
    ensures
        r.wf(),
        parse_map(s@) is None ==> r.view_seq().len() == 0,
        parse_map(s@) matches Some(ps) ==> forall|k: Seq<char>|
            #[trigger] heat_count(r.view_seq(), k) == alist_count_last(ps, k),
{
    let n = s.unicode_len();
    if n == 2 && s.get_char(0) == '{' && s.get_char(1) == '}' {
        let r = Heatmap::new();
        proof {
            assert(parse_map(s@) == Some(Seq::<(Seq<char>, u32)>::empty()));
            assert forall|k: Seq<char>| #[trigger] heat_count(r.view_seq(), k) == alist_count_last(
                Seq::<(Seq<char>, u32)>::empty(),
                k,
            ) by {
                assert(heat_count(r.view_seq(), k) is None);
            }
        }
        return r;
    }
    if n == 0 || s.get_char(0) != '{' {
        return Heatmap::new();
    }
    proof {
        assert(s@.skip(1) =~= s@.drop_first());
    }
    let parsed = match scan_pairs(s, 1) {
        Some(v) => v,
        None => {
            return Heatmap::new();
        },
    };
    let ghost ps = pairs_view(parsed@);
    let m = parsed.len();
    let mut h = Heatmap::new();
    proof {
        assert(pairs_view(parsed@.take(0)) =~= Seq::<(Seq<char>, u32)>::empty());
        assert forall|k: Seq<char>| #[trigger] heat_count(h.view_seq(), k) == alist_count_last(
            pairs_view(parsed@.take(0)),
            k,
        ) by {
            assert(heat_count(h.view_seq(), k) is None);
        }
    }
    let mut i: usize = 0;
    while i < m
        invariant
            m == parsed@.len(),
            i <= m,
            h.wf(),
            forall|k: Seq<char>|
                #[trigger] heat_count(h.view_seq(), k) == alist_count_last(
                    pairs_view(parsed@.take(i as int)),
                    k,
                ),
        decreases m - i,
    {
        let key = parsed[i].0.clone();
        let count = parsed[i].1;
        let ghost kv = key@;
        h.set(key, count);
        proof {
            let prev = pairs_view(parsed@.take(i as int));
            let next = pairs_view(parsed@.take(i + 1));
            assert(next.drop_last() =~= prev);
            assert(next.last() == (kv, count));
            assert forall|k: Seq<char>| #[trigger] heat_count(h.view_seq(), k) == alist_count_last(
                next,
                k,
            ) by {
                if k == kv {
                    assert(alist_count_last(next, k) == Some(count));
                } else {
                    assert(alist_count_last(next, k) == alist_count_last(prev, k));
                }
            }
        }
        i = i + 1;
    }
    proof {
        assert(parsed@.take(m as int) =~= parsed@);
    }
    h
}

/// Replacing the pair at `i` with one of the same key changes that key's
/// count and no other.
proof fn lemma_heat_count_update(s: Seq<(String, u32)>, i: int, p: (String, u32))
    requires
        0 <= i < s.len(),
        s[i].0@ == p.0@,
        forall|k: int| 0 <= k < i ==> (#[trigger] s[k]).0@ != p.0@,
    ensures
        heat_count(s.update(i, p), p.0@) == Some(p.1),
        forall|k: Seq<char>|
            k != p.0@ ==> #[trigger] heat_count(s.update(i, p), k) == heat_count(s, k),
    decreases s.len(),
{
    if i == 0 {
        assert(s.update(0, p)[0] == p);
        assert(s.update(0, p).drop_first() =~= s.drop_first());
        assert forall|k: Seq<char>| k != p.0@ implies #[trigger] heat_count(s.update(0, p), k)
            == heat_count(s, k) by {
            assert(heat_count(s.update(0, p), k) == heat_count(s.update(0, p).drop_first(), k));
            assert(heat_count(s, k) == heat_count(s.drop_first(), k));
        }
    } else {
        assert(s[0].0@ != p.0@);
        assert forall|a: int| 0 <= a < i - 1 implies (#[trigger] s.drop_first()[a]).0@ != p.0@ by {
            assert(s.drop_first()[a] == s[a + 1]);
        }
        assert(s.drop_first()[i - 1] == s[i]);
        lemma_heat_count_update(s.drop_first(), i - 1, p);
        assert(s.update(i, p)[0] == s[0]);
        assert(s.update(i, p).drop_first() =~= s.drop_first().update(i - 1, p));
        assert forall|k: Seq<char>| k != p.0@ implies #[trigger] heat_count(s.update(i, p), k)
            == heat_count(s, k) by {
            if s[0].0@ == k {
                assert(heat_count(s.update(i, p), k) == Some(s[0].1));
                assert(heat_count(s, k) == Some(s[0].1));
            } else {
                assert(heat_count(s.update(i, p), k) == heat_count(
                    s.drop_first().update(i - 1, p),
                    k,
                ));
                assert(heat_count(s, k) == heat_count(s.drop_first(), k));
            }
        }
    }
}

/// Appending a pair whose key is absent records it and disturbs no other.
proof fn lemma_heat_count_push(s: Seq<(String, u32)>, p: (String, u32))
    requires
        forall|k: int| 0 <= k < s.len() ==> (#[trigger] s[k]).0@ != p.0@,
    ensures
        heat_count(s.push(p), p.0@) == Some(p.1),
        forall|k: Seq<char>|
            k != p.0@ ==> #[trigger] heat_count(s.push(p), k) == heat_count(s, k),
    decreases s.len(),
{
    if s.len() == 0 {
        assert(s.push(p)[0] == p);
        assert(s.push(p).drop_first() =~= Seq::<(String, u32)>::empty());
        assert forall|k: Seq<char>| k != p.0@ implies #[trigger] heat_count(s.push(p), k)
            == heat_count(s, k) by {
            assert(heat_count(s.push(p), k) == heat_count(s.push(p).drop_first(), k));
        }
    } else {
        assert forall|k: int| 0 <= k < s.drop_first().len() implies (
        #[trigger] s.drop_first()[k]).0@ != p.0@ by {
            assert(s.drop_first()[k] == s[k + 1]);
        }
        lemma_heat_count_push(s.drop_first(), p);
        assert(s.push(p)[0] == s[0]);
        assert(s.push(p).drop_first() =~= s.drop_first().push(p));
        assert forall|k: Seq<char>| k != p.0@ implies #[trigger] heat_count(s.push(p), k)
            == heat_count(s, k) by {
            if s[0].0@ == k {
                assert(heat_count(s.push(p), k) == Some(s[0].1));
            } else {
                assert(heat_count(s.push(p), k) == heat_count(s.drop_first().push(p), k));
                assert(heat_count(s, k) == heat_count(s.drop_first(), k));
            }
        }
    }
}

} // verus!
