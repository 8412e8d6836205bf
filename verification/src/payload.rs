//! The resume payload: the text that carries the assignment of windows to
//! workspaces across a restart.
//!
//! The payload is a JSON array of two-element arrays, `[[window,workspace],...]`,
//! written without white space and with every number in plain decimal. The
//! decoder accepts exactly this form.

use crate::workspace::Assignment;
use vstd::prelude::*;

verus! {

/// The character of the decimal digit `d`.
pub open spec fn digit_char(d: int) -> char
    recommends
        0 <= d < 10,
{
    ('0' as int + d) as char
}

/// Whether `c` is one of `'0'` to `'9'`.
pub open spec fn is_digit(c: char) -> bool {
    '0' <= c <= '9'
}

/// The number that the digit `c` stands for.
pub open spec fn digit_value(c: char) -> nat
    recommends
        is_digit(c),
{
    (c as int - '0' as int) as nat
}

/// The decimal numeral of `n`, without sign or leading zeros.
pub open spec fn decimal(n: nat) -> Seq<char>
    decreases n,
{
    if n < 10 {
        seq![digit_char(n as int)]
    } else {
        decimal(n / 10).push(digit_char((n % 10) as int))
    }
}

/// The text of one assignment: `[window,workspace]`.
pub open spec fn pair_text(p: Assignment) -> Seq<char> {
    seq!['['] + decimal(p.0 as nat) + seq![','] + decimal(p.1 as nat) + seq![']']
}

/// The texts of the assignments in order, separated by commas.
pub open spec fn pairs_text(ps: Seq<Assignment>) -> Seq<char>
    decreases ps.len(),
{
    if ps.len() == 0 {
        Seq::empty()
    } else if ps.len() == 1 {
        pair_text(ps[0])
    } else {
        pair_text(ps[0]) + seq![','] + pairs_text(ps.drop_first())
    }
}

/// The resume payload of a list of assignments.
pub open spec fn payload_text(ps: Seq<Assignment>) -> Seq<char> {
    seq!['['] + pairs_text(ps) + seq![']']
}

/// The assignments whose payload is `text`, if `text` is a payload.
pub open spec fn decoded(text: Seq<char>) -> Option<Seq<Assignment>> {
    if exists|ps: Seq<Assignment>| #[trigger] payload_text(ps) == text {
        Some(choose|ps: Seq<Assignment>| #[trigger] payload_text(ps) == text)
    } else {
        None
    }
}

/// Where the run of digits that starts at `i` ends.
spec fn digits_end(s: Seq<char>, i: int) -> int
    decreases s.len() - i,
{
    if 0 <= i < s.len() && is_digit(s[i]) {
        digits_end(s, i + 1)
    } else {
        i
    }
}

/// The number written by the digits of `s` from `i` up to `j`.
spec fn digits_value(s: Seq<char>, i: int, j: int) -> nat
    decreases j - i,
{
    if j <= i {
        0
    } else {
        digits_value(s, i, j - 1) * 10 + digit_value(s[j - 1])
    }
}

/// The numeral that starts at `i`, if one does and its value is at most
/// `max`: the value and the position after its last digit.
spec fn number_at(s: Seq<char>, i: int, max: nat) -> Option<(nat, int)> {
    let j = digits_end(s, i);
    if i < 0 || j == i {
        None
    } else if s[i] == '0' && j > i + 1 {
        None
    } else if digits_value(s, i, j) > max {
        None
    } else {
        Some((digits_value(s, i, j), j))
    }
}

proof fn lemma_digits_end_bounds(s: Seq<char>, i: int)
    requires
        0 <= i <= s.len(),
    ensures
        i <= digits_end(s, i) <= s.len(),
        forall|k: int| i <= k < digits_end(s, i) ==> is_digit(#[trigger] s[k]),
        digits_end(s, i) < s.len() ==> !is_digit(s[digits_end(s, i)]),
    decreases s.len() - i,
{
    if i < s.len() && is_digit(s[i]) {
        lemma_digits_end_bounds(s, i + 1);
    }
}

/// A run of digits that is followed by no digit ends where `digits_end` says.
proof fn lemma_digits_end_is(s: Seq<char>, i: int, j: int)
    requires
        0 <= i <= j <= s.len(),
        forall|k: int| i <= k < j ==> is_digit(#[trigger] s[k]),
        j < s.len() ==> !is_digit(s[j]),
    ensures
        digits_end(s, i) == j,
    decreases j - i,
{
    if i < j {
        lemma_digits_end_is(s, i + 1, j);
    }
}

proof fn lemma_digits_value_monotone(s: Seq<char>, i: int, j: int, k: int)
    requires
        i <= j <= k,
    ensures
        digits_value(s, i, j) <= digits_value(s, i, k),
    decreases k - j,
{
    if j < k {
        lemma_digits_value_monotone(s, i, j, k - 1);
    }
}

/// The value of a run of digits depends on those digits only.
proof fn lemma_digits_value_of_text(s: Seq<char>, i: int, j: int, t: Seq<char>)
    requires
        0 <= i <= j <= s.len(),
        s.subrange(i, j) == t,
    ensures
        digits_value(s, i, j) == digits_value(t, 0, t.len() as int),
    decreases j - i,
{
    if i < j {
        let u = t.drop_last();
        assert(s.subrange(i, j - 1) == u);
        lemma_digits_value_of_text(s, i, j - 1, u);
        assert(t[t.len() - 1] == s[j - 1]);
        lemma_digits_value_same(u, t, 0, u.len() as int);
    }
}

/// Two texts that agree between `i` and `j` have the same value there.
proof fn lemma_digits_value_same(a: Seq<char>, b: Seq<char>, i: int, j: int)
    requires
        0 <= i <= j,
        j <= a.len(),
        j <= b.len(),
        forall|k: int| i <= k < j ==> a[k] == b[k],
    ensures
        digits_value(a, i, j) == digits_value(b, i, j),
    decreases j - i,
{
    if i < j {
        lemma_digits_value_same(a, b, i, j - 1);
    }
}

/// What `decimal` writes: digits only, at least one, no leading zero, and
/// read back they give the number.
proof fn lemma_decimal(n: nat)
    ensures
        decimal(n).len() >= 1,
        forall|k: int| 0 <= k < decimal(n).len() ==> is_digit(#[trigger] decimal(n)[k]),
        decimal(n)[0] == '0' ==> n == 0,
        n == 0 ==> decimal(n).len() == 1,
        digits_value(decimal(n), 0, decimal(n).len() as int) == n,
    decreases n,
{
    let t = decimal(n);
    if n < 10 {
        assert(t.len() == 1);
        assert(t[0] == digit_char(n as int));
        assert(digits_value(t, 0, 0) == 0);
        assert(digits_value(t, 0, 1) == digits_value(t, 0, 0) * 10 + digit_value(t[0]));
    } else {
        let m = n / 10;
        lemma_decimal(m);
        let u = decimal(m);
        assert(t == u.push(digit_char((n % 10) as int)));
        assert(t[0] == u[0]);
        assert forall|k: int| 0 <= k < t.len() implies is_digit(#[trigger] t[k]) by {
            if k < u.len() {
                assert(t[k] == u[k]);
            }
        }
        lemma_digits_value_same(u, t, 0, u.len() as int);
        assert(digits_value(t, 0, t.len() as int) == digits_value(t, 0, t.len() - 1) * 10
            + digit_value(t[t.len() - 1]));
    }
}

/// A run of digits without a leading zero is the numeral of its value.
proof fn lemma_canonical_digits(s: Seq<char>, i: int, j: int)
    requires
        0 <= i < j <= s.len(),
        forall|k: int| i <= k < j ==> is_digit(#[trigger] s[k]),
        s[i] == '0' ==> j == i + 1,
    ensures
        s.subrange(i, j) == decimal(digits_value(s, i, j)),
        j > i + 1 ==> digits_value(s, i, j) >= 10,
        s[i] != '0' ==> digits_value(s, i, j) >= 1,
    decreases j - i,
{
    let v = digits_value(s, i, j);
    if j == i + 1 {
        assert(digits_value(s, i, i) == 0);
        assert(v == digit_value(s[i]));
        assert(is_digit(s[i]));
        assert(s.subrange(i, j) == seq![s[i]]);
        assert(digit_char(v as int) == s[i]);
    } else {
        lemma_canonical_digits(s, i, j - 1);
        let w = digits_value(s, i, j - 1);
        assert(is_digit(s[j - 1]));
        assert(v == w * 10 + digit_value(s[j - 1]));
        assert(w >= 1);
        assert(v / 10 == w);
        assert(v % 10 == digit_value(s[j - 1]));
        assert(digit_char((v % 10) as int) == s[j - 1]);
        assert(s.subrange(i, j) == s.subrange(i, j - 1).push(s[j - 1]));
    }
}

/// What a numeral found by `number_at` is.
proof fn lemma_number_at_sound(s: Seq<char>, i: int, max: nat)
    requires
        0 <= i <= s.len(),
        number_at(s, i, max) is Some,
    ensures
        ({
            let (v, j) = number_at(s, i, max)->0;
            &&& i < j <= s.len()
            &&& v <= max
            &&& s.subrange(i, j) == decimal(v)
        }),
{
    lemma_digits_end_bounds(s, i);
    lemma_canonical_digits(s, i, digits_end(s, i));
}

/// A numeral that stands at `i` and is followed by no digit is found there.
proof fn lemma_number_at_complete(s: Seq<char>, i: int, v: nat, max: nat)
    requires
        0 <= i,
        i + decimal(v).len() <= s.len(),
        s.subrange(i, i + decimal(v).len()) == decimal(v),
        i + decimal(v).len() < s.len() ==> !is_digit(s[i + decimal(v).len()]),
        v <= max,
    ensures
        number_at(s, i, max) == Some((v, i + decimal(v).len())),
{
    let t = decimal(v);
    let j = i + t.len();
    lemma_decimal(v);
    assert forall|k: int| i <= k < j implies is_digit(#[trigger] s[k]) by {
        assert(s[k] == s.subrange(i, j)[k - i]);
    }
    lemma_digits_end_is(s, i, j);
    lemma_digits_value_of_text(s, i, j, t);
    assert(s[i] == s.subrange(i, j)[0]);
}


/// Whether the text `t` stands in `s` at position `i`.
spec fn occurs_at(s: Seq<char>, i: int, t: Seq<char>) -> bool {
    0 <= i && i + t.len() <= s.len() && s.subrange(i, i + t.len()) == t
}

proof fn lemma_occurs_concat(s: Seq<char>, i: int, a: Seq<char>, b: Seq<char>)
    ensures
        occurs_at(s, i, a + b) <==> occurs_at(s, i, a) && occurs_at(s, i + a.len(), b),
{
    let n = a.len() as int;
    let m = b.len() as int;
    if occurs_at(s, i, a + b) {
        let t = s.subrange(i, i + n + m);
        assert(t == a + b);
        assert forall|k: int| 0 <= k < n implies s.subrange(i, i + n)[k] == a[k] by {
            assert(t[k] == (a + b)[k]);
        }
        assert(s.subrange(i, i + n) =~= a);
        assert forall|k: int| 0 <= k < m implies s.subrange(i + n, i + n + m)[k] == b[k] by {
            assert(t[n + k] == (a + b)[n + k]);
        }
        assert(s.subrange(i + n, i + n + m) =~= b);
    }
    if occurs_at(s, i, a) && occurs_at(s, i + n, b) {
        assert forall|k: int| 0 <= k < n + m implies s.subrange(i, i + n + m)[k] == (a + b)[k] by {
            if k < n {
                assert(s.subrange(i, i + n)[k] == a[k]);
            } else {
                assert(s.subrange(i + n, i + n + m)[k - n] == b[k - n]);
            }
        }
        assert(s.subrange(i, i + n + m) =~= a + b);
    }
}

proof fn lemma_occurs_single(s: Seq<char>, i: int, c: char)
    ensures
        occurs_at(s, i, seq![c]) <==> 0 <= i < s.len() && s[i] == c,
{
    if occurs_at(s, i, seq![c]) {
        assert(s.subrange(i, i + 1)[0] == seq![c][0]);
    }
    if 0 <= i < s.len() && s[i] == c {
        assert(s.subrange(i, i + 1) =~= seq![c]);
    }
}

/// The assignment whose text starts at `i` and the position after it.
spec fn pair_at(s: Seq<char>, i: int) -> Option<(Assignment, int)> {
    if !(0 <= i < s.len()) || s[i] != '[' {
        None
    } else {
        match number_at(s, i + 1, u64::MAX as nat) {
            None => None,
            Some((window, j)) => {
                if !(j < s.len()) || s[j] != ',' {
                    None
                } else {
                    match number_at(s, j + 1, u32::MAX as nat) {
                        None => None,
                        Some((workspace, k)) => {
                            if !(k < s.len()) || s[k] != ']' {
                                None
                            } else {
                                Some(((window as u64, workspace as u32), k + 1))
                            }
                        },
                    }
                }
            },
        }
    }
}

/// The assignments whose texts start at `i`, separated by commas, and the
/// position after the last of them.
spec fn pairs_from(s: Seq<char>, i: int) -> Option<(Seq<Assignment>, int)>
    decreases s.len() - i,
{
    match pair_at(s, i) {
        None => None,
        Some((p, j)) => {
            if j <= i {
                None
            } else if j < s.len() && s[j] == ',' {
                match pairs_from(s, j + 1) {
                    None => None,
                    Some((rest, k)) => Some((seq![p] + rest, k)),
                }
            } else {
                Some((seq![p], j))
            }
        },
    }
}

/// The assignments that the whole of `s` lists between its brackets.
spec fn parse_payload(s: Seq<char>) -> Option<Seq<Assignment>> {
    if s.len() < 2 || s[0] != '[' {
        None
    } else if s[1] == ']' {
        if s.len() == 2 {
            Some(Seq::empty())
        } else {
            None
        }
    } else {
        match pairs_from(s, 1) {
            None => None,
            Some((ps, j)) => {
                if j == s.len() - 1 && s[j] == ']' {
                    Some(ps)
                } else {
                    None
                }
            },
        }
    }
}

proof fn lemma_pair_at_sound(s: Seq<char>, i: int)
    requires
        pair_at(s, i) is Some,
    ensures
        ({
            let (p, j) = pair_at(s, i)->0;
            &&& 0 <= i < j <= s.len()
            &&& j == i + pair_text(p).len()
            &&& occurs_at(s, i, pair_text(p))
        }),
{
    let (window, j) = number_at(s, i + 1, u64::MAX as nat)->0;
    lemma_number_at_sound(s, i + 1, u64::MAX as nat);
    let (workspace, k) = number_at(s, j + 1, u32::MAX as nat)->0;
    lemma_number_at_sound(s, j + 1, u32::MAX as nat);
    let p: Assignment = (window as u64, workspace as u32);
    let a = seq!['['];
    let b = decimal(window);
    let c = seq![','];
    let d = decimal(workspace);
    let e = seq![']'];
    lemma_occurs_single(s, i, '[');
    lemma_occurs_single(s, j, ',');
    lemma_occurs_single(s, k, ']');
    assert(occurs_at(s, i + 1, b));
    assert(occurs_at(s, j + 1, d));
    lemma_occurs_concat(s, i, a, b);
    lemma_occurs_concat(s, i, a + b, c);
    lemma_occurs_concat(s, i, a + b + c, d);
    lemma_occurs_concat(s, i, a + b + c + d, e);
    assert(pair_text(p) == a + b + c + d + e);
}

proof fn lemma_pair_at_complete(s: Seq<char>, i: int, p: Assignment)
    requires
        occurs_at(s, i, pair_text(p)),
    ensures
        pair_at(s, i) == Some((p, i + pair_text(p).len())),
{
    let a = seq!['['];
    let b = decimal(p.0 as nat);
    let c = seq![','];
    let d = decimal(p.1 as nat);
    let e = seq![']'];
    assert(pair_text(p) == a + b + c + d + e);
    lemma_occurs_concat(s, i, a + b + c + d, e);
    lemma_occurs_concat(s, i, a + b + c, d);
    lemma_occurs_concat(s, i, a + b, c);
    lemma_occurs_concat(s, i, a, b);
    let j = i + 1 + b.len();
    let k = j + 1 + d.len();
    lemma_occurs_single(s, i, '[');
    lemma_occurs_single(s, j, ',');
    lemma_occurs_single(s, k, ']');
    lemma_number_at_complete(s, i + 1, p.0 as nat, u64::MAX as nat);
    lemma_number_at_complete(s, j + 1, p.1 as nat, u32::MAX as nat);
}

proof fn lemma_pairs_from_sound(s: Seq<char>, i: int)
    requires
        pairs_from(s, i) is Some,
    ensures
        ({
            let (ps, j) = pairs_from(s, i)->0;
            &&& 0 <= i < j <= s.len()
            &&& ps.len() >= 1
            &&& j == i + pairs_text(ps).len()
            &&& occurs_at(s, i, pairs_text(ps))
            &&& j < s.len() ==> s[j] != ','
        }),
    decreases s.len() - i,
{
    lemma_pair_at_sound(s, i);
    let (p, j) = pair_at(s, i)->0;
    if j < s.len() && s[j] == ',' {
        lemma_pairs_from_sound(s, j + 1);
        let (rest, k) = pairs_from(s, j + 1)->0;
        let ps = seq![p] + rest;
        assert(ps[0] == p);
        assert(ps.drop_first() == rest);
        assert(pairs_text(ps) == pair_text(p) + seq![','] + pairs_text(rest));
        lemma_occurs_single(s, j, ',');
        lemma_occurs_concat(s, i, pair_text(p), seq![',']);
        lemma_occurs_concat(s, i, pair_text(p) + seq![','], pairs_text(rest));
    } else {
        assert(pairs_text(seq![p]) == pair_text(p));
    }
}

proof fn lemma_pairs_from_complete(s: Seq<char>, i: int, ps: Seq<Assignment>)
    requires
        ps.len() >= 1,
        occurs_at(s, i, pairs_text(ps)),
        i + pairs_text(ps).len() < s.len() ==> s[i + pairs_text(ps).len()] != ',',
    ensures
        pairs_from(s, i) == Some((ps, i + pairs_text(ps).len())),
    decreases ps.len(),
{
    let p = ps[0];
    if ps.len() == 1 {
        lemma_pair_at_complete(s, i, p);
        assert(ps == seq![p]);
    } else {
        let rest = ps.drop_first();
        lemma_occurs_concat(s, i, pair_text(p) + seq![','], pairs_text(rest));
        lemma_occurs_concat(s, i, pair_text(p), seq![',']);
        lemma_pair_at_complete(s, i, p);
        let j = i + pair_text(p).len();
        lemma_occurs_single(s, j, ',');
        lemma_pairs_from_complete(s, j + 1, rest);
        assert(seq![p] + rest == ps);
    }
}

proof fn lemma_parse_sound(s: Seq<char>)
    requires
        parse_payload(s) is Some,
    ensures
        s == payload_text(parse_payload(s)->0),
{
    let ps = parse_payload(s)->0;
    if s[1] == ']' {
        assert(pairs_text(ps) == Seq::<char>::empty());
        assert(s =~= payload_text(ps));
    } else {
        lemma_pairs_from_sound(s, 1);
        let j = s.len() - 1;
        lemma_occurs_single(s, 0, '[');
        lemma_occurs_single(s, j, ']');
        lemma_occurs_concat(s, 0, seq!['['], pairs_text(ps));
        lemma_occurs_concat(s, 0, seq!['['] + pairs_text(ps), seq![']']);
        assert(s.subrange(0, s.len() as int) == s);
    }
}

proof fn lemma_pairs_text_starts(ps: Seq<Assignment>)
    requires
        ps.len() >= 1,
    ensures
        pairs_text(ps).len() >= 1,
        pairs_text(ps)[0] == '[',
{
    let p = ps[0];
    let body = decimal(p.0 as nat) + seq![','] + decimal(p.1 as nat) + seq![']'];
    assert(pair_text(p) =~= seq!['['] + body);
    assert(pair_text(p)[0] == '[');
    if ps.len() > 1 {
        assert(pairs_text(ps) =~= pair_text(p) + (seq![','] + pairs_text(ps.drop_first())));
    }
}

proof fn lemma_parse_complete(ps: Seq<Assignment>)
    ensures
        parse_payload(payload_text(ps)) == Some(ps),
{
    let s = payload_text(ps);
    let t = pairs_text(ps);
    let n = t.len() as int;
    assert(s.len() == n + 2);
    assert(s[0] == '[');
    assert(s[n + 1] == ']');
    if ps.len() == 0 {
        assert(ps == Seq::<Assignment>::empty());
        assert(n == 0);
    } else {
        lemma_pairs_text_starts(ps);
        assert(s[1] == t[0]);
        assert(occurs_at(s, 1, t)) by {
            assert(s.subrange(1, 1 + n) =~= t);
        }
        lemma_pairs_from_complete(s, 1, ps);
    }
}

proof fn lemma_decoded_is_parsed(s: Seq<char>)
    ensures
        decoded(s) == parse_payload(s),
{
    if parse_payload(s) is Some {
        lemma_parse_sound(s);
        let ps = parse_payload(s)->0;
        assert(payload_text(ps) == s);
        let qs = choose|qs: Seq<Assignment>| #[trigger] payload_text(qs) == s;
        lemma_parse_complete(qs);
    } else {
        if exists|ps: Seq<Assignment>| #[trigger] payload_text(ps) == s {
            let ps = choose|ps: Seq<Assignment>| #[trigger] payload_text(ps) == s;
            lemma_parse_complete(ps);
        }
    }
}

/// A payload reads back as the assignments it was written from, in their
/// order; so the set of assignments read is the set written.
pub proof fn lemma_payload_round_trip(ps: Seq<Assignment>)
    ensures
        decoded(payload_text(ps)) == Some(ps),
        decoded(payload_text(ps))->0.to_set() == ps.to_set(),
{
    lemma_parse_complete(ps);
    lemma_decoded_is_parsed(payload_text(ps));
}

/// No two lists of assignments have the same payload.
pub proof fn lemma_payload_injective(a: Seq<Assignment>, b: Seq<Assignment>)
    requires
        payload_text(a) == payload_text(b),
    ensures
        a == b,
{
    lemma_parse_complete(a);
    lemma_parse_complete(b);
}

/// A text decodes to a list exactly when it is the payload of that list.
pub proof fn lemma_decoded_iff_payload(text: Seq<char>, ps: Seq<Assignment>)
    ensures
        decoded(text) == Some(ps) <==> text == payload_text(ps),
{
    lemma_decoded_is_parsed(text);
    if decoded(text) == Some(ps) {
        lemma_parse_sound(text);
    }
    if text == payload_text(ps) {
        lemma_parse_complete(ps);
    }
}

fn is_decimal_digit(c: char) -> (r: bool)
    ensures
        r == is_digit(c),
{
    '0' <= c && c <= '9'
}

/// Reads the numeral that starts at `i`.
fn read_number(s: &Vec<char>, i: usize, max: u64) -> (r: Option<(u64, usize)>)
    requires
        i <= s.len(),
    ensures
        match r {
            Some((v, j)) => number_at(s@, i as int, max as nat) == Some((v as nat, j as int)),
            None => number_at(s@, i as int, max as nat) is None,
        },
{
    let mut j: usize = i;
    let mut value: u64 = 0;
    while j < s.len() && is_decimal_digit(s[j])
        invariant
            i <= j <= s.len(),
            digits_end(s@, i as int) == digits_end(s@, j as int),
            value == digits_value(s@, i as int, j as int),
            value <= max,
        decreases s.len() - j,
    {
        let digit: u64 = (s[j] as u32 - '0' as u32) as u64;
        assert(digit == digit_value(s@[j as int]));
        assert(digits_value(s@, i as int, j + 1) == value * 10 + digit);
        if digit > max || value > (max - digit) / 10 {
            proof {
                lemma_digits_end_bounds(s@, j as int + 1);
                lemma_digits_value_monotone(s@, i as int, j + 1, digits_end(s@, i as int));
            }
            return None;
        }
        value = value * 10 + digit;
        j = j + 1;
    }
    if j == i {
        return None;
    }
    if s[i] == '0' && j > i + 1 {
        return None;
    }
    Some((value, j))
}

/// Reads the assignment whose text starts at `i`.
fn read_pair(s: &Vec<char>, i: usize) -> (r: Option<(Assignment, usize)>)
    ensures
        match r {
            Some((p, j)) => pair_at(s@, i as int) == Some((p, j as int)),
            None => pair_at(s@, i as int) is None,
        },
{
    if i >= s.len() || s[i] != '[' {
        return None;
    }
    let (window, j) = match read_number(s, i + 1, u64::MAX) {
        Some(found) => found,
        None => {
            return None;
        },
    };
    proof {
        lemma_number_at_sound(s@, i + 1, u64::MAX as nat);
    }
    if j >= s.len() || s[j] != ',' {
        return None;
    }
    let (workspace, k) = match read_number(s, j + 1, 0xffff_ffff) {
        Some(found) => found,
        None => {
            return None;
        },
    };
    proof {
        lemma_number_at_sound(s@, j + 1, u32::MAX as nat);
    }
    if k >= s.len() || s[k] != ']' {
        return None;
    }
    Some(((window, workspace as u32), k + 1))
}

/// What a list read so far and the rest of the reading give together.
spec fn continued(done: Seq<Assignment>, rest: Option<(Seq<Assignment>, int)>) -> Option<
    (Seq<Assignment>, int),
> {
    match rest {
        None => None,
        Some((more, end)) => Some((done + more, end)),
    }
}

/// Reads the assignments that start at `i`, separated by commas.
fn read_pairs(s: &Vec<char>, i: usize) -> (r: Option<(Vec<Assignment>, usize)>)
    requires
        i <= s.len(),
    ensures
        match r {
            Some((ps, j)) => pairs_from(s@, i as int) == Some((ps@, j as int)),
            None => pairs_from(s@, i as int) is None,
        },
{
    let mut done: Vec<Assignment> = Vec::new();
    let mut at: usize = i;
    assert(continued(done@, pairs_from(s@, at as int)) =~= pairs_from(s@, i as int)) by {
        if pairs_from(s@, i as int) is Some {
            let (more, end) = pairs_from(s@, i as int)->0;
            assert(done@ + more =~= more);
        }
    }
    loop
        invariant
            at <= s.len(),
            pairs_from(s@, i as int) == continued(done@, pairs_from(s@, at as int)),
        decreases s.len() - at,
    {
        let (p, j) = match read_pair(s, at) {
            Some(found) => found,
            None => {
                return None;
            },
        };
        proof {
            lemma_pair_at_sound(s@, at as int);
        }
        let ghost before = done@;
        done.push(p);
        if j < s.len() && s[j] == ',' {
            proof {
                let rest = pairs_from(s@, j + 1);
                if rest is Some {
                    let (more, end) = rest->0;
                    assert(before + (seq![p] + more) =~= before.push(p) + more);
                }
            }
            at = j + 1;
        } else {
            assert(before + seq![p] =~= before.push(p));
            return Some((done, j));
        }
    }
}

/// Reads a whole payload.
fn read_payload(s: &Vec<char>) -> (r: Option<Vec<Assignment>>)
    ensures
        match r {
            Some(ps) => parse_payload(s@) == Some(ps@),
            None => parse_payload(s@) is None,
        },
{
    if s.len() < 2 || s[0] != '[' {
        return None;
    }
    if s[1] == ']' {
        if s.len() == 2 {
            return Some(Vec::new());
        }
        return None;
    }
    match read_pairs(s, 1) {
        None => None,
        Some((ps, j)) => {
            if j == s.len() - 1 && s[j] == ']' {
                Some(ps)
            } else {
                None
            }
        },
    }
}

/// The characters of `text`, one by one.
fn characters(text: &str) -> (v: Vec<char>)
    ensures
        v@ == text@,
{
    broadcast use vstd::string::group_string_axioms;

    let mut v: Vec<char> = Vec::new();
    let chars = text.chars();
    for c in it: chars
        invariant
            it.seq() == text@,
            v@ == text@.take(it.index()),
    {
        v.push(c);
    }
    v
}

/// Reads a resume payload.
///
/// Gives the assignments in the order in which the payload lists them, and
/// `None` for any text that is not the payload of some list: white space, a
/// sign, a leading zero or a number out of range all make a text unreadable.
pub fn decode(text: &str) -> (r: Option<Vec<Assignment>>)
    ensures
        match r {
            Some(ps) => decoded(text@) == Some(ps@),
            None => decoded(text@) is None,
        },
{
    let chars = characters(text);
    proof {
        lemma_decoded_is_parsed(text@);
    }
    read_payload(&chars)
}

} // verus!
