//! Pre-release parts of versions and their precedence, as semantic versioning
//! has it: identifiers separated by dots are compared from left to right,
//! numbers by value, words by their characters, numbers before words, and a
//! list before any longer list that it starts.

use crate::text::{
    decimal, digits_value, is_digit, lemma_decimal_value, lemma_digits_step, lemma_zeros_value,
    zeros,
};
use vstd::prelude::*;
use vstd::string::*;

verus! {

/// One identifier of a pre-release part.
pub enum Identifier {
    /// Digits alone.
    Number(nat),
    Word(Seq<char>),
}

/// Where `c` stands first in `s`; the end where it does not.
pub open spec fn position(s: Seq<char>, c: char) -> int
    decreases s.len(),
{
    if s.len() == 0 || s[0] == c {
        0
    } else {
        1 + position(s.skip(1), c)
    }
}

/// Whether `s` is a number: digits, and at least one.
pub open spec fn is_number(s: Seq<char>) -> bool {
    s.len() > 0 && forall|i: int| 0 <= i < s.len() ==> is_digit(#[trigger] s[i])
}

/// The identifier that `s` writes.
pub open spec fn identifier(s: Seq<char>) -> Identifier {
    if is_number(s) {
        Identifier::Number(digits_value(s))
    } else {
        Identifier::Word(s)
    }
}

/// The identifiers of a pre-release part.
pub open spec fn identifiers(s: Seq<char>) -> Seq<Identifier>
    decreases s.len(),
{
    let e = position(s, '.');
    if 0 <= e < s.len() {
        seq![identifier(s.take(e))] + identifiers(s.skip(e + 1))
    } else {
        seq![identifier(s)]
    }
}

/// Whether `a` stands before `b` in the order of their characters.
pub open spec fn word_before(a: Seq<char>, b: Seq<char>) -> bool
    decreases a.len(),
{
    if b.len() == 0 {
        false
    } else if a.len() == 0 {
        true
    } else {
        a[0] < b[0] || (a[0] == b[0] && word_before(a.skip(1), b.skip(1)))
    }
}

/// Whether `a` has the lower precedence.
pub open spec fn identifier_before(a: Identifier, b: Identifier) -> bool {
    match (a, b) {
        (Identifier::Number(m), Identifier::Number(n)) => m < n,
        (Identifier::Number(_), Identifier::Word(_)) => true,
        (Identifier::Word(_), Identifier::Number(_)) => false,
        (Identifier::Word(v), Identifier::Word(w)) => word_before(v, w),
    }
}

/// Whether the pre-release `a` has the lower precedence.
pub open spec fn prerelease_before(a: Seq<Identifier>, b: Seq<Identifier>) -> bool
    decreases a.len(),
{
    if b.len() == 0 {
        false
    } else if a.len() == 0 {
        true
    } else {
        identifier_before(a[0], b[0]) || (a[0] == b[0] && prerelease_before(a.skip(1), b.skip(1)))
    }
}

// ---------------------------------------------------------------------
// Laws
// ---------------------------------------------------------------------

/// The order of words is strict and total.
pub proof fn lemma_word_order(a: Seq<char>, b: Seq<char>, c: Seq<char>)
    ensures
        !word_before(a, a),
        word_before(a, b) ==> !word_before(b, a),
        word_before(a, b) || word_before(b, a) || a == b,
        word_before(a, b) && word_before(b, c) ==> word_before(a, c),
    decreases a.len(),
{
    if a.len() > 0 {
        lemma_word_order(a.skip(1), b.skip(1), c.skip(1));
        if b.len() > 0 {
            assert(a =~= seq![a[0]] + a.skip(1));
            assert(b =~= seq![b[0]] + b.skip(1));
        }
    } else if b.len() == 0 {
        assert(a =~= b);
    }
}

/// The order of identifiers is strict and total.
pub proof fn lemma_identifier_order(a: Identifier, b: Identifier, c: Identifier)
    ensures
        !identifier_before(a, a),
        identifier_before(a, b) ==> !identifier_before(b, a),
        identifier_before(a, b) || identifier_before(b, a) || a == b,
        identifier_before(a, b) && identifier_before(b, c) ==> identifier_before(a, c),
{
    let word = |i: Identifier|
        match i {
            Identifier::Word(w) => w,
            Identifier::Number(_) => Seq::<char>::empty(),
        };
    lemma_word_order(word(a), word(b), word(c));
}

/// The order of pre-releases is strict and total.
pub proof fn lemma_prerelease_order(a: Seq<Identifier>, b: Seq<Identifier>, c: Seq<Identifier>)
    ensures
        !prerelease_before(a, a),
        prerelease_before(a, b) ==> !prerelease_before(b, a),
        prerelease_before(a, b) || prerelease_before(b, a) || a == b,
        prerelease_before(a, b) && prerelease_before(b, c) ==> prerelease_before(a, c),
    decreases a.len(),
{
    if a.len() > 0 {
        lemma_prerelease_order(a.skip(1), b.skip(1), c.skip(1));
        if b.len() > 0 {
            lemma_identifier_order(
                a[0],
                b[0],
                if c.len() > 0 {
                    c[0]
                } else {
                    a[0]
                },
            );
            assert(a =~= seq![a[0]] + a.skip(1));
            assert(b =~= seq![b[0]] + b.skip(1));
        } else {
            lemma_identifier_order(a[0], a[0], a[0]);
        }
    } else if b.len() == 0 {
        assert(a =~= b);
    }
}

/// The first place of a character is where it stands and nowhere before.
pub proof fn lemma_position(s: Seq<char>, c: char)
    ensures
        0 <= position(s, c) <= s.len(),
        forall|i: int| 0 <= i < position(s, c) ==> #[trigger] s[i] != c,
        position(s, c) < s.len() ==> s[position(s, c)] == c,
    decreases s.len(),
{
    if s.len() > 0 && s[0] != c {
        let rest = s.skip(1);
        lemma_position(rest, c);
        assert forall|i: int| 0 <= i < position(s, c) implies #[trigger] s[i] != c by {
            if i > 0 {
                assert(s[i] == rest[i - 1]);
            }
        }
        if position(s, c) < s.len() {
            assert(rest[position(rest, c)] == s[position(s, c)]);
        }
    }
}

/// A place with that character and none before it is the first place.
pub proof fn lemma_position_is(s: Seq<char>, c: char, e: int)
    requires
        0 <= e <= s.len(),
        forall|i: int| 0 <= i < e ==> #[trigger] s[i] != c,
        e < s.len() ==> s[e] == c,
    ensures
        position(s, c) == e,
{
    lemma_position(s, c);
    let p = position(s, c);
    if p < e {
        assert(s[p] != c);
    } else if e < p {
        assert(s[e] != c);
    }
}

/// A text that goes on behind a dot has its identifiers and then those of the
/// rest.
pub proof fn lemma_identifiers_join(p: Seq<char>, q: Seq<char>)
    ensures
        identifiers(p + seq!['.'] + q) == identifiers(p) + identifiers(q),
    decreases p.len(),
{
    let s = p + seq!['.'] + q;
    lemma_position(p, '.');
    let e = position(p, '.');
    assert forall|i: int| 0 <= i < e implies #[trigger] s[i] != '.' by {
        assert(s[i] == p[i]);
    }
    lemma_position_is(s, '.', e);
    if e < p.len() {
        let rest = p.skip(e + 1);
        lemma_identifiers_join(rest, q);
        assert(s.take(e) =~= p.take(e));
        assert(s.skip(e + 1) =~= rest + seq!['.'] + q);
        assert(identifiers(s) =~= identifiers(p) + identifiers(q));
    } else {
        assert(s.take(e) =~= p);
        assert(s.skip(e + 1) =~= q);
    }
}

proof fn lemma_common_start(p: Seq<Identifier>, a: Seq<Identifier>, b: Seq<Identifier>)
    ensures
        prerelease_before(p + a, p + b) == prerelease_before(a, b),
    decreases p.len(),
{
    if p.len() == 0 {
        assert(p + a =~= a);
        assert(p + b =~= b);
    } else {
        lemma_common_start(p.skip(1), a, b);
        lemma_identifier_order(p[0], p[0], p[0]);
        assert((p + a).skip(1) =~= p.skip(1) + a);
        assert((p + b).skip(1) =~= p.skip(1) + b);
    }
}

/// Pre-releases with the same start compare by what follows it.
pub proof fn lemma_same_start_compares_rest(p: Seq<char>, a: Seq<char>, b: Seq<char>)
    ensures
        prerelease_before(
            identifiers(p + seq!['.'] + a),
            identifiers(p + seq!['.'] + b),
        ) == prerelease_before(identifiers(a), identifiers(b)),
{
    lemma_identifiers_join(p, a);
    lemma_identifiers_join(p, b);
    lemma_common_start(identifiers(p), identifiers(a), identifiers(b));
}

/// A pre-release with more identifiers comes after the one that it starts
/// with.
pub proof fn lemma_longer_comes_after(p: Seq<char>, more: Seq<char>)
    ensures
        prerelease_before(identifiers(p), identifiers(p + seq!['.'] + more)),
        !prerelease_before(identifiers(p + seq!['.'] + more), identifiers(p)),
{
    let ids = identifiers(p);
    let none = Seq::<Identifier>::empty();
    lemma_identifiers_join(p, more);
    assert(ids + none =~= ids);
    lemma_common_start(ids, none, identifiers(more));
    lemma_common_start(ids, identifiers(more), none);
    assert(identifiers(more).len() > 0);
}

/// Without a dot there is one identifier.
proof fn lemma_one_identifier(s: Seq<char>)
    requires
        forall|i: int| 0 <= i < s.len() ==> #[trigger] s[i] != '.',
    ensures
        identifiers(s) == seq![identifier(s)],
{
    lemma_position_is(s, '.', s.len() as int);
}

/// Numbered pre-releases compare by their numbers, however large.
pub proof fn lemma_numbered_prereleases(m: nat, n: nat)
    ensures
        prerelease_before(identifiers(decimal(m)), identifiers(decimal(n))) <==> m < n,
{
    reveal_with_fuel(prerelease_before, 2);
    lemma_decimal_value(m);
    lemma_decimal_value(n);
    assert forall|i: int| 0 <= i < decimal(m).len() implies #[trigger] decimal(m)[i] != '.' by {
        assert(is_digit(decimal(m)[i]));
    }
    assert forall|i: int| 0 <= i < decimal(n).len() implies #[trigger] decimal(n)[i] != '.' by {
        assert(is_digit(decimal(n)[i]));
    }
    lemma_one_identifier(decimal(m));
    lemma_one_identifier(decimal(n));
}

proof fn lemma_words_with_start(p: Seq<char>, a: Seq<char>, b: Seq<char>)
    ensures
        word_before(p + a, p + b) == word_before(a, b),
    decreases p.len(),
{
    if p.len() == 0 {
        assert(p + a =~= a);
        assert(p + b =~= b);
    } else {
        lemma_words_with_start(p.skip(1), a, b);
        assert((p + a).skip(1) =~= p.skip(1) + a);
        assert((p + b).skip(1) =~= p.skip(1) + b);
    }
}

/// Named pre-releases compare by the first character that differs, and a name
/// comes before the longer names that it starts.
pub proof fn lemma_named_prereleases(p: Seq<char>, c: char, d: char, x: Seq<char>, y: Seq<char>)
    requires
        c != d,
        forall|i: int| 0 <= i < p.len() ==> #[trigger] p[i] != '.',
        forall|i: int| 0 <= i < x.len() ==> #[trigger] x[i] != '.',
        forall|i: int| 0 <= i < y.len() ==> #[trigger] y[i] != '.',
        c != '.' && d != '.',
        p.len() > 0 && !is_digit(p[0]),
    ensures
        prerelease_before(identifiers(p + seq![c] + x), identifiers(p + seq![d] + y)) <==> (c
            as int) < (d as int),
        prerelease_before(identifiers(p), identifiers(p + seq![c] + x)),
        !prerelease_before(identifiers(p + seq![c] + x), identifiers(p)),
{
    reveal_with_fuel(prerelease_before, 2);
    let (a, b) = (p + seq![c] + x, p + seq![d] + y);
    let (u, v) = (seq![c] + x, seq![d] + y);
    assert(a =~= p + u);
    assert(b =~= p + v);
    lemma_one_identifier(p);
    lemma_one_identifier(a);
    lemma_one_identifier(b);
    assert(a[0] == p[0] && b[0] == p[0]);
    lemma_words_with_start(p, u, v);
    assert(u[0] == c && v[0] == d);
    let none = Seq::<char>::empty();
    assert(p + none =~= p);
    lemma_words_with_start(p, none, u);
    lemma_words_with_start(p, u, none);
}

/// A number comes before a name.
pub proof fn lemma_numbers_before_names(n: nat, name: Seq<char>)
    requires
        name.len() > 0 && !is_digit(name[0]),
        forall|i: int| 0 <= i < name.len() ==> #[trigger] name[i] != '.',
    ensures
        prerelease_before(identifiers(decimal(n)), identifiers(name)),
        !prerelease_before(identifiers(name), identifiers(decimal(n))),
{
    reveal_with_fuel(prerelease_before, 2);
    lemma_decimal_value(n);
    assert forall|i: int| 0 <= i < decimal(n).len() implies #[trigger] decimal(n)[i] != '.' by {
        assert(is_digit(decimal(n)[i]));
    }
    lemma_one_identifier(decimal(n));
    lemma_one_identifier(name);
}

// ---------------------------------------------------------------------
// Comparing
// ---------------------------------------------------------------------

/// Where one thing stands with regard to another.
#[derive(Debug, Clone, Copy, PartialEq, Eq, Structural)]
pub enum Rank {
    Before,
    Same,
    After,
}

/// Where `c` stands first in `s`; the end where it does not.
pub fn find_char(s: &str, c: char) -> (r: usize)
    ensures
        r == position(s@, c),
        r <= s@.len(),
{
    let n: usize = s.unicode_len();
    let mut i: usize = 0;
    while i < n
        invariant
            i <= n,
            n == s@.len(),
            forall|k: int| 0 <= k < i ==> #[trigger] s@[k] != c,
        decreases n - i,
    {
        if s.get_char(i) == c {
            proof {
                lemma_position_is(s@, c, i as int);
            }
            return i;
        }
        i += 1;
    }
    proof {
        lemma_position_is(s@, c, n as int);
    }
    n
}

fn is_number_text(s: &str) -> (r: bool)
    ensures
        r == is_number(s@),
{
    let n: usize = s.unicode_len();
    let mut i: usize = 0;
    while i < n
        invariant
            i <= n,
            n == s@.len(),
            forall|k: int| 0 <= k < i ==> is_digit(#[trigger] s@[k]),
        decreases n - i,
    {
        let c = s.get_char(i);
        if c < '0' || c > '9' {
            assert(!is_digit(s@[i as int]));
            return false;
        }
        i += 1;
    }
    n > 0
}

/// The digit at place `i` of a number that is filled up with `lead` zeros.
fn filled_digit(s: &str, lead: usize, i: usize) -> (r: char)
    requires
        is_number(s@),
        i < lead + s@.len(),
    ensures
        r == (zeros(lead as int) + s@)[i as int],
        is_digit(r),
{
    if i < lead {
        '0'
    } else {
        s.get_char(i - lead)
    }
}

/// Compares two numbers of any length by value.
#[verifier::spinoff_prover]
#[verifier::rlimit(60)]
fn rank_numbers(a: &str, b: &str) -> (r: Rank)
    requires
        is_number(a@),
        is_number(b@),
    ensures
        r == if digits_value(a@) < digits_value(b@) {
            Rank::Before
        } else if digits_value(a@) > digits_value(b@) {
            Rank::After
        } else {
            Rank::Same
        },
{
    let la: usize = a.unicode_len();
    let lb: usize = b.unicode_len();
    let n: usize = if la < lb {
        lb
    } else {
        la
    };
    let ghost x = zeros(n - la) + a@;
    let ghost y = zeros(n - lb) + b@;
    proof {
        lemma_zeros_value((n - la) as nat, a@);
        lemma_zeros_value((n - lb) as nat, b@);
    }
    let mut r = Rank::Same;
    let mut i: usize = 0;
    while i < n
        invariant
            i <= n,
            la == a@.len(),
            lb == b@.len(),
            la <= n && lb <= n,
            is_number(a@),
            is_number(b@),
            x == zeros(n - la) + a@,
            y == zeros(n - lb) + b@,
            match r {
                Rank::Before => digits_value(x.take(i as int)) < digits_value(y.take(i as int)),
                Rank::Same => digits_value(x.take(i as int)) == digits_value(y.take(i as int)),
                Rank::After => digits_value(x.take(i as int)) > digits_value(y.take(i as int)),
            },
        decreases n - i,
    {
        let c = filled_digit(a, n - la, i);
        let d = filled_digit(b, n - lb, i);
        proof {
            lemma_digits_step(x, i as int);
            lemma_digits_step(y, i as int);
        }
        if r == Rank::Same {
            if c < d {
                r = Rank::Before;
            } else if c > d {
                r = Rank::After;
            }
        }
        i += 1;
    }
    assert(x.take(n as int) =~= x);
    assert(y.take(n as int) =~= y);
    r
}

/// Compares two words by their characters.
fn rank_words(a: &str, b: &str) -> (r: Rank)
    ensures
        r == if word_before(a@, b@) {
            Rank::Before
        } else if word_before(b@, a@) {
            Rank::After
        } else {
            Rank::Same
        },
{
    let la: usize = a.unicode_len();
    let lb: usize = b.unicode_len();
    let mut i: usize = 0;
    assert(a@.skip(0) =~= a@);
    assert(b@.skip(0) =~= b@);
    while i < la && i < lb
        invariant
            i <= la && i <= lb,
            la == a@.len(),
            lb == b@.len(),
            word_before(a@, b@) == word_before(a@.skip(i as int), b@.skip(i as int)),
            word_before(b@, a@) == word_before(b@.skip(i as int), a@.skip(i as int)),
        decreases la - i,
    {
        let c = a.get_char(i);
        let d = b.get_char(i);
        assert(a@.skip(i as int)[0] == c && b@.skip(i as int)[0] == d);
        if c < d {
            return Rank::Before;
        }
        if c > d {
            return Rank::After;
        }
        assert(a@.skip(i as int).skip(1) =~= a@.skip(i + 1));
        assert(b@.skip(i as int).skip(1) =~= b@.skip(i + 1));
        i += 1;
    }
    if i < lb {
        Rank::Before
    } else if i < la {
        Rank::After
    } else {
        Rank::Same
    }
}

/// Compares two identifiers.
fn rank_identifiers(a: &str, b: &str) -> (r: Rank)
    ensures
        r == if identifier_before(identifier(a@), identifier(b@)) {
            Rank::Before
        } else if identifier_before(identifier(b@), identifier(a@)) {
            Rank::After
        } else {
            Rank::Same
        },
{
    let m = is_number_text(a);
    let n = is_number_text(b);
    if m && n {
        rank_numbers(a, b)
    } else if m {
        Rank::Before
    } else if n {
        Rank::After
    } else {
        rank_words(a, b)
    }
}

/// Compares two pre-release parts.
pub fn rank_prereleases(a: &str, b: &str) -> (r: Rank)
    ensures
        r == if prerelease_before(identifiers(a@), identifiers(b@)) {
            Rank::Before
        } else if prerelease_before(identifiers(b@), identifiers(a@)) {
            Rank::After
        } else {
            Rank::Same
        },
    decreases a@.len(),
{
    let la: usize = a.unicode_len();
    let lb: usize = b.unicode_len();
    let ea: usize = find_char(a, '.');
    let eb: usize = find_char(b, '.');
    let x = a.substring_char(0, ea);
    let y = b.substring_char(0, eb);
    let first = rank_identifiers(x, y);
    proof {
        reveal_with_fuel(prerelease_before, 2);
        assert(x@ =~= a@.take(ea as int));
        assert(y@ =~= b@.take(eb as int));
        assert(a@.take(la as int) =~= a@);
        assert(b@.take(lb as int) =~= b@);
        let (p, q) = (identifiers(a@), identifiers(b@));
        assert(p[0] == identifier(x@) && q[0] == identifier(y@));
        lemma_identifier_order(p[0], q[0], p[0]);
        if ea < la {
            assert(p.skip(1) =~= identifiers(a@.skip(ea + 1)));
        } else {
            assert(p.skip(1).len() == 0);
        }
        if eb < lb {
            assert(q.skip(1) =~= identifiers(b@.skip(eb + 1)));
        } else {
            assert(q.skip(1).len() == 0);
        }
    }
    if first != Rank::Same {
        return first;
    }
    if ea == la {
        if eb == lb {
            return Rank::Same;
        }
        assert(identifiers(b@.skip(eb + 1)).len() > 0);
        return Rank::Before;
    }
    if eb == lb {
        assert(identifiers(a@.skip(ea + 1)).len() > 0);
        return Rank::After;
    }
    let rest_a = a.substring_char(ea + 1, la);
    let rest_b = b.substring_char(eb + 1, lb);
    assert(rest_a@ =~= a@.skip(ea + 1));
    assert(rest_b@ =~= b@.skip(eb + 1));
    rank_prereleases(rest_a, rest_b)
}

} // verus!
