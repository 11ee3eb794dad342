//! The updater's rules: which release is newer, and what the user is shown.

use crate::prerelease::{
    find_char, identifiers, lemma_position, lemma_position_is, lemma_prerelease_order, position,
    prerelease_before, rank_prereleases, Identifier, Rank,
};
use crate::text::{
    decimal, digits_value, is_digit, lemma_decimal_value, lemma_digits_step, same_but_case,
    same_text_but_case,
};
use vstd::prelude::*;
use vstd::string::*;

verus! {

/// Where the newest release is described.
pub const RELEASE_URL: &'static str = "https://api.github.com/repos/caaatto/vicash/releases/latest";

/// The file of a release that is installed.
pub const ASSET_NAME: &'static str = "vicash.exe";

/// A release that can be installed.
#[derive(Debug)]
pub struct UpdateInfo {
    pub latest_version: String,
    pub asset_url: String,
    pub notes: String,
}

impl Clone for UpdateInfo {
    fn clone(&self) -> (r: Self)
        ensures
            r == *self,
    {
        UpdateInfo {
            latest_version: self.latest_version.clone(),
            asset_url: self.asset_url.clone(),
            notes: self.notes.clone(),
        }
    }
}

/// A release as the release server describes it.
pub struct ReleaseJson {
    pub tag_name: String,
    pub body: String,
    pub assets: Vec<AssetJson>,
}

/// One file of a release.
pub struct AssetJson {
    pub name: String,
    pub browser_download_url: String,
}

/// The version without a leading `v`.
pub open spec fn without_v(s: Seq<char>) -> Seq<char> {
    if s.len() > 0 && s[0] == 'v' {
        s.skip(1)
    } else {
        s
    }
}

/// Takes a leading `v` off.
pub fn strip_v_prefix(s: &str) -> (r: &str)
    ensures
        r@ == without_v(s@),
{
    let n: usize = s.unicode_len();
    if n > 0 && s.get_char(0) == 'v' {
        let rest = s.substring_char(1, n);
        assert(rest@ =~= s@.skip(1));
        rest
    } else {
        s
    }
}

/// Whether `c` separates the parts of a version.
pub open spec fn is_separator(c: char) -> bool {
    c == '.' || c == '-'
}

/// Where the first part of a version ends.
pub open spec fn part_end(v: Seq<char>) -> int
    decreases v.len(),
{
    if v.len() == 0 || is_separator(v[0]) {
        0
    } else {
        1 + part_end(v.skip(1))
    }
}

/// Part number `k` of a version.
pub open spec fn part(v: Seq<char>, k: nat) -> Option<Seq<char>>
    decreases k,
{
    let e = part_end(v);
    if k == 0 {
        Some(v.take(e))
    } else if e == v.len() {
        None
    } else {
        part(v.skip(e + 1), (k - 1) as nat)
    }
}

/// The digits of a number, which may have a plus sign in front.
pub open spec fn unsigned(s: Seq<char>) -> Seq<char> {
    if s.len() > 0 && s[0] == '+' {
        s.skip(1)
    } else {
        s
    }
}

/// The number that a part of a version stands for; zero for a part that is
/// missing, is no number, or does not fit.
pub open spec fn part_number(p: Option<Seq<char>>) -> u32 {
    match p {
        None => 0,
        Some(s) => {
            let d = unsigned(s);
            if d.len() > 0 && (forall|i: int| 0 <= i < d.len() ==> is_digit(#[trigger] d[i]))
                && digits_value(d) <= u32::MAX {
                digits_value(d) as u32
            } else {
                0
            }
        },
    }
}

/// The three numbers of a version.
pub open spec fn version_numbers(v: Seq<char>) -> (u32, u32, u32) {
    (part_number(part(v, 0)), part_number(part(v, 1)), part_number(part(v, 2)))
}

/// A version without its build metadata, which starts at the first plus sign.
pub open spec fn without_build(v: Seq<char>) -> Seq<char> {
    v.take(position(v, '+'))
}

/// The pre-release part of a version: what stands behind the first hyphen.
pub open spec fn prerelease(v: Seq<char>) -> Option<Seq<char>> {
    let e = position(v, '-');
    if e < v.len() {
        Some(v.skip(e + 1))
    } else {
        None
    }
}

/// What decides the precedence of a version.
pub struct Version {
    pub numbers: (u32, u32, u32),
    /// The identifiers of the pre-release part; a release has none.
    pub prerelease: Option<Seq<Identifier>>,
}

/// The version that a text writes. Build metadata does not count.
pub open spec fn version(v: Seq<char>) -> Version {
    let v = without_build(v);
    Version {
        numbers: version_numbers(v),
        prerelease: match prerelease(v) {
            None => None,
            Some(p) => Some(identifiers(p)),
        },
    }
}

/// Whether the numbers `a` come after the numbers `b`.
pub open spec fn numbers_after(a: (u32, u32, u32), b: (u32, u32, u32)) -> bool {
    a.0 > b.0 || (a.0 == b.0 && (a.1 > b.1 || (a.1 == b.1 && a.2 > b.2)))
}

/// Whether version `a` comes after version `b`: by the numbers; with equal
/// numbers a release comes after its pre-releases, and these by their
/// identifiers.
pub open spec fn comes_after(a: Version, b: Version) -> bool {
    numbers_after(a.numbers, b.numbers) || (a.numbers == b.numbers && match (
        a.prerelease,
        b.prerelease,
    ) {
        (None, Some(_)) => true,
        (Some(p), Some(q)) => prerelease_before(q, p),
        (_, None) => false,
    })
}

proof fn lemma_part_end(v: Seq<char>)
    ensures
        0 <= part_end(v) <= v.len(),
        forall|i: int| 0 <= i < part_end(v) ==> !is_separator(#[trigger] v[i]),
        part_end(v) < v.len() ==> is_separator(v[part_end(v)]),
    decreases v.len(),
{
    if v.len() > 0 && !is_separator(v[0]) {
        let rest = v.skip(1);
        lemma_part_end(rest);
        assert forall|i: int| 0 <= i < part_end(v) implies !is_separator(#[trigger] v[i]) by {
            if i > 0 {
                assert(v[i] == rest[i - 1]);
            }
        }
        if part_end(v) < v.len() {
            assert(rest[part_end(rest)] == v[part_end(v)]);
        }
    }
}

proof fn lemma_part_end_is(v: Seq<char>, e: int)
    requires
        0 <= e <= v.len(),
        forall|i: int| 0 <= i < e ==> !is_separator(#[trigger] v[i]),
        e < v.len() ==> is_separator(v[e]),
    ensures
        part_end(v) == e,
{
    lemma_part_end(v);
    let p = part_end(v);
    if p < e {
        assert(!is_separator(v[p]));
    } else if e < p {
        assert(!is_separator(v[e]));
    }
}

/// Where the first part ends.
fn find_part_end(v: &str) -> (r: usize)
    ensures
        r == part_end(v@),
        r <= v@.len(),
{
    let n: usize = v.unicode_len();
    let mut i: usize = 0;
    while i < n
        invariant
            i <= n,
            n == v@.len(),
            forall|k: int| 0 <= k < i ==> !is_separator(#[trigger] v@[k]),
        decreases n - i,
    {
        let c = v.get_char(i);
        if c == '.' || c == '-' {
            proof {
                lemma_part_end_is(v@, i as int);
            }
            return i;
        }
        i += 1;
    }
    proof {
        lemma_part_end_is(v@, n as int);
    }
    n
}

/// The number that a part of a version stands for.
fn read_number(s: &str) -> (r: u32)
    ensures
        r == part_number(Some(s@)),
{
    let n: usize = s.unicode_len();
    let start: usize = if n > 0 && s.get_char(0) == '+' {
        1
    } else {
        0
    };
    let ghost d = unsigned(s@);
    if start == n {
        return 0;
    }
    let mut i: usize = start;
    let mut value: u64 = 0;
    let mut fits = true;
    assert(d.take(0).len() == 0);
    while i < n
        invariant
            n == s@.len(),
            start <= i <= n,
            start <= 1,
            d == unsigned(s@),
            d.len() == n - start,
            forall|k: int| 0 <= k < d.len() ==> #[trigger] d[k] == s@[k + start],
            forall|k: int| 0 <= k < i - start ==> is_digit(#[trigger] d[k]),
            fits ==> value == digits_value(d.take(i - start)) && value <= u32::MAX,
            !fits ==> digits_value(d.take(i - start)) > u32::MAX,
        decreases n - i,
    {
        let c = s.get_char(i);
        let ghost k = i - start;
        assert(d[k] == c);
        if c < '0' || c > '9' {
            assert(!is_digit(d[k]));
            return 0;
        }
        proof {
            lemma_digits_step(d, k);
        }
        if fits {
            value = value * 10 + (c as u32 - 48) as u64;
            if value > 4294967295 {
                fits = false;
            }
        }
        i += 1;
    }
    assert(d.take(d.len() as int) =~= d);
    if fits {
        value as u32
    } else {
        0
    }
}

/// Reads the three numbers of a version.
pub fn parse_triple(v: &str) -> (r: (u32, u32, u32))
    ensures
        r == version_numbers(v@),
{
    reveal_with_fuel(part, 3);
    let e: usize = find_part_end(v);
    let first = v.substring_char(0, e);
    assert(first@ =~= v@.take(e as int));
    let a: u32 = read_number(first);
    let n: usize = v.unicode_len();
    if e == n {
        return (a, 0, 0);
    }
    let v2 = v.substring_char(e + 1, n);
    assert(v2@ =~= v@.skip(e + 1));
    let e2: usize = find_part_end(v2);
    let second = v2.substring_char(0, e2);
    assert(second@ =~= v2@.take(e2 as int));
    let b: u32 = read_number(second);
    let n2: usize = v2.unicode_len();
    if e2 == n2 {
        return (a, b, 0);
    }
    let v3 = v2.substring_char(e2 + 1, n2);
    assert(v3@ =~= v2@.skip(e2 + 1));
    let e3: usize = find_part_end(v3);
    let third = v3.substring_char(0, e3);
    assert(third@ =~= v3@.take(e3 as int));
    let c: u32 = read_number(third);
    (a, b, c)
}

/// Takes the build metadata off.
fn strip_build(v: &str) -> (r: &str)
    ensures
        r@ == without_build(v@),
{
    let r = v.substring_char(0, find_char(v, '+'));
    assert(r@ =~= without_build(v@));
    r
}

/// The pre-release part of a version.
fn prerelease_text(v: &str) -> (r: Option<&str>)
    ensures
        match r {
            None => prerelease(v@) is None,
            Some(p) => prerelease(v@) == Some(p@),
        },
{
    let n: usize = v.unicode_len();
    let e: usize = find_char(v, '-');
    if e == n {
        return None;
    }
    let p = v.substring_char(e + 1, n);
    assert(p@ =~= v@.skip(e + 1));
    Some(p)
}

/// Whether the version `latest` comes after the version `current`, by the
/// precedence of semantic versioning.
pub fn is_newer(latest: &str, current: &str) -> (r: bool)
    ensures
        r == comes_after(version(latest@), version(current@)),
{
    let latest = strip_build(latest);
    let current = strip_build(current);
    let a = parse_triple(latest);
    let b = parse_triple(current);
    if a.0 != b.0 {
        return a.0 > b.0;
    }
    if a.1 != b.1 {
        return a.1 > b.1;
    }
    if a.2 != b.2 {
        return a.2 > b.2;
    }
    match (prerelease_text(latest), prerelease_text(current)) {
        (None, Some(_)) => true,
        (_, None) => false,
        (Some(p), Some(q)) => rank_prereleases(q, p) == Rank::Before,
    }
}

/// Newness is a strict order: no version is newer than itself, of two
/// versions at most one is newer, and of two that differ in their numbers or
/// their pre-release identifiers exactly one is; what is newer than a newer
/// one is newer.
pub proof fn lemma_newness_is_an_order(a: Version, b: Version, c: Version)
    ensures
        !comes_after(a, a),
        comes_after(a, b) ==> !comes_after(b, a),
        comes_after(a, b) || comes_after(b, a) || a == b,
        comes_after(a, b) && comes_after(b, c) ==> comes_after(a, c),
{
    let pre = |v: Version|
        match v.prerelease {
            Some(p) => p,
            None => Seq::<Identifier>::empty(),
        };
    lemma_prerelease_order(pre(a), pre(b), pre(c));
    lemma_prerelease_order(pre(c), pre(b), pre(a));
}

/// Build metadata does not count.
pub proof fn lemma_build_is_ignored(v: Seq<char>, build: Seq<char>)
    requires
        forall|i: int| 0 <= i < v.len() ==> #[trigger] v[i] != '+',
    ensures
        version(v + seq!['+'] + build) == version(v),
{
    let w = v + seq!['+'] + build;
    assert forall|i: int| 0 <= i < v.len() implies #[trigger] w[i] != '+' by {
        assert(w[i] == v[i]);
    }
    lemma_position_is(w, '+', v.len() as int);
    lemma_position_is(v, '+', v.len() as int);
    assert(w.take(v.len() as int) =~= v);
    assert(v.take(v.len() as int) =~= v);
}

proof fn lemma_part_of_decimal(n: u32, rest: Seq<char>)
    requires
        rest.len() > 0 ==> is_separator(rest[0]),
    ensures
        part_end(decimal(n as nat) + rest) == decimal(n as nat).len(),
        (decimal(n as nat) + rest).take(decimal(n as nat).len() as int) == decimal(n as nat),
        part_number(Some(decimal(n as nat))) == n,
{
    let d = decimal(n as nat);
    lemma_decimal_value(n as nat);
    let v = d + rest;
    assert forall|i: int| 0 <= i < d.len() implies !is_separator(#[trigger] v[i]) by {
        assert(is_digit(d[i]));
    }
    lemma_part_end_is(v, d.len() as int);
    assert(v.take(d.len() as int) =~= d);
    assert(is_digit(d[0]));
    assert(unsigned(d) == d);
}

/// Three numbers with dots between them.
pub open spec fn number_chars(a: u32, b: u32, c: u32) -> Seq<char> {
    decimal(a as nat) + seq!['.'] + decimal(b as nat) + seq!['.'] + decimal(c as nat)
}

/// A version that is written as three numbers reads as these numbers, with or
/// without a suffix behind a hyphen.
pub proof fn lemma_version_reads(a: u32, b: u32, c: u32, suffix: Seq<char>)
    requires
        suffix.len() > 0 ==> suffix[0] == '-',
    ensures
        version_numbers(number_chars(a, b, c) + suffix) == (a, b, c),
{
    reveal_with_fuel(part, 3);
    let third = decimal(c as nat) + suffix;
    let second = decimal(b as nat) + (seq!['.'] + third);
    let v = decimal(a as nat) + (seq!['.'] + second);
    assert(v =~= number_chars(a, b, c) + suffix);
    lemma_part_of_decimal(a, seq!['.'] + second);
    lemma_part_of_decimal(b, seq!['.'] + third);
    lemma_part_of_decimal(c, suffix);
    assert(v.skip(decimal(a as nat).len() + 1int) =~= second);
    assert(second.skip(decimal(b as nat).len() + 1int) =~= third);
}

proof fn lemma_numbers_are_plain(a: u32, b: u32, c: u32)
    ensures
        forall|i: int|
            0 <= i < number_chars(a, b, c).len() ==> #[trigger] number_chars(a, b, c)[i] != '+'
                && number_chars(a, b, c)[i] != '-',
{
    let (x, y, z) = (decimal(a as nat), decimal(b as nat), decimal(c as nat));
    lemma_decimal_value(a as nat);
    lemma_decimal_value(b as nat);
    lemma_decimal_value(c as nat);
    let s = number_chars(a, b, c);
    assert forall|i: int| 0 <= i < s.len() implies #[trigger] s[i] != '+' && s[i] != '-' by {
        let j = i - x.len() - 1;
        let k = j - y.len() - 1;
        if i < x.len() {
            assert(s[i] == x[i] && is_digit(x[i]));
        } else if j < 0 {
            assert(s[i] == '.');
        } else if j < y.len() {
            assert(s[i] == y[j] && is_digit(y[j]));
        } else if k < 0 {
            assert(s[i] == '.');
        } else {
            assert(s[i] == z[k] && is_digit(z[k]));
        }
    }
}

/// A release is newer than each of its own pre-releases.
pub proof fn lemma_release_after_prerelease(a: u32, b: u32, c: u32, suffix: Seq<char>)
    requires
        suffix.len() > 0 && suffix[0] == '-',
    ensures
        comes_after(version(number_chars(a, b, c)), version(number_chars(a, b, c) + suffix)),
{
    let s = number_chars(a, b, c);
    let n = s.len() as int;
    lemma_numbers_are_plain(a, b, c);
    lemma_position_is(s, '+', n);
    lemma_position_is(s, '-', n);
    assert(s.take(n) =~= s);
    assert(s + Seq::<char>::empty() =~= s);
    lemma_version_reads(a, b, c, Seq::empty());

    let k = position(suffix, '+');
    lemma_position(suffix, '+');
    let whole = s + suffix;
    let cut = suffix.take(k);
    assert forall|i: int| 0 <= i < n + k implies #[trigger] whole[i] != '+' by {
        if i < n {
            assert(whole[i] == s[i]);
        } else {
            assert(whole[i] == suffix[i - n]);
        }
    }
    lemma_position_is(whole, '+', n + k);
    assert(whole.take(n + k) =~= s + cut);
    let w = s + cut;
    assert forall|i: int| 0 <= i < n implies #[trigger] w[i] != '-' by {
        assert(w[i] == s[i]);
    }
    lemma_position_is(w, '-', n);
    lemma_version_reads(a, b, c, cut);
}

/// A suffix that a version may have behind its numbers.
pub open spec fn is_suffix(s: Seq<char>) -> bool {
    s.len() == 0 || s[0] == '-' || s[0] == '+'
}

proof fn lemma_version_with_suffix(a: u32, b: u32, c: u32, suffix: Seq<char>)
    requires
        is_suffix(suffix),
    ensures
        version(number_chars(a, b, c) + suffix).numbers == (a, b, c),
        suffix.len() == 0 ==> version(number_chars(a, b, c) + suffix).prerelease is None,
{
    let s = number_chars(a, b, c);
    let n = s.len() as int;
    let whole = s + suffix;
    lemma_numbers_are_plain(a, b, c);
    let k = position(suffix, '+');
    lemma_position(suffix, '+');
    let cut = suffix.take(k);
    assert forall|i: int| 0 <= i < n + k implies #[trigger] whole[i] != '+' by {
        if i < n {
            assert(whole[i] == s[i]);
        } else {
            assert(whole[i] == suffix[i - n]);
        }
    }
    lemma_position_is(whole, '+', n + k);
    assert(whole.take(n + k) =~= s + cut);
    if cut.len() > 0 {
        assert(suffix[0] != '+');
    }
    lemma_version_reads(a, b, c, cut);
    if suffix.len() == 0 {
        assert(s + cut =~= s);
        lemma_position_is(s, '-', n);
    }
}

/// Versions compare by their numbers, the first that differs deciding by its
/// value: read as the digits of one large number, the larger one is newer,
/// whatever follows the numbers. Of two releases this decides alone.
pub proof fn lemma_larger_numbers_are_newer(
    a: (u32, u32, u32),
    b: (u32, u32, u32),
    s: Seq<char>,
    t: Seq<char>,
)
    requires
        is_suffix(s),
        is_suffix(t),
    ensures
        ({
            let x = (a.0 * 0x1_0000_0000 + a.1) * 0x1_0000_0000 + a.2;
            let y = (b.0 * 0x1_0000_0000 + b.1) * 0x1_0000_0000 + b.2;
            let v = version(number_chars(a.0, a.1, a.2) + s);
            let w = version(number_chars(b.0, b.1, b.2) + t);
            &&& x > y ==> comes_after(v, w)
            &&& x < y ==> !comes_after(v, w)
            &&& s.len() == 0 && t.len() == 0 ==> (comes_after(v, w) <==> x > y)
        }),
{
    lemma_version_with_suffix(a.0, a.1, a.2, s);
    lemma_version_with_suffix(b.0, b.1, b.2, t);
}

/// With equal numbers the pre-release parts decide.
pub proof fn lemma_prereleases_decide(a: u32, b: u32, c: u32, p: Seq<char>, q: Seq<char>)
    requires
        forall|i: int| 0 <= i < p.len() ==> #[trigger] p[i] != '+',
        forall|i: int| 0 <= i < q.len() ==> #[trigger] q[i] != '+',
    ensures
        comes_after(
            version(number_chars(a, b, c) + seq!['-'] + p),
            version(number_chars(a, b, c) + seq!['-'] + q),
        ) <==> prerelease_before(identifiers(q), identifiers(p)),
{
    lemma_version_with_prerelease(a, b, c, p);
    lemma_version_with_prerelease(a, b, c, q);
}

proof fn lemma_version_with_prerelease(a: u32, b: u32, c: u32, p: Seq<char>)
    requires
        forall|i: int| 0 <= i < p.len() ==> #[trigger] p[i] != '+',
    ensures
        version(number_chars(a, b, c) + seq!['-'] + p).numbers == (a, b, c),
        version(number_chars(a, b, c) + seq!['-'] + p).prerelease == Some(identifiers(p)),
{
    let s = number_chars(a, b, c);
    let n = s.len() as int;
    let v = s + seq!['-'] + p;
    lemma_numbers_are_plain(a, b, c);
    assert forall|i: int| 0 <= i < v.len() implies #[trigger] v[i] != '+' by {
        if i < n {
            assert(v[i] == s[i]);
        } else if i > n {
            assert(v[i] == p[i - n - 1]);
        }
    }
    lemma_position_is(v, '+', v.len() as int);
    assert(v.take(v.len() as int) =~= v);
    assert forall|i: int| 0 <= i < n implies #[trigger] v[i] != '-' by {
        assert(v[i] == s[i]);
    }
    lemma_position_is(v, '-', n);
    assert(v.skip(n + 1) =~= p);
    assert(v =~= s + (seq!['-'] + p));
    lemma_version_reads(a, b, c, seq!['-'] + p);
}

/// A tag with a leading `v` stands for the same version as without it.
pub proof fn lemma_tag_prefix(v: Seq<char>)
    ensures
        without_v(seq!['v'] + v) == v,
        v.len() > 0 && v[0] != 'v' ==> without_v(v) == v,
{
    assert((seq!['v'] + v).skip(1) =~= v);
}

/// Whether an asset is the program.
pub open spec fn is_program(a: AssetJson) -> bool {
    same_but_case(a.name@, ASSET_NAME@)
}

/// The first asset that is the program.
pub open spec fn program_asset(assets: Seq<AssetJson>) -> Option<AssetJson>
    decreases assets.len(),
{
    if assets.len() == 0 {
        None
    } else if is_program(assets[0]) {
        Some(assets[0])
    } else {
        program_asset(assets.skip(1))
    }
}

/// The asset that is installed is the first of the release that is named like
/// the program, but for case.
pub proof fn lemma_program_asset(assets: Seq<AssetJson>, k: int)
    requires
        0 <= k < assets.len(),
        same_but_case(assets[k].name@, "vicash.exe"@),
        forall|i: int|
            0 <= i < k ==> !same_but_case((#[trigger] assets[i]).name@, "vicash.exe"@),
    ensures
        program_asset(assets) == Some(assets[k]),
    decreases assets.len(),
{
    if k > 0 {
        assert(!same_but_case(assets[0].name@, "vicash.exe"@));
        let rest = assets.skip(1);
        assert(rest[k - 1] == assets[k]);
        assert forall|i: int| 0 <= i < k - 1 implies !same_but_case(
            (#[trigger] rest[i]).name@,
            "vicash.exe"@,
        ) by {
            assert(rest[i] == assets[i + 1]);
        }
        lemma_program_asset(rest, k - 1);
    }
}

/// Why a release cannot be installed.
pub open spec fn no_program_chars(tag: Seq<char>) -> Seq<char> {
    "release "@ + tag + " has no vicash.exe asset"@
}

/// Where the first asset that is the program stands.
fn find_program(assets: &[AssetJson]) -> (r: Option<usize>)
    ensures
        match r {
            Some(i) => i < assets@.len() && program_asset(assets@) == Some(assets@[i as int]),
            None => program_asset(assets@) is None,
        },
{
    assert(assets@.skip(0) =~= assets@);
    let mut i: usize = 0;
    while i < assets.len()
        invariant
            i <= assets@.len(),
            program_asset(assets@) == program_asset(assets@.skip(i as int)),
        decreases assets@.len() - i,
    {
        assert(assets@.skip(i as int)[0] == assets@[i as int]);
        if same_text_but_case(assets[i].name.as_str(), ASSET_NAME) {
            return Some(i);
        }
        assert(assets@.skip(i as int).skip(1) =~= assets@.skip(i + 1));
        i += 1;
    }
    None
}

/// What a release means for a program of version `current`: an update, where
/// the release is strictly newer and has the program; nothing, where it is
/// not newer.
pub fn evaluate_release(release: &ReleaseJson, current: &str) -> (r: Result<
    Option<UpdateInfo>,
    String,
>)
    ensures
        ({
            let latest = without_v(release.tag_name@);
            let newer = comes_after(version(latest), version(current@));
            match r {
                Ok(None) => !newer,
                Ok(Some(info)) => {
                    &&& newer
                    &&& program_asset(release.assets@) matches Some(a)
                    &&& info.latest_version@ == latest
                    &&& info.asset_url@ == a.browser_download_url@
                    &&& info.notes@ == release.body@
                },
                Err(why) => {
                    &&& newer
                    &&& program_asset(release.assets@) is None
                    &&& why@ == no_program_chars(release.tag_name@)
                },
            }
        }),
{
    let latest = strip_v_prefix(release.tag_name.as_str());
    if !is_newer(latest, current) {
        return Ok(None);
    }
    match find_program(release.assets.as_slice()) {
        Some(i) => Ok(
            Some(
                UpdateInfo {
                    latest_version: latest.to_owned(),
                    asset_url: release.assets[i].browser_download_url.clone(),
                    notes: release.body.clone(),
                },
            ),
        ),
        None => {
            let mut why = String::new();
            why.append("release ");
            why.append(release.tag_name.as_str());
            why.append(" has no vicash.exe asset");
            assert(why@ =~= no_program_chars(release.tag_name@));
            Err(why)
        },
    }
}

/// How the program names itself to the release server.
pub fn user_agent(current: &str) -> (r: String)
    ensures
        r@ == "vicash/"@ + current@,
{
    let mut s = String::new();
    s.append("vicash/");
    s.append(current);
    assert(s@ =~= "vicash/"@ + current@);
    s
}

/// What the user is shown of the updater.
pub enum UpdateCheck {
    Idle,
    Checking,
    UpToDate,
    Available(UpdateInfo),
    /// An update is being installed.
    Applying,
    Failed(String),
}

impl Clone for UpdateCheck {
    fn clone(&self) -> (r: Self)
        ensures
            r == *self,
    {
        match self {
            UpdateCheck::Idle => UpdateCheck::Idle,
            UpdateCheck::Checking => UpdateCheck::Checking,
            UpdateCheck::UpToDate => UpdateCheck::UpToDate,
            UpdateCheck::Available(info) => UpdateCheck::Available(info.clone()),
            UpdateCheck::Applying => UpdateCheck::Applying,
            UpdateCheck::Failed(why) => UpdateCheck::Failed(why.clone()),
        }
    }
}

impl Default for UpdateCheck {
    fn default() -> (r: Self)
        ensures
            r is Idle,
    {
        UpdateCheck::Idle
    }
}

/// State that the settings panel shows: the outcome of the last check, or
/// what is under way. The threads share it behind a lock.
pub struct UpdaterState {
    pub last_check_result: UpdateCheck,
}

impl Default for UpdaterState {
    fn default() -> (r: Self)
        ensures
            r.last_check_result is Idle,
    {
        UpdaterState { last_check_result: UpdateCheck::Idle }
    }
}

impl UpdaterState {
    /// Nothing checked yet.
    pub fn new() -> (r: Self)
        ensures
            r.last_check_result is Idle,
    {
        UpdaterState { last_check_result: UpdateCheck::Idle }
    }

    /// A check has started.
    pub fn begin_check(&mut self)
        ensures
            final(self).last_check_result is Checking,
    {
        self.last_check_result = UpdateCheck::Checking;
    }

    /// A check has ended.
    pub fn finish_check(&mut self, outcome: Result<Option<UpdateInfo>, String>)
        ensures
            final(self).last_check_result == match outcome {
                Ok(Some(info)) => UpdateCheck::Available(info),
                Ok(None) => UpdateCheck::UpToDate,
                Err(why) => UpdateCheck::Failed(why),
            },
    {
        self.last_check_result = match outcome {
            Ok(Some(info)) => UpdateCheck::Available(info),
            Ok(None) => UpdateCheck::UpToDate,
            Err(why) => UpdateCheck::Failed(why),
        };
    }

    /// An update is being installed.
    pub fn begin_apply(&mut self)
        ensures
            final(self).last_check_result is Applying,
    {
        self.last_check_result = UpdateCheck::Applying;
    }

    /// An update could not be installed.
    pub fn apply_failed(&mut self, why: String)
        ensures
            final(self).last_check_result == UpdateCheck::Failed(why),
    {
        self.last_check_result = UpdateCheck::Failed(why);
    }
}

/// A part of a version that is written as a number stands for it, where it
/// fits, with or without a plus sign in front; one that does not fit, like a
/// part that is missing, stands for zero.
pub proof fn lemma_part_reads(n: nat)
    ensures
        n <= u32::MAX ==> part_number(Some(decimal(n))) == n && part_number(
            Some(seq!['+'] + decimal(n)),
        ) == n,
        n > u32::MAX ==> part_number(Some(decimal(n))) == 0,
        part_number(None) == 0,
{
    let d = decimal(n);
    lemma_decimal_value(n);
    assert(is_digit(d[0]));
    assert(unsigned(d) == d);
    assert((seq!['+'] + d).skip(1) =~= d);
    assert((seq!['+'] + d)[0] == '+');
}

} // verus!
