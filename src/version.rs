//! Version strings, their comparable keys, and the order on those keys.

use vstd::prelude::*;

verus! {

/// Whether `c` is an ASCII decimal digit.
pub open spec fn is_digit(c: char) -> bool {
    '0' <= c && c <= '9'
}

/// Whether `c` may stand in a standard release: a digit or a dot.
pub open spec fn is_release_char(c: char) -> bool {
    is_digit(c) || c == '.'
}

/// A standard release is made of ASCII digits and dots alone.
pub open spec fn is_standard_release(v: Seq<char>) -> bool {
    forall|i: int| 0 <= i < v.len() ==> #[trigger] is_release_char(v[i])
}

/// Whether `version` is a standard release (only ASCII digits and `.`);
/// anything else marks a pre-release.
pub fn standard_release(version: &str) -> (r: bool)
    ensures
        r == is_standard_release(version@),
{
    let n = version.unicode_len();
    let mut i: usize = 0;
    while i < n
        invariant
            n == version@.len(),
            i <= n,
            forall|j: int| 0 <= j < i ==> #[trigger] is_release_char(version@[j]),
        decreases n - i,
    {
        let c = version.get_char(i);
        if !(('0' <= c && c <= '9') || c == '.') {
            assert(!is_release_char(version@[i as int]));
            return false;
        }
        i += 1;
    }
    true
}


/// The texts of a vector of strings.
pub open spec fn texts(v: Seq<String>) -> Seq<Seq<char>> {
    v.map_values(|t: String| t@)
}

/// Lexicographic comparison of two texts by code point: -1, 0 or 1, as
/// `Ord` on `str` orders them.
pub open spec fn text_cmp(a: Seq<char>, b: Seq<char>) -> int
    decreases a.len(),
{
    if a.len() == 0 {
        if b.len() == 0 {
            0
        } else {
            -1
        }
    } else if b.len() == 0 {
        1
    } else if a[0] < b[0] {
        -1
    } else if a[0] > b[0] {
        1
    } else {
        text_cmp(a.drop_first(), b.drop_first())
    }
}

/// Lexicographic comparison of two keys, part by part: -1, 0 or 1, as `Ord`
/// on `Vec<String>` orders them.
pub open spec fn key_cmp(a: Seq<Seq<char>>, b: Seq<Seq<char>>) -> int
    decreases a.len(),
{
    if a.len() == 0 {
        if b.len() == 0 {
            0
        } else {
            -1
        }
    } else if b.len() == 0 {
        1
    } else if text_cmp(a[0], b[0]) != 0 {
        text_cmp(a[0], b[0])
    } else {
        key_cmp(a.drop_first(), b.drop_first())
    }
}

proof fn lemma_text_cmp_props(a: Seq<char>, b: Seq<char>)
    ensures
        text_cmp(a, b) == -text_cmp(b, a),
        -1 <= text_cmp(a, b) <= 1,
        text_cmp(a, b) == 0 <==> a == b,
    decreases a.len(),
{
    if a.len() == 0 && b.len() == 0 {
        assert(a =~= b);
    }
    if a.len() > 0 && b.len() > 0 && a[0] == b[0] {
        lemma_text_cmp_props(a.drop_first(), b.drop_first());
        if a.drop_first() == b.drop_first() {
            assert(a =~= seq![a[0]] + a.drop_first());
            assert(b =~= seq![b[0]] + b.drop_first());
        }
    }
}

proof fn lemma_text_cmp_trans(a: Seq<char>, b: Seq<char>, c: Seq<char>)
    requires
        text_cmp(a, b) < 0,
        text_cmp(b, c) < 0,
    ensures
        text_cmp(a, c) < 0,
    decreases a.len(),
{
    if a.len() > 0 && b.len() > 0 && c.len() > 0 && a[0] == b[0] && b[0] == c[0] {
        lemma_text_cmp_trans(a.drop_first(), b.drop_first(), c.drop_first());
    }
}

proof fn lemma_key_cmp_props(a: Seq<Seq<char>>, b: Seq<Seq<char>>)
    ensures
        key_cmp(a, b) == -key_cmp(b, a),
        -1 <= key_cmp(a, b) <= 1,
        key_cmp(a, b) == 0 <==> a == b,
    decreases a.len(),
{
    if a.len() == 0 && b.len() == 0 {
        assert(a =~= b);
    }
    if a.len() > 0 && b.len() > 0 {
        lemma_text_cmp_props(a[0], b[0]);
        if a[0] == b[0] {
            lemma_key_cmp_props(a.drop_first(), b.drop_first());
            if a.drop_first() == b.drop_first() {
                assert(a =~= seq![a[0]] + a.drop_first());
                assert(b =~= seq![b[0]] + b.drop_first());
            }
        }
    }
}

proof fn lemma_key_cmp_trans(a: Seq<Seq<char>>, b: Seq<Seq<char>>, c: Seq<Seq<char>>)
    requires
        key_cmp(a, b) < 0,
        key_cmp(b, c) < 0,
    ensures
        key_cmp(a, c) < 0,
    decreases a.len(),
{
    if a.len() > 0 && b.len() > 0 && c.len() > 0 {
        lemma_text_cmp_props(a[0], b[0]);
        lemma_text_cmp_props(b[0], c[0]);
        lemma_text_cmp_props(a[0], c[0]);
        if text_cmp(a[0], b[0]) < 0 && text_cmp(b[0], c[0]) < 0 {
            lemma_text_cmp_trans(a[0], b[0], c[0]);
        }
        if a[0] == b[0] && b[0] == c[0] {
            lemma_key_cmp_trans(a.drop_first(), b.drop_first(), c.drop_first());
        }
    }
}

/// The order on keys is total: of `a < b`, `a == b` and `a > b` exactly one
/// holds, and `b` compares to `a` the opposite way.
pub proof fn lemma_key_order_total(a: Seq<Seq<char>>, b: Seq<Seq<char>>)
    ensures
        key_cmp(a, b) == -key_cmp(b, a),
        key_cmp(a, b) < 0 || a == b || key_cmp(a, b) > 0,
        !(key_cmp(a, b) < 0 && a == b),
        !(key_cmp(a, b) > 0 && a == b),
        !(key_cmp(a, b) < 0 && key_cmp(a, b) > 0),
{
    lemma_key_cmp_props(a, b);
}

/// The order on keys is transitive, for `<` and for `<=`.
pub proof fn lemma_key_order_transitive(a: Seq<Seq<char>>, b: Seq<Seq<char>>, c: Seq<Seq<char>>)
    ensures
        key_cmp(a, b) < 0 && key_cmp(b, c) < 0 ==> key_cmp(a, c) < 0,
        key_cmp(a, b) <= 0 && key_cmp(b, c) <= 0 ==> key_cmp(a, c) <= 0,
        key_cmp(a, b) <= 0 && key_cmp(b, c) < 0 ==> key_cmp(a, c) < 0,
        key_cmp(a, b) < 0 && key_cmp(b, c) <= 0 ==> key_cmp(a, c) < 0,
{
    lemma_key_cmp_props(a, b);
    lemma_key_cmp_props(b, c);
    lemma_key_cmp_props(a, c);
    if key_cmp(a, b) < 0 && key_cmp(b, c) < 0 {
        lemma_key_cmp_trans(a, b, c);
    }
}

/// Compares two texts by code point: -1, 0 or 1.
pub fn compare_text(a: &str, b: &str) -> (r: i8)
    ensures
        r as int == text_cmp(a@, b@),
{
    let n = a.unicode_len();
    let m = b.unicode_len();
    let mut i: usize = 0;
    assert(a@.skip(0) =~= a@);
    assert(b@.skip(0) =~= b@);
    while i < n && i < m
        invariant
            n == a@.len(),
            m == b@.len(),
            i <= n,
            i <= m,
            text_cmp(a@, b@) == text_cmp(a@.skip(i as int), b@.skip(i as int)),
        decreases n - i,
    {
        let x = a.get_char(i);
        let y = b.get_char(i);
        if x < y {
            return -1;
        }
        if x > y {
            return 1;
        }
        assert(a@.skip(i as int).drop_first() =~= a@.skip(i + 1));
        assert(b@.skip(i as int).drop_first() =~= b@.skip(i + 1));
        i += 1;
    }
    if i < n {
        1
    } else if i < m {
        -1
    } else {
        0
    }
}

/// Whether two texts are equal.
pub fn same_text(a: &str, b: &str) -> (r: bool)
    ensures
        r == (a@ == b@),
{
    proof {
        lemma_text_cmp_props(a@, b@);
    }
    compare_text(a, b) == 0
}

/// Compares two version keys part by part: -1, 0 or 1.
pub fn compare_keys(a: &Vec<String>, b: &Vec<String>) -> (r: i8)
    ensures
        r as int == key_cmp(texts(a@), texts(b@)),
{
    let n = a.len();
    let m = b.len();
    let mut i: usize = 0;
    assert(texts(a@).skip(0) =~= texts(a@));
    assert(texts(b@).skip(0) =~= texts(b@));
    while i < n && i < m
        invariant
            n == a@.len(),
            m == b@.len(),
            i <= n,
            i <= m,
            key_cmp(texts(a@), texts(b@)) == key_cmp(
                texts(a@).skip(i as int),
                texts(b@).skip(i as int),
            ),
        decreases n - i,
    {
        let c = compare_text(a[i].as_str(), b[i].as_str());
        if c != 0 {
            return c;
        }
        assert(texts(a@).skip(i as int).drop_first() =~= texts(a@).skip(i + 1));
        assert(texts(b@).skip(i as int).drop_first() =~= texts(b@).skip(i + 1));
        i += 1;
    }
    if i < n {
        1
    } else if i < m {
        -1
    } else {
        0
    }
}


/// Whether `c` is a lower-case ASCII letter.
pub open spec fn is_letter(c: char) -> bool {
    'a' <= c && c <= 'z'
}

/// Whether `c` belongs to a run of digits (`digits`) or of letters.
pub open spec fn in_run(c: char, digits: bool) -> bool {
    if digits {
        is_digit(c)
    } else {
        is_letter(c)
    }
}

/// The length of the longest prefix of `s` made of digits (or of letters).
pub open spec fn run_len(s: Seq<char>, digits: bool) -> nat
    decreases s.len(),
{
    if s.len() > 0 && in_run(s[0], digits) {
        1 + run_len(s.drop_first(), digits)
    } else {
        0
    }
}

/// The parts of `s`, read left to right: each maximal run of digits, each
/// maximal run of lower-case letters, and each single `.` or `-`. Every other
/// character is skipped.
pub open spec fn raw_parts(s: Seq<char>) -> Seq<Seq<char>>
    decreases s.len()
    via raw_parts_decreases

{
    if s.len() == 0 {
        Seq::empty()
    } else if is_digit(s[0]) || is_letter(s[0]) {
        let n = 1 + run_len(s.drop_first(), is_digit(s[0]));
        seq![s.take(n as int)] + raw_parts(s.skip(n as int))
    } else if s[0] == '.' || s[0] == '-' {
        seq![s.take(1)] + raw_parts(s.skip(1))
    } else {
        raw_parts(s.skip(1))
    }
}

proof fn lemma_run_len_bound(t: Seq<char>, digits: bool)
    ensures
        run_len(t, digits) <= t.len(),
    decreases t.len(),
{
    if t.len() > 0 {
        lemma_run_len_bound(t.drop_first(), digits);
    }
}

#[via_fn]
proof fn raw_parts_decreases(s: Seq<char>) {
    if s.len() > 0 {
        lemma_run_len_bound(s.drop_first(), is_digit(s[0]));
    }
}

proof fn lemma_run_len(t: Seq<char>, digits: bool, n: int)
    requires
        0 <= n <= t.len(),
        forall|k: int| 0 <= k < n ==> #[trigger] in_run(t[k], digits),
        n == t.len() || !in_run(t[n], digits),
    ensures
        run_len(t, digits) == n,
    decreases n,
{
    if n > 0 {
        assert forall|k: int| 0 <= k < n - 1 implies #[trigger] in_run(
            t.drop_first()[k],
            digits,
        ) by {
            assert(in_run(t[k + 1], digits));
        }
        lemma_run_len(t.drop_first(), digits, n - 1);
    }
}

fn char_in_run(c: char, digits: bool) -> (r: bool)
    ensures
        r == in_run(c, digits),
{
    if digits {
        '0' <= c && c <= '9'
    } else {
        'a' <= c && c <= 'z'
    }
}

/// Splits `s` into its raw parts.
fn scan_parts(s: &str) -> (r: Vec<String>)
    ensures
        texts(r@) == raw_parts(s@),
{
    let n = s.unicode_len();
    let mut parts: Vec<String> = Vec::new();
    let mut i: usize = 0;
    assert(s@.skip(0) =~= s@);
    while i < n
        invariant
            n == s@.len(),
            i <= n,
            texts(parts@) + raw_parts(s@.skip(i as int)) == raw_parts(s@),
        decreases n - i,
    {
        let ghost rest = s@.skip(i as int);
        let c = s.get_char(i);
        let digit = '0' <= c && c <= '9';
        let letter = 'a' <= c && c <= 'z';
        if digit || letter {
            let mut j: usize = i + 1;
            while j < n && char_in_run(s.get_char(j), digit)
                invariant
                    n == s@.len(),
                    i < j <= n,
                    rest == s@.skip(i as int),
                    digit == is_digit(s@[i as int]),
                    forall|k: int| i <= k < j ==> #[trigger] in_run(s@[k], digit),
                decreases n - j,
            {
                j += 1;
            }
            proof {
                assert forall|k: int| 0 <= k < j - i implies #[trigger] in_run(rest[k], digit) by {
                    assert(in_run(s@[i + k], digit));
                }
                lemma_run_len(rest, digit, j - i);
                assert(rest.take(j - i) =~= s@.subrange(i as int, j as int));
                assert(rest.skip(j - i) =~= s@.skip(j as int));
            }
            let part = String::from_str(s.substring_char(i, j));
            let ghost before = parts@;
            parts.push(part);
            proof {
                assert(texts(parts@) =~= texts(before).push(part@));
                assert(texts(parts@) + raw_parts(s@.skip(j as int)) =~= texts(before) + raw_parts(
                    rest,
                ));
            }
            i = j;
        } else if c == '.' || c == '-' {
            proof {
                assert(rest.take(1) =~= s@.subrange(i as int, i + 1));
                assert(rest.skip(1) =~= s@.skip(i + 1));
            }
            let part = String::from_str(s.substring_char(i, i + 1));
            let ghost before = parts@;
            parts.push(part);
            proof {
                assert(texts(parts@) =~= texts(before).push(part@));
                assert(texts(parts@) + raw_parts(s@.skip(i + 1)) =~= texts(before) + raw_parts(
                    rest,
                ));
            }
            i = i + 1;
        } else {
            assert(rest.skip(1) =~= s@.skip(i + 1));
            i = i + 1;
        }
    }
    assert(raw_parts(s@.skip(n as int)) =~= Seq::<Seq<char>>::empty()) by {
        assert(s@.skip(n as int).len() == 0);
    }
    assert(texts(parts@) + Seq::<Seq<char>>::empty() =~= texts(parts@));
    parts
}


/// Width to which numeric parts are zero-padded.
pub const NUMERIC_WIDTH: usize = 8;

/// The spelling that a raw part takes in a key: the pre-release words
/// `pre`, `preview` and `rc` become `c`, `dev` becomes `@`, `alpha` and
/// `beta` become `a` and `b`, and `-` becomes `final-`.
pub open spec fn normalized(p: Seq<char>) -> Seq<char> {
    if p == seq!['p', 'r', 'e'] || p == seq!['p', 'r', 'e', 'v', 'i', 'e', 'w'] || p == seq![
        'r',
        'c',
    ] {
        seq!['c']
    } else if p == seq!['d', 'e', 'v'] {
        seq!['@']
    } else if p == seq!['a', 'l', 'p', 'h', 'a'] {
        seq!['a']
    } else if p == seq!['b', 'e', 't', 'a'] {
        seq!['b']
    } else if p == seq!['-'] {
        seq!['f', 'i', 'n', 'a', 'l', '-']
    } else {
        p
    }
}

/// `p` left-padded with `0` to `NUMERIC_WIDTH` characters.
pub open spec fn padded(p: Seq<char>) -> Seq<char> {
    if p.len() < NUMERIC_WIDTH {
        Seq::new((NUMERIC_WIDTH - p.len()) as nat, |i: int| '0') + p
    } else {
        p
    }
}

/// The key part of a normalized part: numbers are padded, anything else is
/// tagged with a leading `*`.
pub open spec fn encoded(p: Seq<char>) -> Seq<char> {
    if p.len() > 0 && is_digit(p[0]) {
        padded(p)
    } else {
        seq!['*'] + p
    }
}

/// The encoded parts, in order, with the dots (and anything empty) dropped.
pub open spec fn encode_parts(ps: Seq<Seq<char>>) -> Seq<Seq<char>>
    decreases ps.len(),
{
    if ps.len() == 0 {
        Seq::empty()
    } else {
        let rest = encode_parts(ps.drop_last());
        let p = normalized(ps.last());
        if p.len() == 0 || p == seq!['.'] {
            rest
        } else {
            rest.push(encoded(p))
        }
    }
}

/// The part that closes every key.
pub open spec fn final_part() -> Seq<char> {
    seq!['*', 'f', 'i', 'n', 'a', 'l']
}

/// The part that a `-` becomes.
pub open spec fn dash_part() -> Seq<char> {
    seq!['*', 'f', 'i', 'n', 'a', 'l', '-']
}

/// A padded zero.
pub open spec fn zero_part() -> Seq<char> {
    Seq::new(NUMERIC_WIDTH as nat, |i: int| '0')
}

/// `acc` without the run of parts equal to `t` at its end.
pub open spec fn pop_all(acc: Seq<Seq<char>>, t: Seq<char>) -> Seq<Seq<char>>
    decreases acc.len(),
{
    if acc.len() > 0 && acc.last() == t {
        pop_all(acc.drop_last(), t)
    } else {
        acc
    }
}

/// Appends `p` to `acc`. Before a tagged part, trailing zeros are dropped,
/// and before a tag that sorts below `*final`, trailing dash parts first.
pub open spec fn settle(acc: Seq<Seq<char>>, p: Seq<char>) -> Seq<Seq<char>> {
    if p.len() > 0 && p[0] == '*' {
        let a = if text_cmp(p, final_part()) < 0 {
            pop_all(acc, dash_part())
        } else {
            acc
        };
        pop_all(a, zero_part()).push(p)
    } else {
        acc.push(p)
    }
}

/// `settle` applied to each part of `ps` in turn, from an empty start.
pub open spec fn settle_all(ps: Seq<Seq<char>>) -> Seq<Seq<char>>
    decreases ps.len(),
{
    if ps.len() == 0 {
        Seq::empty()
    } else {
        settle(settle_all(ps.drop_last()), ps.last())
    }
}

/// The comparable key of a version string that is already in lower case.
pub open spec fn version_key(s: Seq<char>) -> Seq<Seq<char>> {
    settle_all(encode_parts(raw_parts(s)).push(final_part()))
}

fn normalize_part(p: &str) -> (r: String)
    ensures
        r@ == normalized(p@),
{
    proof {
        reveal_strlit("pre");
        reveal_strlit("preview");
        reveal_strlit("rc");
        reveal_strlit("dev");
        reveal_strlit("alpha");
        reveal_strlit("beta");
        reveal_strlit("-");
        reveal_strlit("c");
        reveal_strlit("@");
        reveal_strlit("a");
        reveal_strlit("b");
        reveal_strlit("final-");
    }
    assert("pre"@ =~= seq!['p', 'r', 'e']);
    assert("preview"@ =~= seq!['p', 'r', 'e', 'v', 'i', 'e', 'w']);
    assert("rc"@ =~= seq!['r', 'c']);
    assert("dev"@ =~= seq!['d', 'e', 'v']);
    assert("alpha"@ =~= seq!['a', 'l', 'p', 'h', 'a']);
    assert("beta"@ =~= seq!['b', 'e', 't', 'a']);
    assert("-"@ =~= seq!['-']);
    if same_text(p, "pre") || same_text(p, "preview") || same_text(p, "rc") {
        assert("c"@ =~= seq!['c']);
        String::from_str("c")
    } else if same_text(p, "dev") {
        assert("@"@ =~= seq!['@']);
        String::from_str("@")
    } else if same_text(p, "alpha") {
        assert("a"@ =~= seq!['a']);
        String::from_str("a")
    } else if same_text(p, "beta") {
        assert("b"@ =~= seq!['b']);
        String::from_str("b")
    } else if same_text(p, "-") {
        assert("final-"@ =~= seq!['f', 'i', 'n', 'a', 'l', '-']);
        String::from_str("final-")
    } else {
        String::from_str(p)
    }
}

fn encode_part(p: &str) -> (r: String)
    ensures
        r@ == encoded(p@),
{
    proof {
        reveal_strlit("0");
        reveal_strlit("*");
    }
    let n = p.unicode_len();
    if n > 0 && char_in_run(p.get_char(0), true) {
        let mut out = String::new();
        let mut k: usize = n;
        while k < NUMERIC_WIDTH
            invariant
                n == p@.len(),
                n <= k <= NUMERIC_WIDTH || (n >= NUMERIC_WIDTH && k == n),
                out@ =~= Seq::new((k - n) as nat, |i: int| '0'),
            decreases NUMERIC_WIDTH - k,
        {
            proof {
                reveal_strlit("0");
            }
            out.append("0");
            k += 1;
        }
        out.append(p);
        out
    } else {
        let mut out = String::from_str("*");
        out.append(p);
        out
    }
}

fn encode_all(parts: &Vec<String>) -> (r: Vec<String>)
    ensures
        texts(r@) == encode_parts(texts(parts@)),
{
    proof {
        reveal_strlit(".");
    }
    let mut out: Vec<String> = Vec::new();
    let mut i: usize = 0;
    assert(texts(parts@).take(0) =~= Seq::<Seq<char>>::empty());
    while i < parts.len()
        invariant
            i <= parts@.len(),
            texts(out@) == encode_parts(texts(parts@).take(i as int)),
        decreases parts@.len() - i,
    {
        proof {
            reveal_strlit(".");
        }
        assert("."@ =~= seq!['.']);
        let p = normalize_part(parts[i].as_str());
        let ghost before = out@;
        assert(texts(parts@).take(i + 1).drop_last() =~= texts(parts@).take(i as int));
        if !(p.as_str().unicode_len() == 0 || same_text(p.as_str(), ".")) {
            let e = encode_part(p.as_str());
            out.push(e);
            assert(texts(out@) =~= texts(before).push(e@));
        }
        i += 1;
    }
    assert(texts(parts@).take(parts@.len() as int) =~= texts(parts@));
    out
}

/// Removes the run of parts equal to `t` from the end of `out`.
fn pop_matching(out: &mut Vec<String>, t: &str)
    ensures
        texts(final(out)@) == pop_all(texts(old(out)@), t@),
{
    while out.len() > 0 && same_text(out[out.len() - 1].as_str(), t)
        invariant
            pop_all(texts(out@), t@) == pop_all(texts(old(out)@), t@),
        decreases out@.len(),
    {
        let ghost before = out@;
        out.pop();
        assert(texts(out@) =~= texts(before).drop_last());
    }
}

fn settle_parts(parts: &Vec<String>) -> (r: Vec<String>)
    ensures
        texts(r@) == settle_all(texts(parts@)),
{
    proof {
        reveal_strlit("*final");
        reveal_strlit("*final-");
        reveal_strlit("00000000");
    }
    assert("*final"@ =~= final_part());
    assert("*final-"@ =~= dash_part());
    assert("00000000"@ =~= zero_part());
    let mut out: Vec<String> = Vec::new();
    let mut i: usize = 0;
    assert(texts(parts@).take(0) =~= Seq::<Seq<char>>::empty());
    while i < parts.len()
        invariant
            i <= parts@.len(),
            texts(out@) == settle_all(texts(parts@).take(i as int)),
            "*final"@ == final_part(),
            "*final-"@ == dash_part(),
            "00000000"@ == zero_part(),
        decreases parts@.len() - i,
    {
        let p = parts[i].as_str();
        assert(texts(parts@).take(i + 1).drop_last() =~= texts(parts@).take(i as int));
        if p.unicode_len() > 0 && p.get_char(0) == '*' {
            if compare_text(p, "*final") < 0 {
                pop_matching(&mut out, "*final-");
            }
            pop_matching(&mut out, "00000000");
        }
        let ghost before = out@;
        out.push(parts[i].clone());
        assert(texts(out@) =~= texts(before).push(parts@[i as int]@));
        i += 1;
    }
    assert(texts(parts@).take(parts@.len() as int) =~= texts(parts@));
    out
}

/// The comparable key of `s`, which must already be in lower case.
pub fn parse_lowered_version(s: &str) -> (r: Vec<String>)
    ensures
        texts(r@) == version_key(s@),
{
    proof {
        reveal_strlit("*final");
    }
    assert("*final"@ =~= final_part());
    let raw = scan_parts(s);
    let mut encoded_parts = encode_all(&raw);
    let ghost before = encoded_parts@;
    encoded_parts.push(String::from_str("*final"));
    assert(texts(encoded_parts@) =~= texts(before).push(final_part()));
    settle_parts(&encoded_parts)
}


/// The text of `s` in lower case, as `str::to_lowercase` gives it.
pub uninterp spec fn lower_of(s: Seq<char>) -> Seq<char>;

/// Relies on `str::to_lowercase`: the lower-case text depends on the
/// characters of `s` alone.
#[verifier::external_body]
fn lowercase(s: &str) -> (r: String)
    ensures
        r@ == lower_of(s@),
{
    s.to_lowercase()
}

/// The comparable key of any version string: the key of its lower-case text.
pub open spec fn parsed_key(s: Seq<char>) -> Seq<Seq<char>> {
    version_key(lower_of(s))
}

/// Parses a version string into a key that `Ord` on `Vec<String>` (and
/// `key_cmp`) orders as versions are ordered: releases after their
/// pre-releases, `dev` before `alpha` before `beta` before `rc`, numbers by
/// value, and trailing zero components ignored.
pub fn parse_version(s: &str) -> (r: Vec<String>)
    ensures
        texts(r@) == parsed_key(s@),
{
    let lowered = lowercase(s);
    parse_lowered_version(lowered.as_str())
}

/// Of any two version strings, exactly one is below, equal to, or above the
/// other in key order.
pub proof fn lemma_version_order_total(a: Seq<char>, b: Seq<char>)
    ensures
        ({
            let (ka, kb) = (parsed_key(a), parsed_key(b));
            &&& key_cmp(ka, kb) < 0 || ka == kb || key_cmp(ka, kb) > 0
            &&& !(key_cmp(ka, kb) < 0 && ka == kb)
            &&& !(key_cmp(ka, kb) > 0 && ka == kb)
            &&& !(key_cmp(ka, kb) < 0 && key_cmp(ka, kb) > 0)
            &&& (key_cmp(ka, kb) < 0 <==> key_cmp(kb, ka) > 0)
        }),
{
    lemma_key_order_total(parsed_key(a), parsed_key(b));
}

} // verus!
