//! Text helpers over `Seq<char>` views: building messages, decimal numbers,
//! and the comparisons that configuration and packet code share.

use vstd::prelude::*;
use vstd::slice::slice_subrange;
use vstd::string::*;

verus! {

/// `str::eq` of std: two string slices are equal exactly when they hold the
/// same characters.
#[verifier::external_body]
pub(crate) fn str_eq(a: &str, b: &str) -> (r: bool)
    ensures
        r == (a@ == b@),
{
    a == b
}

/// `String::push` of std: appends one character.
#[verifier::external_body]
pub(crate) fn push_char(s: &mut String, c: char)
    ensures
        final(s)@ == old(s)@.push(c),
{
    s.push(c)
}

/// The digit of `d` in decimal.
pub open spec fn digit_char(d: nat) -> char {
    (('0' as nat + d) as u32) as char
}

/// The decimal numeral of `n`, without leading zeros.
pub open spec fn decimal(n: nat) -> Seq<char>
    decreases n,
{
    if n < 10 {
        seq![digit_char(n)]
    } else {
        decimal(n / 10).push(digit_char(n % 10))
    }
}

fn digit_to_char(d: u8) -> (c: char)
    requires
        d < 10,
    ensures
        c == digit_char(d as nat),
{
    (48 + d) as char
}

/// Writes `n` in decimal.
pub fn decimal_string(n: u64) -> (s: String)
    ensures
        s@ == decimal(n as nat),
    decreases n,
{
    if n < 10 {
        let mut s = String::new();
        push_char(&mut s, digit_to_char(n as u8));
        assert(s@ =~= decimal(n as nat));
        s
    } else {
        let mut s = decimal_string(n / 10);
        push_char(&mut s, digit_to_char((n % 10) as u8));
        s
    }
}

/// The characters of `s`.
pub fn chars_of(s: &str) -> (v: Vec<char>)
    ensures
        v@ == s@,
{
    let mut v: Vec<char> = Vec::new();
    for c in it: s.chars()
        invariant
            v@ == s@.take(it.index() as int),
            it.seq() == s@,
    {
        v.push(c);
    }
    assert(s@.take(s@.len() as int) =~= s@);
    v
}

/// The string that holds the characters `v`.
pub fn string_of(v: &[char]) -> (s: String)
    ensures
        s@ == v@,
{
    let mut s = String::new();
    for i in 0..v.len()
        invariant
            s@ == v@.take(i as int),
    {
        push_char(&mut s, v[i]);
        assert(v@.take(i as int + 1) =~= v@.take(i as int).push(v@[i as int]));
    }
    assert(v@.take(v@.len() as int) =~= v@);
    s
}

/// `a` followed by `b`.
pub fn joined(a: &str, b: &str) -> (s: String)
    ensures
        s@ == a@ + b@,
{
    let mut s = a.to_owned();
    s.append(b);
    s
}

/// The contents of a list of character vectors.
pub open spec fn char_lists(v: Seq<Vec<char>>) -> Seq<Seq<char>> {
    v.map_values(|x: Vec<char>| x@)
}

/// The contents of a list of strings.
pub open spec fn strings(v: Seq<String>) -> Seq<Seq<char>> {
    v.map_values(|x: String| x@)
}

/// The pieces of `s` between the occurrences of `sep`.
pub open spec fn pieces(s: Seq<char>, sep: char) -> Seq<Seq<char>>
    decreases s.len(),
{
    if s.len() == 0 {
        seq![Seq::<char>::empty()]
    } else {
        let front = pieces(s.drop_last(), sep);
        if s.last() == sep {
            front.push(Seq::<char>::empty())
        } else {
            front.drop_last().push(front.last().push(s.last()))
        }
    }
}

pub proof fn lemma_pieces_nonempty(s: Seq<char>, sep: char)
    ensures
        pieces(s, sep).len() > 0,
    decreases s.len(),
{
    if s.len() > 0 {
        lemma_pieces_nonempty(s.drop_last(), sep);
    }
}

/// Splits `s` at every `sep`.
pub fn split_at_char(s: &[char], sep: char) -> (r: Vec<Vec<char>>)
    ensures
        char_lists(r@) == pieces(s@, sep),
        r@.len() > 0,
{
    let mut done: Vec<Vec<char>> = Vec::new();
    let mut cur: Vec<char> = Vec::new();
    let mut i: usize = 0;
    assert(s@.take(0) =~= Seq::<char>::empty());
    assert(char_lists(done@).push(cur@) =~= pieces(s@.take(0), sep));
    while i < s.len()
        invariant
            i <= s@.len(),
            char_lists(done@).push(cur@) == pieces(s@.take(i as int), sep),
        decreases s@.len() - i,
    {
        let c: char = s[i];
        proof {
            let t = s@.take(i as int + 1);
            assert(t.drop_last() =~= s@.take(i as int));
            assert(t.last() == c);
            assert(char_lists(done@).push(cur@).drop_last() =~= char_lists(done@));
        }
        let ghost before = char_lists(done@);
        if c == sep {
            let ghost whole = cur@;
            done.push(cur);
            cur = Vec::new();
            assert(char_lists(done@) =~= before.push(whole));
        } else {
            cur.push(c);
        }
        i = i + 1;
    }
    assert(s@.take(i as int) =~= s@);
    let ghost before = char_lists(done@);
    let ghost whole = cur@;
    done.push(cur);
    assert(char_lists(done@) =~= before.push(whole));
    done
}

/// Whether `c` is one of `0` to `9`.
pub open spec fn is_digit(c: char) -> bool {
    '0' <= c <= '9'
}

/// The number that a string of digits writes.
pub open spec fn digits_value(t: Seq<char>) -> nat
    decreases t.len(),
{
    if t.len() == 0 {
        0
    } else {
        digits_value(t.drop_last()) * 10 + (t.last() as nat - '0' as nat) as nat
    }
}

/// Whether every character is a digit.
pub open spec fn all_digits(t: Seq<char>) -> bool {
    forall|i: int| 0 <= i < t.len() ==> is_digit(#[trigger] t[i])
}

/// The value of a decimal numeral of at most `max_digits` digits below
/// `upto`.
pub open spec fn numeral(t: Seq<char>, max_digits: nat, upto: nat) -> Option<nat> {
    if 1 <= t.len() <= max_digits && all_digits(t) && digits_value(t) < upto {
        Some(digits_value(t))
    } else {
        None
    }
}

/// Reads a decimal numeral of at most `max_digits` digits below `upto`.
pub fn parse_numeral(t: &[char], max_digits: usize, upto: u64) -> (r: Option<u64>)
    requires
        max_digits <= 18,
    ensures
        r is Some <==> numeral(t@, max_digits as nat, upto as nat) is Some,
        r matches Some(v) ==> numeral(t@, max_digits as nat, upto as nat) == Some(v as nat),
{
    if t.len() < 1 || t.len() > max_digits {
        return None;
    }
    let mut v: u64 = 0;
    let mut i: usize = 0;
    let mut bound: u64 = 1;
    assert(t@.take(0) =~= Seq::<char>::empty());
    while i < t.len()
        invariant
            i <= t@.len() <= 18,
            v == digits_value(t@.take(i as int)),
            v < bound,
            bound == pow10(i as nat),
            forall|j: int| 0 <= j < i ==> is_digit(#[trigger] t@[j]),
        decreases t@.len() - i,
    {
        let c: char = t[i];
        if c < '0' || c > '9' {
            return None;
        }
        proof {
            let p = t@.take(i as int + 1);
            assert(p.drop_last() =~= t@.take(i as int));
            assert(p.last() == c);
            lemma_pow10_bound(i as nat, 17);
        }
        let d: u64 = (c as u32 - 48) as u64;
        v = v * 10 + d;
        bound = bound * 10;
        i = i + 1;
    }
    assert(t@.take(i as int) =~= t@);
    if v < upto {
        Some(v)
    } else {
        None
    }
}

/// A power of ten.
pub open spec fn pow10(n: nat) -> nat
    decreases n,
{
    if n == 0 {
        1
    } else {
        pow10((n - 1) as nat) * 10
    }
}

proof fn lemma_pow10_bound(i: nat, n: nat)
    requires
        i <= n <= 17,
    ensures
        pow10(i) <= pow10(n),
        pow10(n) <= 100_000_000_000_000_000,
    decreases n,
{
    reveal_with_fuel(pow10, 18);
    assert(pow10(17) == 100_000_000_000_000_000);
    if i < n {
        lemma_pow10_bound(i, (n - 1) as nat);
    }
    lemma_pow10_mono(n, 17);
}

proof fn lemma_pow10_mono(i: nat, n: nat)
    requires
        i <= n,
    ensures
        pow10(i) <= pow10(n),
    decreases n,
{
    if i < n {
        lemma_pow10_mono(i, (n - 1) as nat);
    }
}

/// `c` in lower case, if it is an ASCII letter.
pub open spec fn lower_char(c: char) -> char {
    if 'A' <= c <= 'Z' {
        ((c as u32 + 32) as u32) as char
    } else {
        c
    }
}

/// `s` with its ASCII letters in lower case.
pub open spec fn lower(s: Seq<char>) -> Seq<char> {
    s.map_values(|c: char| lower_char(c))
}

/// `c` in lower case, if it is an ASCII letter.
pub fn to_lower(c: char) -> (r: char)
    ensures
        r == lower_char(c),
{
    if 'A' <= c && c <= 'Z' {
        (c as u8 + 32) as char
    } else {
        c
    }
}

/// `s` without its trailing occurrences of `c`.
pub open spec fn trim_end(s: Seq<char>, c: char) -> Seq<char>
    decreases s.len(),
{
    if s.len() > 0 && s.last() == c {
        trim_end(s.drop_last(), c)
    } else {
        s
    }
}

/// Whether `s` begins with `p`.
pub open spec fn starts_with(s: Seq<char>, p: Seq<char>) -> bool {
    s.len() >= p.len() && s.take(p.len() as int) == p
}

/// Whether `s` ends with `p`.
pub open spec fn ends_with(s: Seq<char>, p: Seq<char>) -> bool {
    s.len() >= p.len() && s.skip(s.len() - p.len()) == p
}

/// Whether `a` holds `b` from position `at` on.
pub fn holds_at(a: &[char], at: usize, b: &[char]) -> (r: bool)
    requires
        at + b@.len() <= a@.len(),
    ensures
        r == (a@.subrange(at as int, at + b@.len()) == b@),
{
    let mut i: usize = 0;
    assert(a.len() == a@.len());
    while i < b.len()
        invariant
            i <= b@.len(),
            at + b@.len() <= a@.len() <= usize::MAX,
            forall|j: int| 0 <= j < i ==> a@[at + j] == #[trigger] b@[j],
        decreases b@.len() - i,
    {
        if a[at + i] != b[i] {
            assert(a@.subrange(at as int, at + b@.len())[i as int] != b@[i as int]);
            return false;
        }
        i = i + 1;
    }
    assert(a@.subrange(at as int, at + b@.len()) =~= b@);
    true
}

/// Whether two character lists are equal.
pub fn same_chars(a: &[char], b: &[char]) -> (r: bool)
    ensures
        r == (a@ == b@),
{
    if a.len() != b.len() {
        return false;
    }
    let r = holds_at(a, 0, b);
    assert(a@.subrange(0, b@.len() as int) =~= a@);
    r
}

/// Whether `a` ends with `b`.
pub fn has_suffix(a: &[char], b: &[char]) -> (r: bool)
    ensures
        r == ends_with(a@, b@),
{
    if a.len() < b.len() {
        return false;
    }
    let at: usize = a.len() - b.len();
    assert(a@.subrange(at as int, at + b@.len()) =~= a@.skip(at as int));
    holds_at(a, at, b)
}

/// Whether `a` begins with `b`.
pub fn has_prefix(a: &[char], b: &[char]) -> (r: bool)
    ensures
        r == starts_with(a@, b@),
{
    if a.len() < b.len() {
        return false;
    }
    assert(a@.subrange(0, b@.len() as int) =~= a@.take(b@.len() as int));
    holds_at(a, 0, b)
}

/// The three parts in a row.
pub fn cat3(a: &str, b: &str, c: &str) -> (s: String)
    ensures
        s@ == a@ + b@ + c@,
{
    let mut s = joined(a, b);
    s.append(c);
    s
}

/// The five parts in a row.
pub fn cat5(a: &str, b: &str, c: &str, d: &str, e: &str) -> (s: String)
    ensures
        s@ == a@ + b@ + c@ + d@ + e@,
{
    let mut s = cat3(a, b, c);
    s.append(d);
    s.append(e);
    s
}

/// The seven parts in a row.
pub fn cat7(a: &str, b: &str, c: &str, d: &str, e: &str, f: &str, g: &str) -> (s: String)
    ensures
        s@ == a@ + b@ + c@ + d@ + e@ + f@ + g@,
{
    let mut s = cat5(a, b, c, d, e);
    s.append(f);
    s.append(g);
    s
}

/// The decimal numeral of `n`, with a sign if it is negative.
pub open spec fn signed_decimal(n: int) -> Seq<char> {
    if n < 0 {
        "-"@ + decimal((-n) as nat)
    } else {
        decimal(n as nat)
    }
}

/// Writes `n` in decimal.
pub fn signed_string(n: i64) -> (s: String)
    ensures
        s@ == signed_decimal(n as int),
{
    if n < 0 {
        let m: u64 = (-(n + 1)) as u64 + 1;
        joined("-", decimal_string(m).as_str())
    } else {
        decimal_string(n as u64)
    }
}

/// The parts of `v` with `sep` between them.
pub open spec fn join(v: Seq<Seq<char>>, sep: Seq<char>) -> Seq<char>
    decreases v.len(),
{
    if v.len() == 0 {
        Seq::empty()
    } else if v.len() == 1 {
        v[0]
    } else {
        join(v.drop_last(), sep) + sep + v.last()
    }
}

/// The strings of `v` with `sep` between them.
pub fn join_strings(v: &Vec<String>, sep: &str) -> (s: String)
    ensures
        s@ == join(v.deep_view(), sep@),
{
    let mut s = String::new();
    let mut i: usize = 0;
    assert(v.deep_view().take(0) =~= Seq::empty());
    while i < v.len()
        invariant
            i <= v@.len(),
            s@ == join(v.deep_view().take(i as int), sep@),
        decreases v@.len() - i,
    {
        let ghost t = v.deep_view().take(i as int + 1);
        assert(t.drop_last() =~= v.deep_view().take(i as int));
        assert(t.last() == v@[i as int]@);
        if i > 0 {
            s.append(sep);
        }
        s.append(v[i].as_str());
        assert(i == 0 ==> s@ =~= v@[0]@);
        i = i + 1;
    }
    assert(v.deep_view().take(i as int) =~= v.deep_view());
    s
}

/// The text that there is, if any.
pub open spec fn opt_text(s: Option<&str>) -> Option<Seq<char>> {
    match s {
        Some(s) => Some(s@),
        None => None,
    }
}

/// Whether one of the strings of `v` is `s`.
pub fn any_string(v: &Vec<String>, s: &str) -> (r: bool)
    ensures
        r == v.deep_view().contains(s@),
{
    let mut i: usize = 0;
    while i < v.len()
        invariant
            i <= v@.len(),
            forall|j: int| 0 <= j < i ==> v@[j]@ != s@,
        decreases v@.len() - i,
    {
        if str_eq(v[i].as_str(), s) {
            assert(v.deep_view()[i as int] == s@);
            return true;
        }
        i = i + 1;
    }
    assert forall|j: int| 0 <= j < v.deep_view().len() implies v.deep_view()[j] != s@ by {
        assert(v.deep_view()[j] == v@[j]@);
    }
    false
}

/// Where `c` first occurs in `s`, if it does.
pub open spec fn find_char(s: Seq<char>, c: char) -> Option<int>
    decreases s.len(),
{
    if s.len() == 0 {
        None
    } else {
        match find_char(s.drop_last(), c) {
            Some(i) => Some(i),
            None => if s.last() == c {
                Some(s.len() - 1)
            } else {
                None
            },
        }
    }
}

/// Where `c` first occurs in `s`, if it does.
pub fn index_of_char(s: &[char], c: char) -> (r: Option<usize>)
    ensures
        r is Some <==> find_char(s@, c) is Some,
        r matches Some(i) ==> find_char(s@, c) == Some(i as int),
        r matches Some(i) ==> i < s@.len() && s@[i as int] == c,
        r matches Some(i) ==> forall|j: int| 0 <= j < i ==> s@[j] != c,
        r is None ==> forall|j: int| 0 <= j < s@.len() ==> s@[j] != c,
{
    let mut i: usize = 0;
    assert(s@.take(0) =~= Seq::empty());
    while i < s.len()
        invariant
            i <= s@.len(),
            find_char(s@.take(i as int), c) is None,
            forall|j: int| 0 <= j < i ==> s@[j] != c,
        decreases s@.len() - i,
    {
        proof {
            let t = s@.take(i as int + 1);
            assert(t.drop_last() =~= s@.take(i as int));
            assert(t.last() == s@[i as int]);
        }
        if s[i] == c {
            proof {
                lemma_find_prefix(s@, i as int + 1, c);
            }
            return Some(i);
        }
        i = i + 1;
    }
    assert(s@.take(i as int) =~= s@);
    None
}

/// Where a character first occurs is where it is found.
pub proof fn lemma_find_char(s: Seq<char>, c: char, n: int)
    requires
        0 <= n < s.len(),
        s[n] == c,
        forall|j: int| 0 <= j < n ==> s[j] != c,
    ensures
        find_char(s, c) == Some(n),
    decreases s.len(),
{
    let front = s.drop_last();
    if n < s.len() - 1 {
        lemma_find_char(front, c, n);
    } else {
        lemma_find_none(front, c);
    }
}

/// What is found is there.
pub proof fn lemma_found(s: Seq<char>, c: char)
    ensures
        find_char(s, c) matches Some(i) ==> 0 <= i < s.len() && s[i] == c,
    decreases s.len(),
{
    if s.len() > 0 {
        lemma_found(s.drop_last(), c);
    }
}

proof fn lemma_find_none(s: Seq<char>, c: char)
    requires
        forall|j: int| 0 <= j < s.len() ==> s[j] != c,
    ensures
        find_char(s, c) is None,
    decreases s.len(),
{
    if s.len() > 0 {
        lemma_find_none(s.drop_last(), c);
    }
}

proof fn lemma_find_prefix(s: Seq<char>, n: int, c: char)
    requires
        0 <= n <= s.len(),
        find_char(s.take(n), c) is Some,
    ensures
        find_char(s, c) == find_char(s.take(n), c),
    decreases s.len() - n,
{
    if n < s.len() {
        let t = s.take(n + 1);
        assert(t.drop_last() =~= s.take(n));
        lemma_find_prefix(s, n + 1, c);
    } else {
        assert(s.take(n) =~= s);
    }
}

/// `t` without a plus sign in front.
pub open spec fn unsigned_part(t: Seq<char>) -> Seq<char> {
    if t.len() > 0 && t[0] == '+' {
        t.skip(1)
    } else {
        t
    }
}

/// The number below 65536 that `t` writes in decimal, with an optional plus
/// sign in front and any number of leading zeros.
pub open spec fn port_value(t: Seq<char>) -> Option<nat> {
    let d = unsigned_part(t);
    if d.len() > 0 && all_digits(d) && digits_value(d) < 65536 {
        Some(digits_value(d))
    } else {
        None
    }
}

proof fn lemma_digits_grow(t: Seq<char>, n: int)
    requires
        0 <= n <= t.len(),
    ensures
        digits_value(t.take(n)) <= digits_value(t),
    decreases t.len() - n,
{
    if n < t.len() {
        let p = t.take(n + 1);
        assert(p.drop_last() =~= t.take(n));
        lemma_digits_grow(t, n + 1);
    } else {
        assert(t.take(n) =~= t);
    }
}

/// Reads a number below 65536.
pub fn parse_u16(t: &[char]) -> (r: Option<u16>)
    ensures
        r is Some <==> port_value(t@) is Some,
        r matches Some(v) ==> port_value(t@) == Some(v as nat),
{
    let start: usize = if t.len() > 0 && t[0] == '+' {
        1
    } else {
        0
    };
    let ghost d = t@.skip(start as int);
    assert(d =~= unsigned_part(t@));
    if t.len() == start {
        return None;
    }
    let mut v: u32 = 0;
    let mut i: usize = start;
    assert(d.take(0) =~= Seq::<char>::empty());
    while i < t.len()
        invariant
            start <= i <= t@.len(),
            start <= 1,
            d == t@.skip(start as int),
            d == unsigned_part(t@),
            v == digits_value(d.take(i - start)),
            v < 65536,
            forall|j: int| 0 <= j < i - start ==> is_digit(#[trigger] d[j]),
        decreases t@.len() - i,
    {
        let c: char = t[i];
        assert(d[i - start] == c);
        if c < '0' || c > '9' {
            assert(!is_digit(d[i - start]));
            return None;
        }
        proof {
            let p = d.take(i - start + 1);
            assert(p.drop_last() =~= d.take(i - start));
            assert(p.last() == c);
        }
        v = v * 10 + (c as u32 - 48);
        i = i + 1;
        if v >= 65536 {
            proof {
                lemma_digits_grow(d, i - start);
            }
            return None;
        }
    }
    assert(d.take(i - start) =~= d);
    Some(v as u16)
}

/// Whether `p` occurs in `s`.
pub open spec fn occurs(s: Seq<char>, p: Seq<char>) -> bool {
    exists|i: int| 0 <= i <= s.len() - p.len() && #[trigger] s.subrange(i, i + p.len()) == p
}

/// Whether `p` occurs in `s`.
pub fn has_text(s: &str, p: &str) -> (r: bool)
    ensures
        r == occurs(s@, p@),
{
    let a = chars_of(s);
    let b = chars_of(p);
    if b.len() > a.len() {
        return false;
    }
    let last: usize = a.len() - b.len();
    let mut i: usize = 0;
    while i < last
        invariant
            i <= last,
            last == a@.len() - b@.len(),
            a@ == s@,
            b@ == p@,
            forall|j: int| 0 <= j < i ==> #[trigger] a@.subrange(j, j + b@.len()) != b@,
        decreases last - i,
    {
        if holds_at(a.as_slice(), i, b.as_slice()) {
            assert(s@.subrange(i as int, i + p@.len()) == p@);
            return true;
        }
        i = i + 1;
    }
    let r = holds_at(a.as_slice(), last, b.as_slice());
    assert(r ==> s@.subrange(last as int, last + p@.len()) == p@);
    r
}

/// Whether `a` comes before `b` in the order of characters, or is `b`.
pub open spec fn text_le(a: Seq<char>, b: Seq<char>) -> bool
    decreases a.len(),
{
    if a.len() == 0 {
        true
    } else if b.len() == 0 {
        false
    } else if a[0] != b[0] {
        a[0] < b[0]
    } else {
        text_le(a.skip(1), b.skip(1))
    }
}

/// Whether `a` comes before `b` in the order of characters, or is `b`.
pub fn str_le(a: &str, b: &str) -> (r: bool)
    ensures
        r == text_le(a@, b@),
{
    let x = chars_of(a);
    let y = chars_of(b);
    let mut i: usize = 0;
    assert(x@.skip(0) =~= x@);
    assert(y@.skip(0) =~= y@);
    while i < x.len()
        invariant
            i <= x@.len(),
            i <= y@.len(),
            x@ == a@,
            y@ == b@,
            text_le(x@.skip(i as int), y@.skip(i as int)) == text_le(x@, y@),
        decreases x@.len() - i,
    {
        assert(x@.skip(i as int).skip(1) =~= x@.skip(i + 1));
        assert(x@.skip(i as int)[0] == x@[i as int]);
        if i >= y.len() {
            return false;
        }
        assert(y@.skip(i as int).skip(1) =~= y@.skip(i + 1));
        assert(y@.skip(i as int)[0] == y@[i as int]);
        if x[i] != y[i] {
            return x[i] < y[i];
        }
        i = i + 1;
    }
    true
}

/// Of two texts one comes first.
pub proof fn lemma_text_le_total(a: Seq<char>, b: Seq<char>)
    ensures
        text_le(a, b) || text_le(b, a),
    decreases a.len(),
{
    if a.len() > 0 && b.len() > 0 && a[0] == b[0] {
        lemma_text_le_total(a.skip(1), b.skip(1));
    }
}

/// Only equal texts each come before the other.
pub proof fn lemma_text_le_antisym(a: Seq<char>, b: Seq<char>)
    requires
        text_le(a, b),
        text_le(b, a),
    ensures
        a == b,
    decreases a.len(),
{
    if a.len() > 0 {
        lemma_text_le_antisym(a.skip(1), b.skip(1));
        assert(a =~= seq![a[0]] + a.skip(1));
        assert(b =~= seq![b[0]] + b.skip(1));
    } else {
        assert(a =~= b);
    }
}

/// The order of texts is transitive.
pub proof fn lemma_text_le_trans(a: Seq<char>, b: Seq<char>, c: Seq<char>)
    requires
        text_le(a, b),
        text_le(b, c),
    ensures
        text_le(a, c),
    decreases a.len(),
{
    if a.len() > 0 && a[0] == b[0] && b[0] == c[0] {
        lemma_text_le_trans(a.skip(1), b.skip(1), c.skip(1));
    }
}

/// A path below a folder: an absolute path stands for itself.
pub open spec fn path_join(base: Seq<char>, p: Seq<char>) -> Seq<char> {
    if p.len() > 0 && p[0] == '/' {
        p
    } else if base.len() == 0 || base.last() == '/' {
        base + p
    } else {
        base + "/"@ + p
    }
}

/// A path below a folder: an absolute path stands for itself.
pub fn join_path(base: &str, p: &str) -> (r: String)
    ensures
        r@ == path_join(base@, p@),
{
    let b = chars_of(base);
    let c = chars_of(p);
    if c.len() > 0 && c[0] == '/' {
        p.to_owned()
    } else if b.len() == 0 || b[b.len() - 1] == '/' {
        joined(base, p)
    } else {
        cat3(base, "/", p)
    }
}

/// The same texts again.
pub fn copy_strings(v: &Vec<String>) -> (r: Vec<String>)
    ensures
        r.deep_view() == v.deep_view(),
{
    let mut out: Vec<String> = Vec::new();
    let mut i: usize = 0;
    while i < v.len()
        invariant
            i <= v@.len(),
            out@.len() == i,
            forall|j: int| 0 <= j < i ==> #[trigger] out@[j]@ == v@[j]@,
        decreases v@.len() - i,
    {
        out.push(v[i].clone());
        i = i + 1;
    }
    assert(out.deep_view() =~= v.deep_view());
    out
}

/// The same text again, if there is one.
pub fn copy_option(v: &Option<String>) -> (r: Option<String>)
    ensures
        r.deep_view() == v.deep_view(),
{
    match v {
        Some(s) => Some(s.clone()),
        None => None,
    }
}

/// A relative path without separators and `.` in front.
pub open spec fn trim_front(s: Seq<char>) -> Seq<char>
    decreases s.len(),
{
    if s.len() == 0 {
        s
    } else if s[0] == '/' {
        trim_front(s.skip(1))
    } else if s[0] == '.' && (s.len() == 1 || s[1] == '/') {
        trim_front(s.skip(1))
    } else {
        s
    }
}

/// A relative path without separators and `.` at its end.
pub open spec fn trim_back(s: Seq<char>) -> Seq<char>
    decreases s.len(),
{
    if s.len() == 0 {
        s
    } else if s.last() == '/' {
        trim_back(s.drop_last())
    } else if s.last() == '.' && (s.len() == 1 || s[s.len() - 2] == '/') {
        trim_back(s.drop_last())
    } else {
        s
    }
}

/// What follows the last `c`.
pub open spec fn after_last(s: Seq<char>, c: char) -> Seq<char>
    decreases s.len(),
{
    if s.len() == 0 || s.last() == c {
        Seq::empty()
    } else {
        after_last(s.drop_last(), c).push(s.last())
    }
}

/// The last part of a path, unless that is the folder above.
pub open spec fn file_name_of(path: Seq<char>) -> Option<Seq<char>> {
    let name = after_last(trim_back(path), '/');
    if name.len() == 0 || name == ".."@ {
        None
    } else {
        Some(name)
    }
}

/// The last part of a path, unless that is the folder above.
pub fn file_name(path: &str) -> (r: Option<String>)
    ensures
        r.deep_view() == file_name_of(path@),
{
    let c = chars_of(path);
    assert(c.len() == c@.len());
    let mut to: usize = c.len();
    assert(c@.take(to as int) =~= c@);
    while to > 0 && (c[to - 1] == '/' || (c[to - 1] == '.' && (to == 1 || c[to - 2] == '/')))
        invariant
            to <= c@.len(),
            c.len() == c@.len(),
            trim_back(c@) == trim_back(c@.take(to as int)),
        decreases to,
    {
        assert(c@.take(to as int).drop_last() =~= c@.take(to - 1));
        to = to - 1;
    }
    let ghost t = c@.take(to as int);
    assert(trim_back(t) == t);
    let mut from: usize = to;
    assert(t.take(to as int) =~= t);
    assert(c@.subrange(from as int, to as int) =~= Seq::empty());
    assert(after_last(t.take(from as int), '/') + c@.subrange(from as int, to as int) =~= after_last(
        t,
        '/',
    ));
    while from > 0 && c[from - 1] != '/'
        invariant
            from <= to <= c@.len(),
            c.len() == c@.len(),
            t == c@.take(to as int),
            after_last(t, '/') == after_last(t.take(from as int), '/') + c@.subrange(
                from as int,
                to as int,
            ),
        decreases from,
    {
        assert(t.take(from as int).drop_last() =~= t.take(from - 1));
        assert(t.take(from as int).last() == c@[from - 1]);
        assert(after_last(t.take(from as int), '/') + c@.subrange(from as int, to as int)
            =~= after_last(t.take(from - 1), '/') + c@.subrange(from - 1, to as int));
        from = from - 1;
    }
    proof {
        if from > 0 {
            assert(t.take(from as int).last() == c@[from - 1]);
        }
        assert(after_last(t.take(from as int), '/') =~= Seq::empty());
        assert(after_last(t, '/') =~= c@.subrange(from as int, to as int));
    }
    let name = string_of(slice_subrange(c.as_slice(), from, to));
    if from == to || str_eq(name.as_str(), "..") {
        None
    } else {
        Some(name)
    }
}

/// White space.
pub open spec fn is_space(c: char) -> bool {
    let n = c as int;
    0x09 <= n <= 0x0d || n == 0x20 || n == 0x85 || n == 0xa0 || n == 0x1680 || 0x2000 <= n <= 0x200a
        || n == 0x2028 || n == 0x2029 || n == 0x202f || n == 0x205f || n == 0x3000
}

fn space(c: char) -> (r: bool)
    ensures
        r == is_space(c),
{
    let n: u32 = c as u32;
    (0x09 <= n && n <= 0x0d) || n == 0x20 || n == 0x85 || n == 0xa0 || n == 0x1680 || (0x2000 <= n
        && n <= 0x200a) || n == 0x2028 || n == 0x2029 || n == 0x202f || n == 0x205f || n == 0x3000
}

/// A text without white space at its end.
pub open spec fn trimmed_end(s: Seq<char>) -> Seq<char>
    decreases s.len(),
{
    if s.len() > 0 && is_space(s.last()) {
        trimmed_end(s.drop_last())
    } else {
        s
    }
}

/// A text without white space at its beginning.
pub open spec fn trimmed_start(s: Seq<char>) -> Seq<char>
    decreases s.len(),
{
    if s.len() > 0 && is_space(s[0]) {
        trimmed_start(s.skip(1))
    } else {
        s
    }
}

/// A text without white space at its end.
pub fn trim_tail(s: &str) -> (r: String)
    ensures
        r@ == trimmed_end(s@),
{
    let c = chars_of(s);
    assert(c.len() == c@.len());
    let mut to: usize = c.len();
    assert(c@.take(to as int) =~= c@);
    while to > 0 && space(c[to - 1])
        invariant
            to <= c@.len(),
            c.len() == c@.len(),
            trimmed_end(c@) == trimmed_end(c@.take(to as int)),
        decreases to,
    {
        assert(c@.take(to as int).drop_last() =~= c@.take(to - 1));
        to = to - 1;
    }
    let part = slice_subrange(c.as_slice(), 0, to);
    assert(part@ =~= c@.take(to as int));
    string_of(part)
}

/// A text without white space around it.
pub fn trim(s: &str) -> (r: String)
    ensures
        r@ == trimmed_start(trimmed_end(s@)),
{
    let t = trim_tail(s);
    let c = chars_of(t.as_str());
    assert(c.len() == c@.len());
    let mut from: usize = 0;
    assert(c@.skip(0) =~= c@);
    while from < c.len() && space(c[from])
        invariant
            from <= c@.len(),
            c.len() == c@.len(),
            trimmed_start(c@) == trimmed_start(c@.skip(from as int)),
        decreases c@.len() - from,
    {
        assert(c@.skip(from as int).skip(1) =~= c@.skip(from + 1));
        from = from + 1;
    }
    let part = slice_subrange(c.as_slice(), from, c.len());
    assert(part@ =~= c@.skip(from as int));
    string_of(part)
}

/// How a text is shown between quotes, with escapes.
pub uninterp spec fn quoted_text(s: Seq<char>) -> Seq<char>;

/// `format!` with `{:?}`, that is `Debug` of `str`: a function of the text.
#[verifier::external_body]
pub(crate) fn quoted(s: &str) -> (r: String)
    ensures
        r@ == quoted_text(s@),
{
    format!("{s:?}")
}

/// `s` with `x` after all that do not come behind it.
pub open spec fn text_placed(s: Seq<Seq<char>>, x: Seq<char>) -> Seq<Seq<char>>
    decreases s.len(),
{
    if s.len() == 0 || text_le(s.last(), x) {
        s.push(x)
    } else {
        text_placed(s.drop_last(), x).push(s.last())
    }
}

/// Texts in order.
pub open spec fn text_sorted(s: Seq<Seq<char>>) -> Seq<Seq<char>>
    decreases s.len(),
{
    if s.len() == 0 {
        s
    } else {
        text_placed(text_sorted(s.drop_last()), s.last())
    }
}

proof fn lemma_text_placed(s: Seq<Seq<char>>, x: Seq<char>, p: int)
    requires
        0 <= p <= s.len(),
        p == 0 || text_le(s[p - 1], x),
        forall|k: int| p <= k < s.len() ==> !text_le(#[trigger] s[k], x),
    ensures
        text_placed(s, x) == s.insert(p, x),
    decreases s.len(),
{
    if p < s.len() {
        lemma_text_placed(s.drop_last(), x, p);
        assert(s.drop_last().insert(p, x).push(s.last()) =~= s.insert(p, x));
    } else {
        assert(s.push(x) =~= s.insert(p, x));
    }
}

/// Texts in order.
pub fn sort_strings(v: &Vec<String>) -> (r: Vec<String>)
    ensures
        r.deep_view() == text_sorted(v.deep_view()),
{
    let ghost all = v.deep_view();
    let mut out: Vec<String> = Vec::new();
    let mut i: usize = 0;
    assert(all.take(0) =~= Seq::empty());
    assert(out.deep_view() =~= Seq::empty());
    while i < v.len()
        invariant
            i <= v@.len(),
            all == v.deep_view(),
            all.len() == v@.len(),
            out@.len() <= i,
            out.deep_view() == text_sorted(all.take(i as int)),
        decreases v@.len() - i,
    {
        let ghost had = out.deep_view();
        let ghost x = all[i as int];
        proof {
            let t = all.take(i as int + 1);
            assert(t.drop_last() =~= all.take(i as int));
            assert(t.last() == x);
            assert(x == v@[i as int]@);
        }
        let mut p: usize = out.len();
        assert(had.len() == out@.len());
        while p > 0 && !str_le(out[p - 1].as_str(), v[i].as_str())
            invariant
                i < v@.len(),
                p <= out@.len(),
                had == out.deep_view(),
                x == v@[i as int]@,
                forall|k: int| p <= k < had.len() ==> !text_le(#[trigger] had[k], x),
            decreases p,
        {
            assert(had[p - 1] == out@[p - 1]@);
            p = p - 1;
        }
        proof {
            if p > 0 {
                assert(had[p - 1] == out@[p - 1]@);
            }
            lemma_text_placed(had, x, p as int);
        }
        out.insert(p, v[i].clone());
        assert(out.deep_view() =~= had.insert(p as int, x));
        i = i + 1;
    }
    assert(all.take(i as int) =~= all);
    out
}

/// A number that is written in decimal is read back, and is written without
/// leading zeros.
pub proof fn decimal_is_read_back(n: nat)
    ensures
        all_digits(decimal(n)),
        decimal(n).len() > 0,
        digits_value(decimal(n)) == n,
        n > 0 ==> decimal(n)[0] != '0',
        n < 10 ==> decimal(n).len() == 1,
        n < 100 ==> decimal(n).len() <= 2,
        n < 1000 ==> decimal(n).len() <= 3,
    decreases n,
{
    let t = decimal(n);
    if n < 10 {
        assert(t.drop_last() =~= Seq::<char>::empty());
        assert(digits_value(t.drop_last()) == 0);
        assert(t.last() as nat == 48 + n);
    } else {
        decimal_is_read_back(n / 10);
        let front = decimal(n / 10);
        assert(t.drop_last() =~= front);
        assert(t[0] == front[0]);
        assert forall|i: int| 0 <= i < t.len() implies is_digit(#[trigger] t[i]) by {
            if i < front.len() {
                assert(t[i] == front[i]);
            }
        }
        assert(t.last() as nat == 48 + n % 10);
    }
}

/// Splitting undoes putting a separator between texts: what stands before the
/// last separator is split as before, and what stands behind it is one piece.
pub proof fn last_piece_is_split_off(a: Seq<char>, sep: char, b: Seq<char>)
    requires
        forall|i: int| 0 <= i < b.len() ==> b[i] != sep,
    ensures
        pieces(a + seq![sep] + b, sep) == pieces(a, sep).push(b),
        pieces(b, sep) == seq![b],
    decreases b.len(),
{
    let s = a + seq![sep] + b;
    if b.len() == 0 {
        assert(s.drop_last() =~= a);
        assert(b =~= Seq::<char>::empty());
        assert(pieces(b, sep) =~= seq![b]);
    } else {
        let c = b.drop_last();
        last_piece_is_split_off(a, sep, c);
        assert(s.drop_last() =~= a + seq![sep] + c);
        assert(s.last() == b.last());
        assert(c.push(b.last()) =~= b);
        assert(pieces(a, sep).push(c).drop_last().push(b) =~= pieces(a, sep).push(b));
        assert(seq![c].drop_last().push(b) =~= seq![b]);
        assert(seq![c].last() == c);
    }
}

/// Sorting keeps every text as often as it was there, and leaves none before
/// one that comes first.
pub proof fn sorting_only_reorders(s: Seq<Seq<char>>, i: int, j: int)
    ensures
        text_sorted(s).to_multiset() == s.to_multiset(),
        text_sorted(s).len() == s.len(),
        0 <= i <= j < s.len() ==> text_le(text_sorted(s)[i], text_sorted(s)[j]),
    decreases s.len(),
{
    broadcast use vstd::seq_lib::group_to_multiset_ensures;

    if s.len() > 0 {
        let front = s.drop_last();
        sorting_only_reorders(front, 0, 0);
        let t = text_sorted(front);
        assert forall|a: int, b: int| 0 <= a <= b < t.len() implies text_le(
            #[trigger] t[a],
            #[trigger] t[b],
        ) by {
            sorting_only_reorders(front, a, b);
        }
        lemma_placed_sorted(t, s.last());
        assert(front.push(s.last()) =~= s);
        let r = text_sorted(s);
        if 0 <= i <= j < s.len() {
            assert(text_le(r[i], r[j]));
        }
    }
}

proof fn lemma_placed_sorted(s: Seq<Seq<char>>, x: Seq<char>)
    requires
        forall|a: int, b: int| 0 <= a <= b < s.len() ==> text_le(#[trigger] s[a], #[trigger] s[b]),
    ensures
        text_placed(s, x).to_multiset() == s.push(x).to_multiset(),
        text_placed(s, x).len() == s.len() + 1,
        forall|a: int, b: int|
            0 <= a <= b < s.len() + 1 ==> text_le(
                #[trigger] text_placed(s, x)[a],
                #[trigger] text_placed(s, x)[b],
            ),
        forall|a: int|
            0 <= a < s.len() + 1 ==> #[trigger] text_placed(s, x)[a] == x || exists|k: int|
                0 <= k < s.len() && s[k] == text_placed(s, x)[a],
    decreases s.len(),
{
    broadcast use vstd::seq_lib::group_to_multiset_ensures;

    let t = text_placed(s, x);
    lemma_text_le_refl(x);
    if s.len() == 0 {
    } else if text_le(s.last(), x) {
        assert forall|a: int, b: int| 0 <= a <= b < t.len() implies text_le(
            #[trigger] t[a],
            #[trigger] t[b],
        ) by {
            if b == s.len() && a < b {
                assert(text_le(s[a], s[s.len() - 1]));
                lemma_text_le_trans(s[a], s.last(), x);
            }
        }
        assert forall|a: int| 0 <= a < t.len() implies #[trigger] t[a] == x || exists|k: int|
            0 <= k < s.len() && s[k] == t[a] by {
            if a < s.len() {
                assert(s[a] == t[a]);
            }
        }
    } else {
        let f = s.drop_last();
        lemma_placed_sorted(f, x);
        let p = text_placed(f, x);
        let last = s.last();
        lemma_text_le_total(last, x);
        lemma_text_le_refl(last);
        assert(f.push(last) =~= s);
        assert(t.to_multiset() == p.to_multiset().insert(last));
        assert(t.to_multiset() =~= s.push(x).to_multiset());
        assert forall|a: int| 0 <= a < t.len() implies #[trigger] t[a] == x || exists|k: int|
            0 <= k < s.len() && s[k] == t[a] by {
            if a < p.len() {
                assert(t[a] == p[a]);
                if p[a] != x {
                    let k = choose|k: int| 0 <= k < f.len() && f[k] == p[a];
                    assert(s[k] == t[a]);
                }
            } else {
                assert(s[s.len() - 1] == t[a]);
            }
        }
        assert forall|a: int, b: int| 0 <= a <= b < t.len() implies text_le(
            #[trigger] t[a],
            #[trigger] t[b],
        ) by {
            if b < p.len() {
                assert(t[a] == p[a] && t[b] == p[b]);
            } else if a < p.len() {
                assert(t[a] == p[a]);
                if p[a] != x {
                    let k = choose|k: int| 0 <= k < f.len() && f[k] == p[a];
                    assert(text_le(s[k], s[s.len() - 1]));
                }
            }
        }
    }
}

proof fn lemma_text_le_refl(a: Seq<char>)
    ensures
        text_le(a, a),
    decreases a.len(),
{
    if a.len() > 0 {
        lemma_text_le_refl(a.skip(1));
    }
}

/// The file name of a path below a folder is its last part.
pub proof fn file_name_is_the_last_part(dir: Seq<char>, name: Seq<char>)
    requires
        name.len() > 0,
        forall|i: int| 0 <= i < name.len() ==> name[i] != '/',
        name.last() != '.',
    ensures
        file_name_of(dir + seq!['/'] + name) == Some(name),
        file_name_of(name) == Some(name),
{
    reveal_strlit("..");
    let s = dir + seq!['/'] + name;
    assert(s.last() == name.last());
    assert(trim_back(s) == s);
    assert(trim_back(name) == name);
    lemma_after_last(dir, name);
}

proof fn lemma_after_last(dir: Seq<char>, name: Seq<char>)
    requires
        forall|i: int| 0 <= i < name.len() ==> name[i] != '/',
    ensures
        after_last(dir + seq!['/'] + name, '/') == name,
        after_last(name, '/') == name,
    decreases name.len(),
{
    let s = dir + seq!['/'] + name;
    if name.len() == 0 {
        assert(s.last() == '/');
        assert(name =~= Seq::<char>::empty());
    } else {
        let n = name.drop_last();
        lemma_after_last(dir, n);
        assert(s.drop_last() =~= dir + seq!['/'] + n);
        assert(n.push(name.last()) =~= name);
    }
}

} // verus!
