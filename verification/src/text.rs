//! Small text helpers: decimal rendering of counters, zero-padded identifiers
//! and the whitespace classification used when reading mission scripts.

use vstd::prelude::*;
use vstd::string::*;

verus! {

broadcast use vstd::string::group_string_axioms;

/// The ASCII character for a digit value below ten.
pub open spec fn digit_char(d: nat) -> char {
    if d == 0 {
        '0'
    } else if d == 1 {
        '1'
    } else if d == 2 {
        '2'
    } else if d == 3 {
        '3'
    } else if d == 4 {
        '4'
    } else if d == 5 {
        '5'
    } else if d == 6 {
        '6'
    } else if d == 7 {
        '7'
    } else if d == 8 {
        '8'
    } else {
        '9'
    }
}

/// The decimal digits of `n`, most significant first, without leading zeros ("0" for zero).
pub open spec fn decimal(n: nat) -> Seq<char>
    decreases n,
{
    if n < 10 {
        seq![digit_char(n)]
    } else {
        decimal(n / 10).push(digit_char(n % 10))
    }
}

/// `s` preceded by as many '0' characters as needed to make it at least `width` long.
pub open spec fn zero_padded(s: Seq<char>, width: nat) -> Seq<char> {
    if s.len() >= width {
        s
    } else {
        Seq::new((width - s.len()) as nat, |i: int| '0') + s
    }
}

/// A sequence identifier such as `ALT-0007`: the prefix, a dash, and the counter
/// rendered in decimal with at least four digits.
pub open spec fn sequence_id(prefix: Seq<char>, n: nat) -> Seq<char> {
    prefix + seq!['-'] + zero_padded(decimal(n), 4)
}

/// The value of a decimal digit character (`0` for any other character).
pub open spec fn digit_value(c: char) -> nat {
    if c == '1' {
        1
    } else if c == '2' {
        2
    } else if c == '3' {
        3
    } else if c == '4' {
        4
    } else if c == '5' {
        5
    } else if c == '6' {
        6
    } else if c == '7' {
        7
    } else if c == '8' {
        8
    } else if c == '9' {
        9
    } else {
        0
    }
}

/// The number a string of decimal digits denotes; leading zeros add nothing.
pub open spec fn digits_value(s: Seq<char>) -> nat
    decreases s.len(),
{
    if s.len() == 0 {
        0
    } else {
        digits_value(s.drop_last()) * 10 + digit_value(s.last())
    }
}

/// A digit character denotes its digit.
proof fn lemma_digit_value(d: nat)
    requires
        d < 10,
    ensures
        digit_value(digit_char(d)) == d,
{
}

/// The decimal rendering of `n` denotes `n`.
pub proof fn lemma_decimal_value(n: nat)
    ensures
        digits_value(decimal(n)) == n,
    decreases n,
{
    if n >= 10 {
        lemma_decimal_value(n / 10);
        assert(decimal(n).drop_last() =~= decimal(n / 10));
        assert(decimal(n).last() == digit_char(n % 10));
        lemma_digit_value(n % 10);
        assert(n == (n / 10) * 10 + n % 10) by (nonlinear_arith);
        assert(digits_value(decimal(n)) == digits_value(decimal(n / 10)) * 10 + digit_value(
            digit_char(n % 10),
        ));
    } else {
        assert(seq![digit_char(n)].drop_last() =~= Seq::<char>::empty());
        assert(digits_value(Seq::<char>::empty()) == 0);
        lemma_digit_value(n);
        assert(digits_value(decimal(n)) == digits_value(Seq::<char>::empty()) * 10 + digit_value(
            digit_char(n),
        ));
    }
}

/// Leading zeros do not change the number a digit string denotes.
pub proof fn lemma_zeros_value(k: nat, s: Seq<char>)
    ensures
        digits_value(Seq::new(k, |i: int| '0') + s) == digits_value(s),
    decreases s.len(), k,
{
    let z = Seq::new(k, |i: int| '0');
    if s.len() > 0 {
        assert((z + s).drop_last() =~= z + s.drop_last());
        assert((z + s).last() == s.last());
        lemma_zeros_value(k, s.drop_last());
    } else if k > 0 {
        assert((z + s).drop_last() =~= Seq::new((k - 1) as nat, |i: int| '0') + s);
        assert((z + s).last() == '0');
        lemma_zeros_value((k - 1) as nat, s);
    } else {
        assert(z + s =~= s);
    }
}

/// A padded counter denotes the counter.
pub proof fn lemma_padded_value(n: nat, width: nat)
    ensures
        digits_value(zero_padded(decimal(n), width)) == n,
{
    lemma_decimal_value(n);
    let d = decimal(n);
    if d.len() < width {
        lemma_zeros_value((width - d.len()) as nat, d);
    }
}

/// Distinct counters give distinct sequence identifiers.
pub proof fn lemma_sequence_id_injective(prefix: Seq<char>, a: nat, b: nat)
    requires
        sequence_id(prefix, a) == sequence_id(prefix, b),
    ensures
        a == b,
{
    let h = prefix + seq!['-'];
    let pa = zero_padded(decimal(a), 4);
    let pb = zero_padded(decimal(b), 4);
    assert((h + pa).skip(h.len() as int) =~= pa);
    assert((h + pb).skip(h.len() as int) =~= pb);
    lemma_padded_value(a, 4);
    lemma_padded_value(b, 4);
}

/// The one-character string for a digit value below ten.
fn digit_str(d: usize) -> (s: &'static str)
    requires
        d < 10,
    ensures
        s@ == seq![digit_char(d as nat)],
{
    if d == 0 {
        proof { reveal_strlit("0"); }
        "0"
    } else if d == 1 {
        proof { reveal_strlit("1"); }
        "1"
    } else if d == 2 {
        proof { reveal_strlit("2"); }
        "2"
    } else if d == 3 {
        proof { reveal_strlit("3"); }
        "3"
    } else if d == 4 {
        proof { reveal_strlit("4"); }
        "4"
    } else if d == 5 {
        proof { reveal_strlit("5"); }
        "5"
    } else if d == 6 {
        proof { reveal_strlit("6"); }
        "6"
    } else if d == 7 {
        proof { reveal_strlit("7"); }
        "7"
    } else if d == 8 {
        proof { reveal_strlit("8"); }
        "8"
    } else {
        proof { reveal_strlit("9"); }
        "9"
    }
}

/// Renders `n` in decimal.
pub fn decimal_string(n: usize) -> (s: String)
    ensures
        s@ == decimal(n as nat),
    decreases n,
{
    if n < 10 {
        let s = digit_str(n).to_string();
        s
    } else {
        let mut s = decimal_string(n / 10);
        s.append(digit_str(n % 10));
        s
    }
}

/// Renders `prefix-NNNN`: the counter in decimal, zero-padded to at least four digits
/// (the `{:04}` format).
pub fn format_sequence_id(prefix: &str, n: usize) -> (s: String)
    ensures
        s@ == sequence_id(prefix@, n as nat),
{
    let digits = decimal_string(n);
    let mut s = prefix.to_string();
    proof { reveal_strlit("-"); }
    s.append("-");
    let ghost head = s@;
    let len = digits.as_str().unicode_len();
    let mut k = len;
    while k < 4
        invariant
            len == digits@.len(),
            len <= k <= 4 || (len > 4 && k == len),
            s@ == head + Seq::new((k - len) as nat, |i: int| '0'),
        decreases 4 - k,
    {
        proof { reveal_strlit("0"); }
        s.append("0");
        assert(s@ =~= head + Seq::new((k + 1 - len) as nat, |i: int| '0'));
        k = k + 1;
    }
    s.append(digits.as_str());
    proof {
        if len >= 4 {
            assert(Seq::new((k - len) as nat, |i: int| '0') =~= Seq::<char>::empty());
        }
        assert(s@ =~= sequence_id(prefix@, n as nat));
    }
    s
}

/// Whitespace as Rust's `char::is_whitespace` defines it: the Unicode `White_Space` property.
pub open spec fn is_whitespace(c: char) -> bool {
    let u = c as u32;
    (0x9 <= u <= 0xD) || u == 0x20 || u == 0x85 || u == 0xA0 || u == 0x1680 || (0x2000 <= u
        <= 0x200A) || u == 0x2028 || u == 0x2029 || u == 0x202F || u == 0x205F || u == 0x3000
}

/// Executable form of [`is_whitespace`].
pub fn char_is_whitespace(c: char) -> (b: bool)
    ensures
        b == is_whitespace(c),
{
    let u = c as u32;
    (0x9 <= u && u <= 0xD) || u == 0x20 || u == 0x85 || u == 0xA0 || u == 0x1680 || (0x2000 <= u
        && u <= 0x200A) || u == 0x2028 || u == 0x2029 || u == 0x202F || u == 0x205F || u == 0x3000
}

/// What `str::to_lowercase` returns for a string: its Unicode lower-case form.
pub uninterp spec fn lowercase(s: Seq<char>) -> Seq<char>;

/// Calls `str::to_lowercase`, which maps every character to its Unicode lower-case form.
/// The result is only named ([`lowercase`]); nothing more of it is stated.
#[verifier::external_body]
pub fn to_lowercase(s: &str) -> (r: String)
    ensures
        r@ == lowercase(s@),
{
    s.to_lowercase()
}

/// What `str::to_uppercase` returns for a string: its Unicode upper-case form.
pub uninterp spec fn uppercase(s: Seq<char>) -> Seq<char>;

/// Calls `str::to_uppercase`, which maps every character to its Unicode upper-case form.
/// The result is only named ([`uppercase`]); nothing more of it is stated.
#[verifier::external_body]
pub fn to_uppercase(s: &str) -> (r: String)
    ensures
        r@ == uppercase(s@),
{
    s.to_uppercase()
}

/// An ASCII decimal digit.
pub open spec fn is_digit(c: char) -> bool {
    '0' <= c && c <= '9'
}

/// `c` is the lower-case ASCII letter `lower` or its upper-case form.
pub open spec fn same_letter(c: char, lower: char) -> bool {
    c == lower || (c as u32) + 32 == (lower as u32)
}

/// `s` spells the lower-case ASCII word `word`, ignoring ASCII case.
pub open spec fn spells(s: Seq<char>, word: Seq<char>) -> bool {
    s.len() == word.len() && forall|i: int| 0 <= i < s.len() ==> same_letter(#[trigger] s[i], word[i])
}

/// A number's digits: digits and at most one decimal point, with at least one digit.
pub open spec fn mantissa_ok(m: Seq<char>) -> bool {
    &&& forall|i: int| 0 <= i < m.len() ==> is_digit(#[trigger] m[i]) || m[i] == '.'
    &&& forall|i: int, j: int| 0 <= i < m.len() && 0 <= j < m.len() && m[i] == '.' && m[j] == '.' ==> i == j
    &&& exists|i: int| 0 <= i < m.len() && is_digit(#[trigger] m[i])
}

/// One or more digits.
pub open spec fn all_digits(d: Seq<char>) -> bool {
    d.len() >= 1 && forall|i: int| 0 <= i < d.len() ==> is_digit(#[trigger] d[i])
}

/// An exponent: `e` or `E`, an optional sign, then one or more digits.
pub open spec fn exponent_ok(e: Seq<char>) -> bool {
    &&& e.len() >= 2
    &&& same_letter(e[0], 'e')
    &&& all_digits(if e[1] == '+' || e[1] == '-' { e.skip(2) } else { e.skip(1) })
}

/// A decimal number: digits, optionally followed by an exponent.
pub open spec fn number_ok(s: Seq<char>) -> bool {
    ||| mantissa_ok(s)
    ||| exists|k: int| 0 <= k < s.len() && #[trigger] same_letter(s[k], 'e') && mantissa_ok(s.take(k)) && exponent_ok(s.skip(k))
}

/// The strings that `str::parse::<f64>` accepts, by the grammar its documentation gives:
/// an optional sign, then `inf`, `infinity` or `nan` in any ASCII case, or a decimal
/// number with an optional exponent. No surrounding whitespace is allowed.
pub open spec fn float_literal(s: Seq<char>) -> bool {
    let body = if s.len() > 0 && (s[0] == '+' || s[0] == '-') { s.skip(1) } else { s };
    ||| spells(body, "inf"@)
    ||| spells(body, "infinity"@)
    ||| spells(body, "nan"@)
    ||| number_ok(body)
}

fn is_digit_char(c: char) -> (b: bool)
    ensures
        b == is_digit(c),
{
    '0' <= c && c <= '9'
}

fn same_letter_char(c: char, lower: char) -> (b: bool)
    requires
        'a' <= lower <= 'z',
    ensures
        b == same_letter(c, lower),
{
    c == lower || (c as u32) + 32 == (lower as u32)
}

/// Whether `chars[a..b]` spells a lower-case ASCII word, ignoring ASCII case.
fn spells_at(chars: &Vec<char>, a: usize, b: usize, word: &str) -> (r: bool)
    requires
        a <= b <= chars.len(),
        forall|i: int| 0 <= i < word@.len() ==> 'a' <= #[trigger] word@[i] <= 'z',
    ensures
        r == spells(chars@.subrange(a as int, b as int), word@),
{
    let ghost s = chars@.subrange(a as int, b as int);
    let n = word.unicode_len();
    if b - a != n {
        return false;
    }
    let mut i: usize = 0;
    while i < n
        invariant
            n == word@.len(),
            b - a == n,
            a <= b <= chars.len(),
            s == chars@.subrange(a as int, b as int),
            forall|i: int| 0 <= i < word@.len() ==> 'a' <= #[trigger] word@[i] <= 'z',
            0 <= i <= n,
            forall|j: int| 0 <= j < i ==> same_letter(#[trigger] s[j], word@[j]),
        decreases n - i,
    {
        assert(s[i as int] == chars@[a + i]);
        if !same_letter_char(chars[a + i], word.get_char(i)) {
            return false;
        }
        i = i + 1;
    }
    true
}

/// Whether `chars[a..b]` is a valid number mantissa.
fn mantissa_at(chars: &Vec<char>, a: usize, b: usize) -> (r: bool)
    requires
        a <= b <= chars.len(),
    ensures
        r == mantissa_ok(chars@.subrange(a as int, b as int)),
{
    let ghost m = chars@.subrange(a as int, b as int);
    let mut dots: usize = 0;
    let mut dot_at: usize = 0;
    let mut digits = false;
    let mut i = a;
    while i < b
        invariant
            a <= i <= b <= chars.len(),
            m == chars@.subrange(a as int, b as int),
            dots <= 1,
            forall|j: int| 0 <= j < i - a ==> is_digit(#[trigger] m[j]) || m[j] == '.',
            dots == 0 ==> forall|j: int| 0 <= j < i - a ==> m[j] != '.',
            dots == 1 ==> a <= dot_at < i && m[dot_at - a] == '.' && forall|j: int|
                0 <= j < i - a && m[j] == '.' ==> j == dot_at - a,
            digits <==> exists|j: int| 0 <= j < i - a && is_digit(#[trigger] m[j]),
        decreases b - i,
    {
        let c = chars[i];
        if is_digit_char(c) {
            digits = true;
            assert(is_digit(m[i - a]));
        } else if c == '.' {
            if dots == 1 {
                assert(m[dot_at - a] == '.' && m[i - a] == '.');
                return false;
            }
            dots = 1;
            dot_at = i;
        } else {
            assert(!(is_digit(m[i - a]) || m[i - a] == '.'));
            return false;
        }
        i = i + 1;
    }
    digits
}

/// Whether `chars[a..b]` holds only digits, at least one.
fn digits_at(chars: &Vec<char>, a: usize, b: usize) -> (r: bool)
    requires
        a <= b <= chars.len(),
    ensures
        r == all_digits(chars@.subrange(a as int, b as int)),
{
    let ghost d = chars@.subrange(a as int, b as int);
    if a == b {
        return false;
    }
    let mut i = a;
    while i < b
        invariant
            a <= i <= b <= chars.len(),
            d == chars@.subrange(a as int, b as int),
            forall|j: int| 0 <= j < i - a ==> is_digit(#[trigger] d[j]),
        decreases b - i,
    {
        if !is_digit_char(chars[i]) {
            assert(!is_digit(d[i - a]));
            return false;
        }
        i = i + 1;
    }
    true
}

/// Whether `chars[a..b]` is a valid exponent.
fn exponent_at(chars: &Vec<char>, a: usize, b: usize) -> (r: bool)
    requires
        a <= b <= chars.len(),
    ensures
        r == exponent_ok(chars@.subrange(a as int, b as int)),
{
    let ghost e = chars@.subrange(a as int, b as int);
    assert(b - a >= 2 ==> e[0] == chars@[a as int] && e[1] == chars@[a + 1]);
    if b - a < 2 || !same_letter_char(chars[a], 'e') {
        return false;
    }
    let start = if chars[a + 1] == '+' || chars[a + 1] == '-' {
        a + 2
    } else {
        a + 1
    };
    let r = digits_at(chars, start, b);
    proof {
        let digits = if e[1] == '+' || e[1] == '-' { e.skip(2) } else { e.skip(1) };
        assert(digits =~= chars@.subrange(start as int, b as int));
    }
    r
}

/// Whether `chars[a..b]` is a decimal number with an optional exponent.
fn number_at(chars: &Vec<char>, a: usize, b: usize) -> (r: bool)
    requires
        a <= b <= chars.len(),
    ensures
        r == number_ok(chars@.subrange(a as int, b as int)),
{
    let ghost s = chars@.subrange(a as int, b as int);
    let mut k = a;
    while k < b && !same_letter_char(chars[k], 'e')
        invariant
            a <= k <= b <= chars.len(),
            s == chars@.subrange(a as int, b as int),
            forall|j: int| 0 <= j < k - a ==> !same_letter(#[trigger] s[j], 'e'),
        decreases b - k,
    {
        k = k + 1;
    }
    if k == b {
        let r = mantissa_at(chars, a, b);
        proof {
            if !r {
                assert forall|j: int| 0 <= j < s.len() implies !#[trigger] same_letter(s[j], 'e') by {}
            }
        }
        return r;
    }
    let m = mantissa_at(chars, a, k);
    let x = exponent_at(chars, k, b);
    proof {
        let kk = k - a;
        assert(same_letter(s[kk], 'e'));
        assert(s.take(kk) =~= chars@.subrange(a as int, k as int));
        assert(s.skip(kk) =~= chars@.subrange(k as int, b as int));
        // The whole string is no mantissa: it holds an exponent letter.
        assert(!mantissa_ok(s)) by {
            assert(!is_digit(s[kk]) && s[kk] != '.');
        }
        assert forall|k2: int|
            0 <= k2 < s.len() && #[trigger] same_letter(s[k2], 'e') && mantissa_ok(s.take(k2)) && exponent_ok(
                s.skip(k2),
            ) implies k2 == kk by {
            if k2 > kk {
                assert(s.take(k2)[kk] == s[kk]);
                assert(!is_digit(s[kk]) && s[kk] != '.');
            }
        }
    }
    m && x
}

/// Whether `chars[a..b]` is accepted by `str::parse::<f64>` (see [`float_literal`]).
pub fn float_literal_at(chars: &Vec<char>, a: usize, b: usize) -> (r: bool)
    requires
        a <= b <= chars.len(),
    ensures
        r == float_literal(chars@.subrange(a as int, b as int)),
{
    let ghost s = chars@.subrange(a as int, b as int);
    let start = if a < b && (chars[a] == '+' || chars[a] == '-') {
        a + 1
    } else {
        a
    };
    proof {
        let body = if s.len() > 0 && (s[0] == '+' || s[0] == '-') { s.skip(1) } else { s };
        assert(body =~= chars@.subrange(start as int, b as int));
        reveal_strlit("inf");
        reveal_strlit("infinity");
        reveal_strlit("nan");
    }
    spells_at(chars, start, b, "inf") || spells_at(chars, start, b, "infinity") || spells_at(chars, start, b, "nan")
        || number_at(chars, start, b)
}

/// The characters of `s`, in order.
pub fn chars_of(s: &str) -> (v: Vec<char>)
    ensures
        v@ == s@,
{
    let mut v: Vec<char> = Vec::new();
    for c in it: s.chars()
        invariant
            v@ == it.seq().take(it.index() as int),
            it.seq() == s@,
    {
        v.push(c);
    }
    v
}

/// `s` with every occurrence of `from` replaced by `to`: occurrences are found from left to
/// right, and a replaced occurrence is not searched again. An empty `from` replaces nothing
/// here.
pub open spec fn replace_all(s: Seq<char>, from: Seq<char>, to: Seq<char>) -> Seq<char>
    decreases s.len(),
{
    if from.len() == 0 || s.len() < from.len() {
        s
    } else if s.take(from.len() as int) == from {
        to + replace_all(s.skip(from.len() as int), from, to)
    } else {
        seq![s[0]] + replace_all(s.skip(1), from, to)
    }
}

/// Replacing in a text without a character of the pattern changes nothing.
pub proof fn lemma_replace_absent(s: Seq<char>, from: Seq<char>, to: Seq<char>, c: char)
    requires
        from.contains(c),
        !s.contains(c),
    ensures
        replace_all(s, from, to) == s,
    decreases s.len(),
{
    if s.len() >= from.len() && from.len() > 0 {
        if s.take(from.len() as int) == from {
            let k = choose|k: int| 0 <= k < from.len() && from[k] == c;
            assert(s.take(from.len() as int)[k] == s[k]);
        }
        assert(!s.skip(1).contains(c)) by {
            if s.skip(1).contains(c) {
                let k = choose|k: int| 0 <= k < s.skip(1).len() && s.skip(1)[k] == c;
                assert(s[k + 1] == c);
            }
        }
        lemma_replace_absent(s.skip(1), from, to, c);
        assert(seq![s[0]] + s.skip(1) =~= s);
    }
}

/// No match of a pattern spans a character the pattern does not hold: replacing in `a + b`
/// replaces in `a` and in `b` separately when `b` starts with such a character.
pub proof fn lemma_replace_split_before(a: Seq<char>, b: Seq<char>, from: Seq<char>, to: Seq<char>)
    requires
        b.len() > 0,
        !from.contains(b[0]),
    ensures
        replace_all(a + b, from, to) == replace_all(a, from, to) + replace_all(b, from, to),
    decreases a.len(),
{
    let s = a + b;
    if from.len() == 0 || s.len() < from.len() {
        assert(replace_all(a, from, to) == a);
        assert(replace_all(b, from, to) == b);
    } else if a.len() == 0 {
        assert(s =~= b);
        assert(replace_all(a, from, to) == a);
        assert(a + replace_all(b, from, to) =~= replace_all(b, from, to));
    } else if s.take(from.len() as int) == from {
        if from.len() > a.len() {
            assert(s.take(from.len() as int)[a.len() as int] == b[0]);
            assert(from[a.len() as int] == b[0]);
        }
        assert(a.take(from.len() as int) =~= s.take(from.len() as int));
        assert(s.skip(from.len() as int) =~= a.skip(from.len() as int) + b);
        lemma_replace_split_before(a.skip(from.len() as int), b, from, to);
        assert(to + (replace_all(a.skip(from.len() as int), from, to) + replace_all(b, from, to)) =~= (to
            + replace_all(a.skip(from.len() as int), from, to)) + replace_all(b, from, to));
    } else {
        assert(s.skip(1) =~= a.skip(1) + b);
        assert(s[0] == a[0]);
        lemma_replace_split_before(a.skip(1), b, from, to);
        if a.len() >= from.len() {
            assert(a.take(from.len() as int) =~= s.take(from.len() as int));
        } else {
            assert(replace_all(a, from, to) == a);
            assert(replace_all(a.skip(1), from, to) == a.skip(1));
            assert(seq![a[0]] + a.skip(1) =~= a);
        }
        assert(seq![a[0]] + (replace_all(a.skip(1), from, to) + replace_all(b, from, to)) =~= (seq![a[0]]
            + replace_all(a.skip(1), from, to)) + replace_all(b, from, to));
    }
}

/// Replacing in `a + b` replaces in `a` and in `b` separately when `a` ends with a character
/// the pattern does not hold.
pub proof fn lemma_replace_split_after(a: Seq<char>, b: Seq<char>, from: Seq<char>, to: Seq<char>)
    requires
        a.len() > 0,
        !from.contains(a.last()),
    ensures
        replace_all(a + b, from, to) == replace_all(a, from, to) + replace_all(b, from, to),
    decreases a.len(),
{
    let s = a + b;
    if from.len() == 0 || s.len() < from.len() {
        assert(replace_all(a, from, to) == a);
        assert(replace_all(b, from, to) == b);
    } else if s.take(from.len() as int) == from {
        if from.len() >= a.len() {
            assert(s.take(from.len() as int)[a.len() - 1] == a.last());
            assert(from[a.len() - 1] == a.last());
        }
        assert(a.take(from.len() as int) =~= s.take(from.len() as int));
        assert(s.skip(from.len() as int) =~= a.skip(from.len() as int) + b);
        assert(a.skip(from.len() as int).last() == a.last());
        lemma_replace_split_after(a.skip(from.len() as int), b, from, to);
        assert(to + (replace_all(a.skip(from.len() as int), from, to) + replace_all(b, from, to)) =~= (to
            + replace_all(a.skip(from.len() as int), from, to)) + replace_all(b, from, to));
    } else {
        assert(s.skip(1) =~= a.skip(1) + b);
        assert(s[0] == a[0]);
        if a.len() == 1 {
            assert(s.skip(1) =~= b);
            if from.len() == 1 {
                assert(a.take(1) =~= s.take(1));
                assert(a.skip(1) =~= Seq::<char>::empty());
                assert(replace_all(a.skip(1), from, to) == a.skip(1));
            }
            assert(replace_all(a, from, to) =~= a);
        } else {
            assert(a.skip(1).last() == a.last());
            lemma_replace_split_after(a.skip(1), b, from, to);
            if a.len() >= from.len() {
                assert(a.take(from.len() as int) =~= s.take(from.len() as int));
            } else {
                assert(replace_all(a, from, to) == a);
                assert(replace_all(a.skip(1), from, to) == a.skip(1));
                assert(seq![a[0]] + a.skip(1) =~= a);
            }
            assert(seq![a[0]] + (replace_all(a.skip(1), from, to) + replace_all(b, from, to)) =~= (seq![a[0]]
                + replace_all(a.skip(1), from, to)) + replace_all(b, from, to));
        }
    }
}

/// Replacing around a segment that starts and ends with characters the pattern does not
/// hold replaces before it, in it and after it separately.
pub proof fn lemma_replace_around(x: Seq<char>, seg: Seq<char>, y: Seq<char>, from: Seq<char>, to: Seq<char>)
    requires
        seg.len() > 0,
        !from.contains(seg[0]),
        !from.contains(seg.last()),
    ensures
        replace_all(x + seg + y, from, to) == replace_all(x, from, to) + replace_all(seg, from, to)
            + replace_all(y, from, to),
{
    assert((x + seg).last() == seg.last());
    lemma_replace_split_after(x + seg, y, from, to);
    lemma_replace_split_before(x, seg, from, to);
}

/// The digits of a decimal rendering are digits.
pub proof fn lemma_decimal_digits(n: nat)
    ensures
        forall|i: int| 0 <= i < decimal(n).len() ==> is_digit(#[trigger] decimal(n)[i]),
    decreases n,
{
    if n >= 10 {
        lemma_decimal_digits(n / 10);
        assert forall|i: int| 0 <= i < decimal(n).len() implies is_digit(#[trigger] decimal(n)[i]) by {
            if i < decimal(n / 10).len() {
                assert(decimal(n)[i] == decimal(n / 10)[i]);
            }
        }
    }
}

/// Whether `pat` occurs in `cs` at position `i`.
fn occurs_at(cs: &Vec<char>, i: usize, pat: &Vec<char>) -> (b: bool)
    requires
        i <= cs.len(),
    ensures
        b == (cs@.len() - i >= pat@.len() && cs@.skip(i as int).take(pat@.len() as int) == pat@),
{
    if cs.len() - i < pat.len() {
        return false;
    }
    let ghost w = cs@.skip(i as int).take(pat@.len() as int);
    let mut j: usize = 0;
    while j < pat.len()
        invariant
            i <= cs.len(),
            cs.len() - i >= pat.len(),
            j <= pat.len(),
            w == cs@.skip(i as int).take(pat@.len() as int),
            forall|k: int| 0 <= k < j ==> w[k] == pat@[k],
        decreases pat.len() - j,
    {
        assert(w[j as int] == cs@[i + j]);
        if cs[i + j] != pat[j] {
            return false;
        }
        j = j + 1;
    }
    assert(w =~= pat@);
    true
}

/// `s` with every occurrence of the non-empty `from` replaced by `to`, found from left to
/// right without overlapping (see [`replace_all`]), as `str::replace` does.
pub fn replace(s: &str, from: &str, to: &str) -> (r: String)
    requires
        from@.len() > 0,
    ensures
        r@ == replace_all(s@, from@, to@),
{
    let cs = chars_of(s);
    let fs = chars_of(from);
    let mut out = String::new();
    let mut i: usize = 0;
    proof {
        assert(s@.skip(0) =~= s@);
    }
    while i < cs.len()
        invariant
            cs@ == s@,
            fs@ == from@,
            from@.len() > 0,
            i <= cs.len(),
            out@ + replace_all(s@.skip(i as int), from@, to@) == replace_all(s@, from@, to@),
        decreases cs.len() - i,
    {
        let ghost rest = s@.skip(i as int);
        let ghost before = out@;
        if occurs_at(&cs, i, &fs) {
            proof {
                assert(rest.skip(from@.len() as int) =~= s@.skip(i + from@.len()));
                assert(replace_all(rest, from@, to@) == to@ + replace_all(
                    rest.skip(from@.len() as int),
                    from@,
                    to@,
                ));
            }
            out.append(to);
            proof {
                assert(out@ + replace_all(s@.skip(i + from@.len()), from@, to@) =~= before
                    + replace_all(rest, from@, to@));
            }
            i = i + fs.len();
        } else {
            proof {
                assert(rest.skip(1) =~= s@.skip(i + 1));
                if rest.len() < from@.len() {
                    assert(rest.skip(1).len() < from@.len());
                    assert(replace_all(rest.skip(1), from@, to@) == rest.skip(1));
                    assert(seq![rest[0]] + rest.skip(1) =~= rest);
                }
                assert(replace_all(rest, from@, to@) == seq![rest[0]] + replace_all(
                    rest.skip(1),
                    from@,
                    to@,
                ));
            }
            let c = s.substring_char(i, i + 1);
            proof {
                assert(c@ =~= seq![rest[0]]);
            }
            out.append(c);
            proof {
                assert(out@ + replace_all(s@.skip(i + 1), from@, to@) =~= before + replace_all(
                    rest,
                    from@,
                    to@,
                ));
            }
            i = i + 1;
        }
    }
    proof {
        assert(s@.skip(i as int) =~= Seq::<char>::empty());
        assert(out@ + Seq::<char>::empty() =~= out@);
    }
    out
}

} // verus!
