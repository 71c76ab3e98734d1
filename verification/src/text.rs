//! Text as sequences of characters: prefixes, the lexicographic order that
//! the stores iterate in, and decimal numerals.

use vstd::prelude::*;

verus! {

/// How two texts stand to each other in lexicographic order.
#[derive(Clone, Copy, Debug, PartialEq, Eq, Structural)]
pub enum Order {
    Before,
    Same,
    After,
}

/// `a` and `b` agree on the first `i` characters; does `a`, from there on, sort
/// strictly before `b`? Characters are ordered by code point.
pub open spec fn lex_lt_from(a: Seq<char>, b: Seq<char>, i: int) -> bool
    decreases a.len() - i,
{
    if i < 0 || i >= b.len() {
        false
    } else if i >= a.len() {
        true
    } else if a[i] != b[i] {
        a[i] < b[i]
    } else {
        lex_lt_from(a, b, i + 1)
    }
}

/// Strict lexicographic order on texts: a proper prefix sorts first, otherwise
/// the first differing character decides.
pub open spec fn lex_lt(a: Seq<char>, b: Seq<char>) -> bool {
    lex_lt_from(a, b, 0)
}

/// `p` is a prefix of `s`.
pub open spec fn starts_with(s: Seq<char>, p: Seq<char>) -> bool {
    p.len() <= s.len() && s.subrange(0, p.len() as int) == p
}

/// `p` is a suffix of `s`.
pub open spec fn ends_with(s: Seq<char>, p: Seq<char>) -> bool {
    p.len() <= s.len() && s.subrange(s.len() - p.len(), s.len() as int) == p
}

/// The character that writes the digit `d`.
pub open spec fn digit_char(d: int) -> char {
    if d == 0 {
        '0'
    } else if d == 1 {
        '1'
    } else if d == 2 {
        '2'
    } else if d == 3 {
        '3'
    } else if d == 4 {
        '4'
    } else if d == 5 {
        '5'
    } else if d == 6 {
        '6'
    } else if d == 7 {
        '7'
    } else if d == 8 {
        '8'
    } else {
        '9'
    }
}

/// The decimal numeral of `n`, without leading zeros.
pub open spec fn decimal(n: nat) -> Seq<char>
    decreases n,
{
    if n < 10 {
        seq![digit_char(n as int)]
    } else {
        decimal(n / 10).push(digit_char((n % 10) as int))
    }
}

/// The decimal numeral of `i`, with a minus sign when it is negative.
pub open spec fn signed_decimal(i: int) -> Seq<char> {
    if i < 0 {
        seq!['-'] + decimal((-i) as nat)
    } else {
        decimal(i as nat)
    }
}

/// Lexicographic order is irreflexive.
pub proof fn lemma_lex_irreflexive(a: Seq<char>, i: int)
    requires
        0 <= i,
    ensures
        !lex_lt_from(a, a, i),
    decreases a.len() - i,
{
    if i < a.len() {
        lemma_lex_irreflexive(a, i + 1);
    }
}

/// Lexicographic order is transitive.
pub proof fn lemma_lex_transitive(a: Seq<char>, b: Seq<char>, c: Seq<char>, i: int)
    requires
        0 <= i,
        lex_lt_from(a, b, i),
        lex_lt_from(b, c, i),
    ensures
        lex_lt_from(a, c, i),
    decreases a.len() - i,
{
    if i < a.len() && i < b.len() && i < c.len() && a[i] == b[i] && b[i] == c[i] {
        lemma_lex_transitive(a, b, c, i + 1);
    }
}

/// Two texts that agree on their first `i` characters are equal, or one sorts
/// before the other from there on.
pub proof fn lemma_lex_total(a: Seq<char>, b: Seq<char>, i: int)
    requires
        0 <= i <= a.len(),
        i <= b.len(),
        a.subrange(0, i) == b.subrange(0, i),
    ensures
        a == b || lex_lt_from(a, b, i) || lex_lt_from(b, a, i),
    decreases a.len() - i,
{
    if i < a.len() && i < b.len() {
        if a[i] == b[i] {
            assert(a.subrange(0, i + 1) == a.subrange(0, i).push(a[i]));
            assert(b.subrange(0, i + 1) == b.subrange(0, i).push(b[i]));
            lemma_lex_total(a, b, i + 1);
        }
    } else if i == a.len() && i == b.len() {
        assert(a == a.subrange(0, i));
        assert(b == b.subrange(0, i));
    }
}

/// Lexicographic order is a strict total order: no text sorts before
/// itself, the order is transitive, and of two different texts one sorts
/// before the other.
pub proof fn law_lex_order(a: Seq<char>, b: Seq<char>, c: Seq<char>)
    ensures
        !lex_lt(a, a),
        lex_lt(a, b) && lex_lt(b, c) ==> lex_lt(a, c),
        a == b || lex_lt(a, b) || lex_lt(b, a),
        !(lex_lt(a, b) && lex_lt(b, a)),
{
    lemma_lex_irreflexive(a, 0);
    if lex_lt(a, b) && lex_lt(b, c) {
        lemma_lex_transitive(a, b, c, 0);
    }
    assert(a.subrange(0, 0) =~= b.subrange(0, 0));
    lemma_lex_total(a, b, 0);
    if lex_lt(a, b) {
        lemma_lex_asymmetric(a, b);
    }
}

/// A text that sorts before another differs from it, and the other does not
/// sort before it.
pub proof fn lemma_lex_asymmetric(a: Seq<char>, b: Seq<char>)
    requires
        lex_lt(a, b),
    ensures
        a != b,
        !lex_lt(b, a),
{
    lemma_lex_irreflexive(a, 0);
    if lex_lt(b, a) {
        lemma_lex_transitive(a, b, a, 0);
    }
}

/// The characters of `s`, in order.
pub fn chars_of(s: &str) -> (v: Vec<char>)
    ensures
        v@ == s@,
{
    let mut v: Vec<char> = Vec::new();
    for c in it: s.chars()
        invariant
            v@ == it.seq().take(it.index() as int),
            it.seq() == s@,
    {
        v.push(c);
    }
    v
}

/// Compares two texts lexicographically.
pub fn compare_chars(a: &Vec<char>, b: &Vec<char>) -> (r: Order)
    ensures
        r == Order::Before <==> lex_lt(a@, b@),
        r == Order::Same <==> a@ == b@,
        r == Order::After <==> lex_lt(b@, a@),
{
    let mut i: usize = 0;
    while i < a.len() && i < b.len()
        invariant
            i <= a.len(),
            i <= b.len(),
            a@.subrange(0, i as int) == b@.subrange(0, i as int),
            lex_lt(a@, b@) == lex_lt_from(a@, b@, i as int),
            lex_lt(b@, a@) == lex_lt_from(b@, a@, i as int),
        decreases a.len() - i,
    {
        let x: char = a[i];
        let y: char = b[i];
        if x != y {
            proof {
                assert(a@[i as int] != b@[i as int]);
                assert(a@ != b@);
            }
            if x < y {
                return Order::Before;
            } else {
                return Order::After;
            }
        }
        proof {
            assert(a@.subrange(0, i + 1) == a@.subrange(0, i as int).push(a@[i as int]));
            assert(b@.subrange(0, i + 1) == b@.subrange(0, i as int).push(b@[i as int]));
        }
        i += 1;
    }
    if i < b.len() {
        assert(a@ != b@);
        Order::Before
    } else if i < a.len() {
        assert(a@ != b@);
        Order::After
    } else {
        proof {
            assert(a@ == a@.subrange(0, i as int));
            assert(b@ == b@.subrange(0, i as int));
        }
        Order::Same
    }
}

/// Compares two texts lexicographically.
pub fn compare_text(a: &str, b: &str) -> (r: Order)
    ensures
        r == Order::Before <==> lex_lt(a@, b@),
        r == Order::Same <==> a@ == b@,
        r == Order::After <==> lex_lt(b@, a@),
{
    let x = chars_of(a);
    let y = chars_of(b);
    compare_chars(&x, &y)
}

/// Are the two texts the same?
pub fn same_text(a: &str, b: &str) -> (r: bool)
    ensures
        r == (a@ == b@),
{
    match compare_text(a, b) {
        Order::Same => true,
        _ => false,
    }
}

/// Does `s`, from position `at` on, continue with `p`?
pub fn continues_with(s: &Vec<char>, at: usize, p: &Vec<char>) -> (r: bool)
    requires
        at <= s.len(),
    ensures
        r == starts_with(s@.subrange(at as int, s.len() as int), p@),
{
    let ghost rest = s@.subrange(at as int, s.len() as int);
    if p.len() > s.len() - at {
        return false;
    }
    let mut i: usize = 0;
    while i < p.len()
        invariant
            at <= s.len(),
            p.len() <= s.len() - at,
            i <= p.len(),
            rest == s@.subrange(at as int, s.len() as int),
            rest.subrange(0, i as int) == p@.subrange(0, i as int),
        decreases p.len() - i,
    {
        if s[at + i] != p[i] {
            proof {
                assert(rest[i as int] == s@[at + i]);
                if rest.subrange(0, p.len() as int) == p@ {
                    assert(rest.subrange(0, p.len() as int)[i as int] == p@[i as int]);
                }
            }
            return false;
        }
        proof {
            assert(rest[i as int] == s@[at + i]);
            assert(rest.subrange(0, i + 1) == rest.subrange(0, i as int).push(rest[i as int]));
            assert(p@.subrange(0, i + 1) == p@.subrange(0, i as int).push(p@[i as int]));
        }
        i += 1;
    }
    proof {
        assert(p@ == p@.subrange(0, i as int));
    }
    true
}

/// Does `s` start with `p`?
pub fn text_starts_with(s: &str, p: &str) -> (r: bool)
    ensures
        r == starts_with(s@, p@),
{
    let x = chars_of(s);
    let y = chars_of(p);
    proof {
        assert(x@.subrange(0, x@.len() as int) == x@);
    }
    continues_with(&x, 0, &y)
}

/// Does `s` end with `p`?
pub fn text_ends_with(s: &str, p: &str) -> (r: bool)
    ensures
        r == ends_with(s@, p@),
{
    let x = chars_of(s);
    let y = chars_of(p);
    if y.len() > x.len() {
        return false;
    }
    let at: usize = x.len() - y.len();
    let r = continues_with(&x, at, &y);
    proof {
        let rest = x@.subrange(at as int, x@.len() as int);
        assert(rest.len() == y@.len());
        assert(rest.subrange(0, y@.len() as int) == rest);
    }
    r
}

/// The numeral of one decimal digit.
fn digit_text(d: u8) -> (r: &'static str)
    requires
        d < 10,
    ensures
        r@ == seq![digit_char(d as int)],
{
    proof {
        reveal_strlit("0");
        reveal_strlit("1");
        reveal_strlit("2");
        reveal_strlit("3");
        reveal_strlit("4");
        reveal_strlit("5");
        reveal_strlit("6");
        reveal_strlit("7");
        reveal_strlit("8");
        reveal_strlit("9");
    }
    let r = if d == 0 {
        "0"
    } else if d == 1 {
        "1"
    } else if d == 2 {
        "2"
    } else if d == 3 {
        "3"
    } else if d == 4 {
        "4"
    } else if d == 5 {
        "5"
    } else if d == 6 {
        "6"
    } else if d == 7 {
        "7"
    } else if d == 8 {
        "8"
    } else {
        "9"
    };
    assert(r@ =~= seq![digit_char(d as int)]);
    r
}

/// Appends the decimal numeral of `n` to `out`.
fn push_decimal(out: &mut String, n: u64)
    ensures
        final(out)@ == old(out)@ + decimal(n as nat),
    decreases n,
{
    if n >= 10 {
        push_decimal(out, n / 10);
    }
    let d: u8 = (n % 10) as u8;
    out.append(digit_text(d));
    proof {
        if n >= 10 {
            assert(final(out)@ =~= old(out)@ + decimal(n as nat));
        } else {
            assert(final(out)@ =~= old(out)@ + decimal(n as nat));
        }
    }
}

/// The decimal numeral of `n`.
pub fn decimal_text(n: u64) -> (r: String)
    ensures
        r@ == decimal(n as nat),
{
    let mut out = String::new();
    push_decimal(&mut out, n);
    proof {
        assert(Seq::<char>::empty() + decimal(n as nat) =~= decimal(n as nat));
    }
    out
}

/// The decimal numeral of `i`, with a minus sign when it is negative.
pub fn signed_decimal_text(i: i64) -> (r: String)
    ensures
        r@ == signed_decimal(i as int),
{
    if i < 0 {
        let magnitude: u64 = if i == i64::MIN {
            9223372036854775808u64
        } else {
            (-i) as u64
        };
        let mut out = String::new();
        proof {
            reveal_strlit("-");
        }
        out.append("-");
        push_decimal(&mut out, magnitude);
        proof {
            assert(out@ =~= seq!['-'] + decimal((-i) as nat));
        }
        out
    } else {
        decimal_text(i as u64)
    }
}

/// The digit that `c` writes, if it writes one.
pub open spec fn digit_of(c: char) -> Option<nat> {
    if '0' <= c && c <= '9' {
        Some((c as nat - '0' as nat) as nat)
    } else {
        None
    }
}

/// The number that `s` writes in decimal digits; nothing for the empty text
/// and for a text with anything but digits.
pub open spec fn digits_value(s: Seq<char>) -> Option<nat>
    decreases s.len(),
{
    if s.len() == 0 {
        None
    } else {
        match digit_of(s.last()) {
            None => None,
            Some(d) => if s.len() == 1 {
                Some(d)
            } else {
                match digits_value(s.drop_last()) {
                    Some(h) => Some(10 * h + d),
                    None => None,
                }
            },
        }
    }
}

/// The number that `s` writes, if it is at most `limit`.
pub open spec fn digits_upto(s: Seq<char>, limit: nat) -> Option<nat> {
    match digits_value(s) {
        Some(v) => if v <= limit {
            Some(v)
        } else {
            None
        },
        None => None,
    }
}

/// The 16-bit number that `s` writes: decimal digits, with or without a plus
/// sign in front.
pub open spec fn parse_u16(s: Seq<char>) -> Option<u16> {
    let digits = if s.len() > 0 && s[0] == '+' {
        s.subrange(1, s.len() as int)
    } else {
        s
    };
    match digits_upto(digits, 65535) {
        Some(v) => Some(v as u16),
        None => None,
    }
}

/// The 64-bit signed number that `s` writes: decimal digits, with or without
/// a sign in front.
pub open spec fn parse_i64(s: Seq<char>) -> Option<i64> {
    if s.len() > 0 && s[0] == '-' {
        match digits_upto(s.subrange(1, s.len() as int), 9223372036854775808) {
            Some(v) => Some((-(v as int)) as i64),
            None => None,
        }
    } else {
        let digits = if s.len() > 0 && s[0] == '+' {
            s.subrange(1, s.len() as int)
        } else {
            s
        };
        match digits_upto(digits, 9223372036854775807) {
            Some(v) => Some(v as i64),
            None => None,
        }
    }
}

/// A text that writes a number does so with every prefix, and no prefix
/// writes a greater number than the whole.
pub proof fn lemma_digits_prefix(s: Seq<char>, i: int)
    requires
        0 < i <= s.len(),
        digits_value(s) is Some,
    ensures
        digits_value(s.take(i)) is Some,
        digits_value(s.take(i))->0 <= digits_value(s)->0,
    decreases s.len(),
{
    if i == s.len() {
        assert(s.take(i) =~= s);
    } else {
        assert(s.drop_last().take(i) =~= s.take(i));
        lemma_digits_prefix(s.drop_last(), i);
    }
}

/// The number that the characters of `s` from position `from` on write, if
/// it is at most `limit`.
pub fn read_digits(s: &Vec<char>, from: usize, limit: u64) -> (r: Option<u64>)
    requires
        from <= s.len(),
    ensures
        r is Some <==> digits_upto(s@.subrange(from as int, s.len() as int), limit as nat) is Some,
        r is Some ==> r->0 == digits_upto(s@.subrange(from as int, s.len() as int), limit as nat)->0,
{
    let ghost body = s@.subrange(from as int, s.len() as int);
    if from == s.len() {
        return None;
    }
    let mut acc: u128 = 0;
    let mut i: usize = from;
    while i < s.len()
        invariant
            from <= i <= s.len(),
            from < s.len(),
            body == s@.subrange(from as int, s.len() as int),
            acc <= limit,
            i > from ==> digits_value(body.take(i - from)) == Some(acc as nat),
            i == from ==> acc == 0,
        decreases s.len() - i,
    {
        let c: char = s[i];
        let ghost upto = body.take(i - from + 1);
        proof {
            assert(upto.last() == c);
            if i > from {
                assert(upto.drop_last() =~= body.take(i - from));
            }
        }
        if c < '0' || c > '9' {
            proof {
                if digits_value(body) is Some {
                    lemma_digits_prefix(body, i - from + 1);
                }
            }
            return None;
        }
        let d: u128 = (c as u32 - '0' as u32) as u128;
        proof {
            assert(digit_of(c) == Some(d as nat));
        }
        acc = acc * 10 + d;
        proof {
            assert(digits_value(upto) == Some(acc as nat));
        }
        if acc > limit as u128 {
            proof {
                if digits_value(body) is Some {
                    lemma_digits_prefix(body, i - from + 1);
                }
            }
            return None;
        }
        i += 1;
    }
    proof {
        assert(body.take(body.len() as int) =~= body);
    }
    Some(acc as u64)
}

/// The 16-bit number that `s` writes.
pub fn parse_u16_text(s: &str) -> (r: Option<u16>)
    ensures
        r == parse_u16(s@),
{
    let chars = chars_of(s);
    let from: usize = if chars.len() > 0 && chars[0] == '+' {
        1
    } else {
        0
    };
    proof {
        assert(chars@.subrange(0, chars@.len() as int) =~= chars@);
    }
    match read_digits(&chars, from, 65535) {
        Some(v) => Some(v as u16),
        None => None,
    }
}

/// The 64-bit signed number that `s` writes.
pub fn parse_i64_text(s: &str) -> (r: Option<i64>)
    ensures
        r == parse_i64(s@),
{
    let chars = chars_of(s);
    proof {
        assert(chars@.subrange(0, chars@.len() as int) =~= chars@);
    }
    if chars.len() > 0 && chars[0] == '-' {
        match read_digits(&chars, 1, 9223372036854775808u64) {
            Some(v) => {
                if v == 9223372036854775808u64 {
                    Some(-9223372036854775807i64 - 1)
                } else {
                    Some(-(v as i64))
                }
            },
            None => None,
        }
    } else {
        let from: usize = if chars.len() > 0 && chars[0] == '+' {
            1
        } else {
            0
        };
        match read_digits(&chars, from, 9223372036854775807u64) {
            Some(v) => Some(v as i64),
            None => None,
        }
    }
}

/// The character in lower case, where it is an ASCII capital.
pub open spec fn ascii_lower(c: char) -> char {
    if 'A' <= c && c <= 'Z' {
        ((c as u32) + 32) as char
    } else {
        c
    }
}

/// Whether the two texts are the same but for the case of ASCII letters.
pub open spec fn same_ignoring_ascii_case(a: Seq<char>, b: Seq<char>) -> bool {
    a.len() == b.len() && forall|i: int| 0 <= i < a.len() ==> ascii_lower(#[trigger] a[i]) == ascii_lower(b[i])
}

/// The character in lower case, where it is an ASCII capital.
pub fn to_ascii_lower(c: char) -> (r: char)
    ensures
        r == ascii_lower(c),
{
    if c == 'A' {
        'a'
    } else if c == 'B' {
        'b'
    } else if c == 'C' {
        'c'
    } else if c == 'D' {
        'd'
    } else if c == 'E' {
        'e'
    } else if c == 'F' {
        'f'
    } else if c == 'G' {
        'g'
    } else if c == 'H' {
        'h'
    } else if c == 'I' {
        'i'
    } else if c == 'J' {
        'j'
    } else if c == 'K' {
        'k'
    } else if c == 'L' {
        'l'
    } else if c == 'M' {
        'm'
    } else if c == 'N' {
        'n'
    } else if c == 'O' {
        'o'
    } else if c == 'P' {
        'p'
    } else if c == 'Q' {
        'q'
    } else if c == 'R' {
        'r'
    } else if c == 'S' {
        's'
    } else if c == 'T' {
        't'
    } else if c == 'U' {
        'u'
    } else if c == 'V' {
        'v'
    } else if c == 'W' {
        'w'
    } else if c == 'X' {
        'x'
    } else if c == 'Y' {
        'y'
    } else if c == 'Z' {
        'z'
    } else {
        c
    }
}

/// Whether the two texts are the same but for the case of ASCII letters.
pub fn eq_ignore_ascii_case(a: &str, b: &str) -> (r: bool)
    ensures
        r == same_ignoring_ascii_case(a@, b@),
{
    let x = chars_of(a);
    let y = chars_of(b);
    if x.len() != y.len() {
        return false;
    }
    let mut i: usize = 0;
    while i < x.len()
        invariant
            x@ == a@,
            y@ == b@,
            x@.len() == y@.len(),
            i <= x@.len(),
            forall|j: int| 0 <= j < i ==> ascii_lower(#[trigger] x@[j]) == ascii_lower(y@[j]),
        decreases x@.len() - i,
    {
        if to_ascii_lower(x[i]) != to_ascii_lower(y[i]) {
            proof {
                assert(ascii_lower(x@[i as int]) != ascii_lower(y@[i as int]));
            }
            return false;
        }
        i += 1;
    }
    true
}

/// The 32-bit signed number that `s` writes: decimal digits, with or without
/// a sign in front.
pub open spec fn parse_i32(s: Seq<char>) -> Option<i32> {
    match parse_i64(s) {
        Some(v) => if i32::MIN <= v <= i32::MAX {
            Some(v as i32)
        } else {
            None
        },
        None => None,
    }
}

/// The number of the machine's word size that `s` writes: decimal digits,
/// with or without a plus sign in front.
pub open spec fn parse_usize(s: Seq<char>) -> Option<usize> {
    let digits = if s.len() > 0 && s[0] == '+' {
        s.subrange(1, s.len() as int)
    } else {
        s
    };
    match digits_upto(digits, usize::MAX as nat) {
        Some(v) => Some(v as usize),
        None => None,
    }
}

/// The 32-bit signed number that `s` writes.
pub fn parse_i32_text(s: &str) -> (r: Option<i32>)
    ensures
        r == parse_i32(s@),
{
    match parse_i64_text(s) {
        Some(v) => {
            if v >= -2147483648i64 && v <= 2147483647i64 {
                Some(v as i32)
            } else {
                None
            }
        },
        None => None,
    }
}

/// The number of the machine's word size that `s` writes.
pub fn parse_usize_text(s: &str) -> (r: Option<usize>)
    ensures
        r == parse_usize(s@),
{
    let chars = chars_of(s);
    let from: usize = if chars.len() > 0 && chars[0] == '+' {
        1
    } else {
        0
    };
    proof {
        assert(chars@.subrange(0, chars@.len() as int) =~= chars@);
    }
    match read_digits(&chars, from, usize::MAX as u64) {
        Some(v) => Some(v as usize),
        None => None,
    }
}

/// The pieces of `s` between the separators: one more than `s` has
/// separators, each without them.
pub open spec fn split_on(s: Seq<char>, sep: char) -> Seq<Seq<char>>
    decreases s.len(),
{
    if s.len() == 0 {
        seq![Seq::<char>::empty()]
    } else {
        let before = split_on(s.drop_last(), sep);
        if s.last() == sep {
            before.push(Seq::<char>::empty())
        } else {
            before.drop_last().push(before.last().push(s.last()))
        }
    }
}

/// The texts of a sequence of strings.
pub open spec fn piece_texts(v: Seq<String>) -> Seq<Seq<char>> {
    Seq::new(v.len(), |i: int| v[i]@)
}

/// The pieces of `s` between the separators.
pub fn split_text(s: &str, sep: char) -> (r: Vec<String>)
    ensures
        piece_texts(r@) == split_on(s@, sep),
{
    let chars = chars_of(s);
    let n: usize = chars.len();
    let mut pieces: Vec<String> = Vec::new();
    let mut start: usize = 0;
    let mut i: usize = 0;
    proof {
        assert(chars@.take(0) =~= Seq::<char>::empty());
        assert(piece_texts(pieces@).push(chars@.subrange(0, 0)) =~= split_on(chars@.take(0), sep));
    }
    while i < n
        invariant
            start <= i <= n,
            n == chars@.len(),
            chars@ == s@,
            piece_texts(pieces@).push(chars@.subrange(start as int, i as int)) == split_on(
                chars@.take(i as int),
                sep,
            ),
        decreases n - i,
    {
        let ghost upto = chars@.take(i + 1);
        let ghost before = split_on(chars@.take(i as int), sep);
        proof {
            assert(upto.drop_last() =~= chars@.take(i as int));
            assert(upto.last() == chars@[i as int]);
            assert(before.last() == chars@.subrange(start as int, i as int));
            assert(before.drop_last() =~= piece_texts(pieces@));
        }
        if chars[i] == sep {
            let ghost held = piece_texts(pieces@);
            pieces.push(s.substring_char(start, i).to_owned());
            proof {
                assert(piece_texts(pieces@) =~= held.push(chars@.subrange(start as int, i as int)));
                assert(chars@.subrange(i + 1, i + 1) =~= Seq::<char>::empty());
            }
            start = i + 1;
        } else {
            proof {
                assert(chars@.subrange(start as int, i + 1) =~= chars@.subrange(start as int, i as int).push(
                    chars@[i as int],
                ));
            }
        }
        i += 1;
    }
    let ghost held = piece_texts(pieces@);
    pieces.push(s.substring_char(start, n).to_owned());
    proof {
        assert(chars@.take(n as int) =~= chars@);
        assert(piece_texts(pieces@) =~= held.push(chars@.subrange(start as int, n as int)));
    }
    pieces
}

/// Whether the character is white space, as Unicode has it.
pub open spec fn is_space(c: char) -> bool {
    ||| ('\u{9}' <= c && c <= '\u{d}')
    ||| c == ' '
    ||| c == '\u{85}'
    ||| c == '\u{a0}'
    ||| c == '\u{1680}'
    ||| ('\u{2000}' <= c && c <= '\u{200a}')
    ||| c == '\u{2028}'
    ||| c == '\u{2029}'
    ||| c == '\u{202f}'
    ||| c == '\u{205f}'
    ||| c == '\u{3000}'
}

/// Whether the text is white space from the first character to the last.
pub open spec fn blank(s: Seq<char>) -> bool {
    forall|i: int| 0 <= i < s.len() ==> is_space(#[trigger] s[i])
}

/// The text without the white space at its start and at its end.
pub open spec fn trimmed(s: Seq<char>) -> Seq<char>
    decreases s.len(),
{
    if s.len() == 0 {
        s
    } else if is_space(s[0]) {
        trimmed(s.subrange(1, s.len() as int))
    } else if is_space(s.last()) {
        trimmed(s.subrange(0, s.len() - 1))
    } else {
        s
    }
}

/// Whether the character is white space.
pub fn is_space_char(c: char) -> (r: bool)
    ensures
        r == is_space(c),
{
    ('\u{9}' <= c && c <= '\u{d}') || c == ' ' || c == '\u{85}' || c == '\u{a0}' || c == '\u{1680}' || (
    '\u{2000}' <= c && c <= '\u{200a}') || c == '\u{2028}' || c == '\u{2029}' || c == '\u{202f}' || c
        == '\u{205f}' || c == '\u{3000}'
}

/// The text without the white space at its start and at its end.
pub fn trim(s: &str) -> (r: String)
    ensures
        r@ == trimmed(s@),
{
    let chars = chars_of(s);
    let mut from: usize = 0;
    let mut to: usize = chars.len();
    proof {
        assert(chars@.subrange(0, chars@.len() as int) =~= chars@);
    }
    while from < to && is_space_char(chars[from])
        invariant
            from <= to,
            to == chars@.len(),
            chars@ == s@,
            trimmed(s@) == trimmed(chars@.subrange(from as int, to as int)),
        decreases to - from,
    {
        proof {
            let rest = chars@.subrange(from as int, to as int);
            assert(rest[0] == chars@[from as int]);
            assert(rest.subrange(1, rest.len() as int) =~= chars@.subrange(from + 1, to as int));
        }
        from += 1;
    }
    while from < to && is_space_char(chars[to - 1])
        invariant
            from <= to <= chars@.len(),
            chars@ == s@,
            from < to ==> !is_space(chars@[from as int]),
            trimmed(s@) == trimmed(chars@.subrange(from as int, to as int)),
        decreases to - from,
    {
        proof {
            let rest = chars@.subrange(from as int, to as int);
            assert(rest[0] == chars@[from as int]);
            assert(rest.last() == chars@[to - 1]);
            assert(rest.subrange(0, rest.len() - 1) =~= chars@.subrange(from as int, to - 1));
        }
        to -= 1;
    }
    proof {
        let rest = chars@.subrange(from as int, to as int);
        if from < to {
            assert(rest[0] == chars@[from as int]);
            assert(rest.last() == chars@[to - 1]);
        }
        assert(trimmed(rest) == rest);
    }
    s.substring_char(from, to).to_owned()
}

} // verus!
