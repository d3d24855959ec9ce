//! Text helpers: the characters of a string, the order of texts, suffixes
//! and hexadecimal numerals.

use vstd::prelude::*;
use vstd::string::StringExecFns;

verus! {

/// The characters of `s`, one by one.
pub fn chars_of(s: &str) -> (r: Vec<char>)
    ensures
        r@ == s@,
{
    let mut r: Vec<char> = Vec::new();
    for c in it: s.chars()
        invariant
            it.seq() == s@,
            r@ == s@.take(it.index() as int),
    {
        r.push(c);
        assert(r@ =~= s@.take(it.index() + 1));
    }
    assert(s@.take(s@.len() as int) =~= s@);
    r
}

/// Whether two texts are the same.
pub fn same_text(a: &str, b: &str) -> (r: bool)
    ensures
        r == (a@ == b@),
{
    let x = a.as_bytes();
    let y = b.as_bytes();
    proof {
        vstd::utf8::encode_utf8_decode_utf8(a@);
        vstd::utf8::encode_utf8_decode_utf8(b@);
    }
    if x.len() != y.len() {
        return false;
    }
    let mut i: usize = 0;
    while i < x.len()
        invariant
            x.len() == y.len(),
            x@ == vstd::utf8::encode_utf8(a@),
            y@ == vstd::utf8::encode_utf8(b@),
            i <= x.len(),
            forall|j: int| 0 <= j < i ==> x[j] == y[j],
        decreases x.len() - i,
    {
        if x[i] != y[i] {
            return false;
        }
        i += 1;
    }
    assert(x@ =~= y@);
    true
}

/// The first place at or behind `from` where `c` stands in `v`.
pub fn find_char(v: &Vec<char>, from: usize, c: char) -> (r: Option<usize>)
    requires
        from <= v.len(),
    ensures
        match r {
            Some(i) => from <= i < v.len() && v[i as int] == c && forall|j: int|
                from <= j < i ==> v[j] != c,
            None => forall|j: int| from <= j < v.len() ==> v[j] != c,
        },
{
    let mut i: usize = from;
    while i < v.len()
        invariant
            from <= i <= v.len(),
            forall|j: int| from <= j < i ==> v[j] != c,
        decreases v.len() - i,
    {
        if v[i] == c {
            return Some(i);
        }
        i += 1;
    }
    None
}

/// The order of texts: character by character, a prefix before what extends
/// it. Characters are ordered by their code points.
pub open spec fn lex_le(a: Seq<char>, b: Seq<char>) -> bool
    decreases a.len(),
{
    if a.len() == 0 {
        true
    } else if b.len() == 0 {
        false
    } else if a[0] != b[0] {
        (a[0] as u32) < (b[0] as u32)
    } else {
        lex_le(a.drop_first(), b.drop_first())
    }
}

/// Different characters have different code points.
pub proof fn lemma_code_points_differ(x: char, y: char)
    ensures
        x != y ==> (x as u32) != (y as u32),
{
    vstd::utf8::char_u32_cast(x, x as u32);
    vstd::utf8::char_u32_cast(y, y as u32);
}

/// Of two texts one comes first.
pub proof fn lemma_lex_total(a: Seq<char>, b: Seq<char>)
    ensures
        lex_le(a, b) || lex_le(b, a),
    decreases a.len(),
{
    if a.len() > 0 && b.len() > 0 {
        if a[0] == b[0] {
            lemma_lex_total(a.drop_first(), b.drop_first());
        } else {
            lemma_code_points_differ(a[0], b[0]);
        }
    }
}

/// The order of texts is transitive.
pub proof fn lemma_lex_trans(a: Seq<char>, b: Seq<char>, c: Seq<char>)
    requires
        lex_le(a, b),
        lex_le(b, c),
    ensures
        lex_le(a, c),
    decreases a.len(),
{
    if a.len() > 0 && b.len() > 0 && c.len() > 0 {
        if a[0] == b[0] && b[0] == c[0] {
            lemma_lex_trans(a.drop_first(), b.drop_first(), c.drop_first());
        }
    }
}

/// Whether `a` is ordered before `b`, or is `b`.
pub fn text_le(a: &Vec<char>, b: &Vec<char>) -> (r: bool)
    ensures
        r == lex_le(a@, b@),
{
    let mut i: usize = 0;
    assert(a@.skip(0) =~= a@);
    assert(b@.skip(0) =~= b@);
    while i < a.len() && i < b.len()
        invariant
            i <= a.len(),
            i <= b.len(),
            lex_le(a@, b@) == lex_le(a@.skip(i as int), b@.skip(i as int)),
        decreases a.len() - i,
    {
        let x = a[i];
        let y = b[i];
        assert(a@.skip(i as int)[0] == x);
        assert(b@.skip(i as int)[0] == y);
        if x != y {
            return (x as u32) < (y as u32);
        }
        assert(a@.skip(i as int).drop_first() =~= a@.skip(i + 1));
        assert(b@.skip(i as int).drop_first() =~= b@.skip(i + 1));
        i += 1;
    }
    i == a.len()
}

/// Whether `s` ends in `suffix`.
pub open spec fn has_suffix(s: Seq<char>, suffix: Seq<char>) -> bool {
    suffix.len() <= s.len() && s.skip(s.len() - suffix.len()) == suffix
}

/// Whether `s` ends in `suffix`.
pub fn ends_with(s: &Vec<char>, suffix: &Vec<char>) -> (r: bool)
    ensures
        r == has_suffix(s@, suffix@),
{
    if suffix.len() > s.len() {
        return false;
    }
    let off = s.len() - suffix.len();
    let mut i: usize = 0;
    while i < suffix.len()
        invariant
            off + suffix.len() == s.len(),
            i <= suffix.len(),
            forall|j: int| 0 <= j < i ==> s[off + j] == suffix[j],
        decreases suffix.len() - i,
    {
        if s[off + i] != suffix[i] {
            assert(s@.skip(off as int)[i as int] != suffix@[i as int]);
            return false;
        }
        i += 1;
    }
    assert(s@.skip(off as int) =~= suffix@);
    true
}

/// The hexadecimal digit of a number below sixteen, in lower case.
pub open spec fn hex_digit(d: int) -> char {
    if d == 0 {
        '0'
    } else if d == 1 {
        '1'
    } else if d == 2 {
        '2'
    } else if d == 3 {
        '3'
    } else if d == 4 {
        '4'
    } else if d == 5 {
        '5'
    } else if d == 6 {
        '6'
    } else if d == 7 {
        '7'
    } else if d == 8 {
        '8'
    } else if d == 9 {
        '9'
    } else if d == 10 {
        'a'
    } else if d == 11 {
        'b'
    } else if d == 12 {
        'c'
    } else if d == 13 {
        'd'
    } else if d == 14 {
        'e'
    } else {
        'f'
    }
}

/// The last `n` hexadecimal digits of `v`, most significant first.
pub open spec fn hex_digits(v: nat, n: nat) -> Seq<char>
    decreases n,
{
    if n == 0 {
        Seq::empty()
    } else {
        hex_digits(v / 16, (n - 1) as nat).push(hex_digit((v % 16) as int))
    }
}

/// The numeral of `v`: thirty-two hexadecimal digits in lower case.
pub open spec fn hex128(v: u128) -> Seq<char> {
    hex_digits(v as nat, 32)
}

/// The digit of `d` as a one-character text.
fn digit_text(d: u8) -> (r: &'static str)
    requires
        d < 16,
    ensures
        r@ == seq![hex_digit(d as int)],
{
    proof {
        reveal_strlit("0");
        reveal_strlit("1");
        reveal_strlit("2");
        reveal_strlit("3");
        reveal_strlit("4");
        reveal_strlit("5");
        reveal_strlit("6");
        reveal_strlit("7");
        reveal_strlit("8");
        reveal_strlit("9");
        reveal_strlit("a");
        reveal_strlit("b");
        reveal_strlit("c");
        reveal_strlit("d");
        reveal_strlit("e");
        reveal_strlit("f");
    }
    let r = if d == 0 {
        "0"
    } else if d == 1 {
        "1"
    } else if d == 2 {
        "2"
    } else if d == 3 {
        "3"
    } else if d == 4 {
        "4"
    } else if d == 5 {
        "5"
    } else if d == 6 {
        "6"
    } else if d == 7 {
        "7"
    } else if d == 8 {
        "8"
    } else if d == 9 {
        "9"
    } else if d == 10 {
        "a"
    } else if d == 11 {
        "b"
    } else if d == 12 {
        "c"
    } else if d == 13 {
        "d"
    } else if d == 14 {
        "e"
    } else {
        "f"
    };
    assert(r@ =~= seq![hex_digit(d as int)]);
    r
}

/// The numeral of `v`: thirty-two hexadecimal digits in lower case.
pub fn to_hex(v: u128) -> (r: String)
    ensures
        r@ == hex128(v),
        r@.len() == 32,
{
    // The digits come out least significant first.
    let mut digits: Vec<u8> = Vec::new();
    let mut rest: u128 = v;
    let mut i: usize = 0;
    while i < 32
        invariant
            i <= 32,
            digits.len() == i,
            forall|j: int| 0 <= j < i ==> digits[j] < 16,
            hex128(v) == hex_digits(rest as nat, (32 - i) as nat) + Seq::new(
                i as nat,
                |j: int| hex_digit(digits[i - 1 - j] as int),
            ),
        decreases 32 - i,
    {
        let d = (rest % 16) as u8;
        proof {
            let tail = Seq::new(i as nat, |j: int| hex_digit(digits[i - 1 - j] as int));
            let pushed = digits@.push(d);
            let tail2 = Seq::new((i + 1) as nat, |j: int| hex_digit(pushed[i - j] as int));
            assert(hex_digits(rest as nat, (32 - i) as nat) + tail =~= hex_digits(
                (rest / 16) as nat,
                (32 - i - 1) as nat,
            ) + tail2);
        }
        digits.push(d);
        rest = rest / 16;
        i += 1;
    }
    let mut out = String::new();
    let mut k: usize = 32;
    while k > 0
        invariant
            k <= 32,
            digits.len() == 32,
            forall|j: int| 0 <= j < 32 ==> digits[j] < 16,
            out@ == Seq::new((32 - k) as nat, |j: int| hex_digit(digits[31 - j] as int)),
        decreases k,
    {
        k -= 1;
        out.append(digit_text(digits[k]));
        assert(out@ =~= Seq::new((32 - k) as nat, |j: int| hex_digit(digits[31 - j] as int)));
    }
    assert(hex_digits(rest as nat, 0) + out@ =~= out@);
    out
}

/// The place of the first `c` in `s`; the length of `s` where there is
/// none.
pub open spec fn first_place(s: Seq<char>, c: char) -> int
    decreases s.len(),
{
    if s.len() == 0 {
        0
    } else if s[0] == c {
        0
    } else {
        1 + first_place(s.drop_first(), c)
    }
}

/// The first place of a character is the least place at which it stands.
pub proof fn lemma_first_place(s: Seq<char>, c: char, i: int)
    requires
        0 <= i <= s.len(),
        forall|j: int| 0 <= j < i ==> s[j] != c,
        i < s.len() ==> s[i] == c,
    ensures
        first_place(s, c) == i,
    decreases s.len(),
{
    if s.len() > 0 && i > 0 {
        let rest = s.drop_first();
        assert forall|j: int| 0 <= j < i - 1 implies rest[j] != c by {
            assert(rest[j] == s[j + 1]);
        }
        lemma_first_place(rest, c, i - 1);
    }
}

/// The decimal digit of a number below ten.
pub open spec fn decimal_digit(d: int) -> char {
    hex_digit(d)
}

/// The decimal numeral of `n`, without leading zeros.
pub open spec fn decimal(n: nat) -> Seq<char>
    decreases n,
{
    if n < 10 {
        seq![decimal_digit(n as int)]
    } else {
        decimal(n / 10).push(decimal_digit((n % 10) as int))
    }
}

/// The number that a decimal digit stands for.
pub open spec fn digit_value(c: char) -> Option<nat> {
    if c == '0' {
        Some(0nat)
    } else if c == '1' {
        Some(1nat)
    } else if c == '2' {
        Some(2nat)
    } else if c == '3' {
        Some(3nat)
    } else if c == '4' {
        Some(4nat)
    } else if c == '5' {
        Some(5nat)
    } else if c == '6' {
        Some(6nat)
    } else if c == '7' {
        Some(7nat)
    } else if c == '8' {
        Some(8nat)
    } else if c == '9' {
        Some(9nat)
    } else {
        None
    }
}

/// The number that a text of decimal digits stands for. A text with
/// anything else in it, and the empty text, stand for none.
pub open spec fn decimal_value(s: Seq<char>) -> Option<nat>
    decreases s.len(),
{
    if s.len() == 0 {
        None
    } else {
        match digit_value(s.last()) {
            None => None,
            Some(d) => if s.len() == 1 {
                Some(d)
            } else {
                match decimal_value(s.drop_last()) {
                    Some(v) => Some(v * 10 + d),
                    None => None,
                }
            },
        }
    }
}

/// A decimal numeral stands for its number, and holds digits only.
pub proof fn lemma_decimal_value(n: nat)
    ensures
        decimal_value(decimal(n)) == Some(n),
        decimal(n).len() > 0,
        forall|i: int| 0 <= i < decimal(n).len() ==> digit_value(#[trigger] decimal(n)[i]) is Some,
    decreases n,
{
    if n >= 10 {
        lemma_decimal_value(n / 10);
        let front = decimal(n / 10);
        let d = decimal_digit((n % 10) as int);
        assert(front.push(d).drop_last() =~= front);
        assert(digit_value(d) == Some(n % 10));
        assert forall|i: int| 0 <= i < decimal(n).len() implies digit_value(
            #[trigger] decimal(n)[i],
        ) is Some by {
            if i < front.len() {
                assert(decimal(n)[i] == front[i]);
            }
        }
    }
}

/// The decimal numeral of `v`.
pub fn to_decimal(v: u64) -> (r: String)
    ensures
        r@ == decimal(v as nat),
{
    // The digits come out least significant first.
    let mut digits: Vec<u8> = Vec::new();
    let mut rest: u64 = v;
    while rest >= 10
        invariant
            forall|j: int| 0 <= j < digits.len() ==> digits[j] < 10,
            decimal(v as nat) == decimal(rest as nat) + Seq::new(
                digits.len() as nat,
                |j: int| decimal_digit(digits[digits.len() - 1 - j] as int),
            ),
        decreases rest,
    {
        let d = (rest % 10) as u8;
        proof {
            let n = digits.len();
            let tail = Seq::new(n as nat, |j: int| decimal_digit(digits[n - 1 - j] as int));
            let pushed = digits@.push(d);
            let tail2 = Seq::new((n + 1) as nat, |j: int| decimal_digit(pushed[n - j] as int));
            assert(decimal(rest as nat) + tail =~= decimal((rest / 10) as nat) + tail2);
        }
        digits.push(d);
        rest = rest / 10;
    }
    let mut out = String::new();
    out.append(digit_text(rest as u8));
    let n = digits.len();
    let mut k: usize = n;
    assert(out@ =~= decimal(rest as nat) + Seq::new(
        0nat,
        |j: int| decimal_digit(digits[n - 1 - j] as int),
    ));
    while k > 0
        invariant
            k <= n,
            n == digits.len(),
            forall|j: int| 0 <= j < n ==> digits[j] < 10,
            out@ == decimal(rest as nat) + Seq::new(
                (n - k) as nat,
                |j: int| decimal_digit(digits[n - 1 - j] as int),
            ),
        decreases k,
    {
        k -= 1;
        out.append(digit_text(digits[k]));
        assert(out@ =~= decimal(rest as nat) + Seq::new(
            (n - k) as nat,
            |j: int| decimal_digit(digits[n - 1 - j] as int),
        ));
    }
    out
}

/// The number that the decimal digits `chars[from..to]` stand for, where
/// they stand for one that a `u64` holds.
pub fn parse_decimal(chars: &Vec<char>, from: usize, to: usize) -> (r: Option<u64>)
    requires
        from <= to <= chars.len(),
    ensures
        r == (match decimal_value(chars@.subrange(from as int, to as int)) {
            Some(v) => if v <= u64::MAX {
                Some(v as u64)
            } else {
                None
            },
            None => None,
        }),
{
    let ghost s = chars@.subrange(from as int, to as int);
    if from == to {
        return None;
    }
    let mut acc: u64 = 0;
    let mut i: usize = from;
    while i < to
        invariant
            from <= i <= to <= chars.len(),
            s == chars@.subrange(from as int, to as int),
            i > from ==> decimal_value(s.take(i - from)) == Some(acc as nat),
            i == from ==> acc == 0,
        decreases to - i,
    {
        let c = chars[i];
        let ghost upto = s.take(i + 1 - from);
        proof {
            assert(upto.last() == c);
            assert(upto.drop_last() =~= s.take(i - from));
            lemma_decimal_grows(s, i + 1 - from);
        }
        let d: u64 = if c == '0' {
            0
        } else if c == '1' {
            1
        } else if c == '2' {
            2
        } else if c == '3' {
            3
        } else if c == '4' {
            4
        } else if c == '5' {
            5
        } else if c == '6' {
            6
        } else if c == '7' {
            7
        } else if c == '8' {
            8
        } else if c == '9' {
            9
        } else {
            return None;
        };
        if acc > (u64::MAX - d) / 10 {
            return None;
        }
        acc = acc * 10 + d;
        i += 1;
    }
    assert(s.take(to - from) =~= s);
    Some(acc)
}

/// What a front of a text of digits stands for decides about the whole:
/// where the front stands for no number, the text stands for none, and where
/// it stands for one, the text stands for none that is less.
pub proof fn lemma_decimal_grows(s: Seq<char>, n: int)
    requires
        0 < n <= s.len(),
    ensures
        decimal_value(s.take(n)) is None ==> decimal_value(s) is None,
        decimal_value(s.take(n)) is Some && decimal_value(s) is Some ==> decimal_value(
            s.take(n),
        )->0 <= decimal_value(s)->0,
    decreases s.len() - n,
{
    if n < s.len() {
        lemma_decimal_grows(s, n + 1);
        assert(s.take(n + 1).drop_last() =~= s.take(n));
    } else {
        assert(s.take(n) =~= s);
    }
}

/// A line of a configuration text: the key, ` = `, the decimal numeral of
/// the number, and the end of the line.
pub open spec fn config_line(key: Seq<char>, v: u64) -> Seq<char> {
    key + " = "@ + decimal(v as nat) + seq!['\n']
}

/// Reads a line of the key `key` from the front of `text`: the number that
/// its digits stand for, and what follows the line.
pub open spec fn line_value(text: Seq<char>, key: Seq<char>) -> Option<(u64, Seq<char>)> {
    let head = key + " = "@;
    if text.len() >= head.len() && text.take(head.len() as int) == head {
        let after = text.skip(head.len() as int);
        let p = first_place(after, '\n');
        if p < after.len() {
            match decimal_value(after.take(p)) {
                Some(v) => if v <= u64::MAX {
                    Some((v as u64, after.skip(p + 1)))
                } else {
                    None
                },
                None => None,
            }
        } else {
            None
        }
    } else {
        None
    }
}

/// A line is read back as it was written, whatever follows it.
pub proof fn lemma_line_value(key: Seq<char>, v: u64, rest: Seq<char>)
    ensures
        line_value(config_line(key, v) + rest, key) == Some((v, rest)),
{
    let head = key + " = "@;
    let digits = decimal(v as nat);
    let text = config_line(key, v) + rest;
    let after = digits + seq!['\n'] + rest;
    lemma_decimal_value(v as nat);
    assert(text =~= head + after);
    assert(text.take(head.len() as int) =~= head);
    assert(text.skip(head.len() as int) =~= after);
    let p = digits.len() as int;
    assert forall|j: int| 0 <= j < p implies after[j] != '\n' by {
        assert(after[j] == digits[j]);
        assert(digit_value(digits[j]) is Some);
    }
    assert(after[p] == '\n');
    lemma_first_place(after, '\n', p);
    assert(after.take(p) =~= digits);
    assert(after.skip(p + 1) =~= rest);
}

/// Writes a line of a configuration text.
pub fn write_line(out: &mut String, key: &str, v: u64)
    ensures
        final(out)@ == old(out)@ + config_line(key@, v),
{
    proof {
        reveal_strlit("\n");
    }
    out.append(key);
    out.append(" = ");
    out.append(to_decimal(v).as_str());
    out.append("\n");
    assert("\n"@ =~= seq!['\n']);
    assert(out@ =~= old(out)@ + config_line(key@, v));
}

/// Reads a line of the key `key` at the place `from`: the number, and the
/// place behind the line.
pub fn read_line(chars: &Vec<char>, from: usize, key: &str) -> (r: Option<(u64, usize)>)
    requires
        from <= chars.len(),
    ensures
        match (line_value(chars@.skip(from as int), key@), r) {
            (Some((v, rest)), Some((got, next))) => got == v && from <= next <= chars.len() && rest
                == chars@.skip(next as int),
            (None, None) => true,
            _ => false,
        },
{
    proof {
        reveal_strlit(" = ");
    }
    let ghost text = chars@.skip(from as int);
    let mut head = chars_of(key);
    head.push(' ');
    head.push('=');
    head.push(' ');
    assert(head@ =~= key@ + " = "@);
    if chars.len() - from < head.len() {
        return None;
    }
    let mut i: usize = 0;
    while i < head.len()
        invariant
            i <= head.len(),
            from + head.len() <= chars.len(),
            text == chars@.skip(from as int),
            head@ == key@ + " = "@,
            forall|j: int| 0 <= j < i ==> chars[from + j] == head[j],
        decreases head.len() - i,
    {
        if chars[from + i] != head[i] {
            assert(text.take(head.len() as int)[i as int] != head@[i as int]);
            return None;
        }
        i += 1;
    }
    assert(text.take(head.len() as int) =~= head@);
    let start = from + head.len();
    let ghost after = text.skip(head.len() as int);
    assert(after =~= chars@.skip(start as int));
    let p = match find_char(chars, start, '\n') {
        Some(p) => p,
        None => {
            proof {
                lemma_first_place(after, '\n', after.len() as int);
            }
            return None;
        },
    };
    proof {
        lemma_first_place(after, '\n', p - start);
        assert(after.take(p - start) =~= chars@.subrange(start as int, p as int));
        assert(after.skip(p - start + 1) =~= chars@.skip(p + 1));
    }
    match parse_decimal(chars, start, p) {
        Some(v) => Some((v, p + 1)),
        None => None,
    }
}

} // verus!
