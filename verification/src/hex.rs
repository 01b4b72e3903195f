use vstd::prelude::*;

verus! {

/// `String::push` appends one character.
pub assume_specification[ String::push ](s: &mut String, ch: char)
    ensures
        final(s)@ == old(s)@.push(ch),
;

/// Whether `c` is a digit of base sixteen, in either case.
pub open spec fn is_hex_digit(c: char) -> bool {
    ('0' <= c && c <= '9') || ('a' <= c && c <= 'f') || ('A' <= c && c <= 'F')
}

/// The value of a digit of base sixteen (zero for any other character).
pub open spec fn hex_digit_value(c: char) -> nat {
    if '0' <= c && c <= '9' {
        (c as int - '0' as int) as nat
    } else if 'a' <= c && c <= 'f' {
        (c as int - 'a' as int + 10) as nat
    } else if 'A' <= c && c <= 'F' {
        (c as int - 'A' as int + 10) as nat
    } else {
        0
    }
}

/// Whether every character of `s` is a digit of base sixteen.
pub open spec fn all_hex_digits(s: Seq<char>) -> bool {
    forall|i: int| 0 <= i < s.len() ==> #[trigger] is_hex_digit(s[i])
}

/// The number that the digits `s` write in base sixteen, most significant first.
pub open spec fn hex_value(s: Seq<char>) -> nat
    decreases s.len(),
{
    if s.len() == 0 {
        0
    } else {
        hex_value(s.drop_last()) * 16 + hex_digit_value(s.last())
    }
}

/// The digits that base-sixteen parsing of an unsigned number reads: the text
/// without one leading `+`.
pub open spec fn unsigned_digits(s: Seq<char>) -> Seq<char> {
    if s.len() > 0 && s[0] == '+' {
        s.drop_first()
    } else {
        s
    }
}

/// Parsing `s` as a `u64` in base sixteen, as `u64::from_str_radix(s, 16)`
/// documents it: an optional `+`, then at least one digit, and nothing else;
/// `None` where that is not so or where the number exceeds `u64::MAX`.
pub open spec fn spec_parse_hex_u64(s: Seq<char>) -> Option<u64> {
    let digits = unsigned_digits(s);
    if digits.len() > 0 && all_hex_digits(digits) && hex_value(digits) <= u64::MAX {
        Some(hex_value(digits) as u64)
    } else {
        None
    }
}

/// Whether `s` begins with the two characters `0x`.
pub open spec fn has_hex_prefix(s: Seq<char>) -> bool {
    s.len() >= 2 && s[0] == '0' && s[1] == 'x'
}

/// A hexadecimal field as the spawner files write it: an optional `0x`, then
/// the number; a field that does not parse reads as zero.
pub open spec fn spec_parse_prefixed_hex(s: Seq<char>) -> u64 {
    let body = if has_hex_prefix(s) { s.skip(2) } else { s };
    match spec_parse_hex_u64(body) {
        Some(v) => v,
        None => 0,
    }
}

/// Sixteen to the power `n`.
pub open spec fn pow16(n: nat) -> nat
    decreases n,
{
    if n == 0 {
        1
    } else {
        16 * pow16((n - 1) as nat)
    }
}

/// The upper-case digit of base sixteen for `d` (below sixteen).
pub open spec fn hex_upper_char(d: nat) -> char {
    if d < 10 {
        (48 + d) as char
    } else {
        (55 + d) as char
    }
}

/// The last `n` digits of `v` in base sixteen, upper case, with leading zeros.
pub open spec fn hex_upper_fixed(v: nat, n: nat) -> Seq<char>
    decreases n,
{
    if n == 0 {
        Seq::empty()
    } else {
        hex_upper_fixed(v / 16, (n - 1) as nat).push(hex_upper_char(v % 16))
    }
}

proof fn lemma_hex_value_prefix_monotone(s: Seq<char>, j: int)
    requires
        0 <= j <= s.len(),
    ensures
        hex_value(s.take(j)) <= hex_value(s),
    decreases s.len(),
{
    if j < s.len() {
        assert(s.drop_last().take(j) =~= s.take(j));
        lemma_hex_value_prefix_monotone(s.drop_last(), j);
    } else {
        assert(s.take(j) =~= s);
    }
}

/// The digit of base sixteen at `c`, if it is one.
fn hex_digit(c: char) -> (d: Option<u64>)
    ensures
        d is Some <==> is_hex_digit(c),
        d matches Some(v) ==> v == hex_digit_value(c) && v < 16,
{
    if '0' <= c && c <= '9' {
        Some(c as u64 - '0' as u64)
    } else if 'a' <= c && c <= 'f' {
        Some(c as u64 - 'a' as u64 + 10)
    } else if 'A' <= c && c <= 'F' {
        Some(c as u64 - 'A' as u64 + 10)
    } else {
        None
    }
}

/// Parses `s` as a `u64` in base sixteen, as `u64::from_str_radix(s, 16)`
/// does, with `None` in place of its error.
pub fn parse_hex_u64(s: &str) -> (r: Option<u64>)
    ensures
        r == spec_parse_hex_u64(s@),
{
    let n = s.unicode_len();
    let mut i: usize = 0;
    if n > 0 && s.get_char(0) == '+' {
        i = 1;
    }
    let ghost digits = unsigned_digits(s@);
    let ghost first = i as int;
    assert(digits =~= s@.skip(first));
    if i == n {
        return None;
    }
    let mut value: u64 = 0;
    assert(s@.skip(first).take(0) =~= Seq::<char>::empty());
    while i < n
        invariant
            n == s@.len(),
            0 <= first <= i <= n,
            first < n,
            digits == s@.skip(first),
            digits == unsigned_digits(s@),
            all_hex_digits(digits.take(i - first)),
            value as nat == hex_value(digits.take(i - first)),
        decreases n - i,
    {
        let c = s.get_char(i);
        let ghost k = i - first;
        assert(digits.len() == n - first);
        assert(digits[k] == c);
        assert(digits.take(k + 1).drop_last() =~= digits.take(k));
        assert(digits.take(k + 1).last() == c);
        match hex_digit(c) {
            None => {
                assert(!is_hex_digit(digits[k]));
                return None;
            },
            Some(d) => {
                if value > (u64::MAX - d) / 16 {
                    proof {
                        assert(hex_value(digits.take(k + 1)) > u64::MAX);
                        lemma_hex_value_prefix_monotone(digits, k + 1);
                    }
                    return None;
                }
                value = value * 16 + d;
                assert forall|j: int| 0 <= j < k + 1 implies #[trigger] is_hex_digit(digits.take(k + 1)[j]) by {
                    if j < k {
                        assert(digits.take(k + 1)[j] == digits.take(k)[j]);
                    }
                }
            },
        }
        i = i + 1;
    }
    assert(digits.take(n - first) =~= digits);
    Some(value)
}

/// Reads a hexadecimal field of a spawner file: with or without a leading
/// `0x`, a field that does not parse reading as zero.
pub fn parse_prefixed_hex(s: &str) -> (v: u64)
    ensures
        v == spec_parse_prefixed_hex(s@),
{
    let n = s.unicode_len();
    let parsed = if n >= 2 && s.get_char(0) == '0' && s.get_char(1) == 'x' {
        parse_hex_u64(s.substring_char(2, n))
    } else {
        parse_hex_u64(s)
    };
    proof {
        if has_hex_prefix(s@) {
            assert(s@.subrange(2, n as int) =~= s@.skip(2));
        }
    }
    match parsed {
        Some(v) => v,
        None => 0,
    }
}

/// The upper-case digit of base sixteen for `d`.
fn hex_upper_digit(d: u64) -> (c: char)
    requires
        d < 16,
    ensures
        c == hex_upper_char(d as nat),
{
    if d < 10 {
        ((48 + d) as u8) as char
    } else {
        ((55 + d) as u8) as char
    }
}

/// Appends the last `n` digits of `v` in base sixteen, upper case, with
/// leading zeros.
pub fn push_hex_upper_fixed(out: &mut String, v: u64, n: usize)
    ensures
        final(out)@ == old(out)@ + hex_upper_fixed(v as nat, n as nat),
    decreases n,
{
    if n > 0 {
        push_hex_upper_fixed(out, v / 16, n - 1);
        out.push(hex_upper_digit(v % 16));
        assert(hex_upper_fixed(v as nat, n as nat) =~= hex_upper_fixed((v / 16) as nat, (n - 1) as nat).push(hex_upper_char((v % 16) as nat)));
    } else {
        assert(hex_upper_fixed(v as nat, 0) =~= Seq::<char>::empty());
    }
}

proof fn lemma_hex_upper_char(d: nat)
    requires
        d < 16,
    ensures
        is_hex_digit(hex_upper_char(d)),
        hex_digit_value(hex_upper_char(d)) == d,
        hex_upper_char(d) != '+',
{
}

proof fn lemma_hex_upper_fixed(v: nat, n: nat)
    requires
        v < pow16(n),
    ensures
        hex_upper_fixed(v, n).len() == n,
        all_hex_digits(hex_upper_fixed(v, n)),
        hex_value(hex_upper_fixed(v, n)) == v,
    decreases n,
{
    if n > 0 {
        lemma_hex_upper_fixed(v / 16, (n - 1) as nat);
        lemma_hex_upper_char(v % 16);
        let s = hex_upper_fixed(v, n);
        assert(s.drop_last() =~= hex_upper_fixed(v / 16, (n - 1) as nat));
        assert forall|i: int| 0 <= i < s.len() implies #[trigger] is_hex_digit(s[i]) by {
            if i < s.len() - 1 {
                assert(s[i] == s.drop_last()[i]);
            }
        }
    }
}

proof fn lemma_pow16_16()
    ensures
        pow16(16) == 0x1_0000_0000_0000_0000,
{
    reveal_with_fuel(pow16, 17);
}

/// Reading back what `push_hex_upper_fixed` writes for a whole `u64`, behind
/// a `0x`, gives the number again.
pub proof fn lemma_prefixed_hex_round_trip(v: u64)
    ensures
        spec_parse_prefixed_hex(seq!['0', 'x'] + hex_upper_fixed(v as nat, 16)) == v,
{
    lemma_pow16_16();
    lemma_hex_upper_fixed(v as nat, 16);
    let digits = hex_upper_fixed(v as nat, 16);
    let s = seq!['0', 'x'] + digits;
    assert(has_hex_prefix(s));
    assert(s.skip(2) =~= digits);
    lemma_hex_upper_char((v as nat) % 16);
    assert(digits[0] != '+') by {
        let d0 = digits[0];
        assert(is_hex_digit(d0));
    }
    assert(unsigned_digits(digits) == digits);
}

/// Base-sixteen parsing takes one leading `+` and nothing else that is not
/// a digit: a `+` in front of digits reads as the digits, and a text with any
/// other character that is not a digit, or with no digit at all, is refused.
pub proof fn lemma_parse_hex_accepts(s: Seq<char>)
    ensures
        s.len() > 0 && s[0] != '+' ==> spec_parse_hex_u64(seq!['+'] + s) == spec_parse_hex_u64(s),
        (exists|i: int| 0 <= i < s.len() && !is_hex_digit(#[trigger] s[i]) && !(i == 0 && s[i] == '+'))
            ==> spec_parse_hex_u64(s) is None,
        s.len() == 0 ==> spec_parse_hex_u64(s) is None,
        s == seq!['+'] ==> spec_parse_hex_u64(s) is None,
{
    if s.len() > 0 && s[0] != '+' {
        assert((seq!['+'] + s).drop_first() =~= s);
    }
    if exists|i: int| 0 <= i < s.len() && !is_hex_digit(#[trigger] s[i]) && !(i == 0 && s[i] == '+') {
        let i = choose|i: int| 0 <= i < s.len() && !is_hex_digit(#[trigger] s[i]) && !(i == 0 && s[i] == '+');
        let d = unsigned_digits(s);
        if s.len() > 0 && s[0] == '+' {
            assert(d[i - 1] == s[i]);
            assert(!is_hex_digit(d[i - 1]));
        } else {
            assert(d[i] == s[i]);
        }
    }
}

/// Reading one more digit multiplies by sixteen and adds the digit, and a
/// text whose digits already exceed `u64::MAX` stays refused however it goes on.
pub proof fn lemma_parse_hex_next_digit(d: Seq<char>, c: char)
    requires
        d.len() > 0,
        d[0] != '+',
        is_hex_digit(c),
    ensures
        spec_parse_hex_u64(d) is None ==> spec_parse_hex_u64(d.push(c)) is None,
        spec_parse_hex_u64(d) matches Some(v) ==> spec_parse_hex_u64(d.push(c)) == if v * 16
            + hex_digit_value(c) <= u64::MAX {
            Some((v * 16 + hex_digit_value(c)) as u64)
        } else {
            None
        },
{
    let e = d.push(c);
    assert(e.drop_last() =~= d);
    assert(unsigned_digits(e) == e);
    assert(unsigned_digits(d) == d);
    if all_hex_digits(d) {
        assert forall|i: int| 0 <= i < e.len() implies #[trigger] is_hex_digit(e[i]) by {
            if i < d.len() {
                assert(e[i] == d[i]);
            }
        }
    } else {
        let i = choose|i: int| 0 <= i < d.len() && !#[trigger] is_hex_digit(d[i]);
        assert(e[i] == d[i]);
    }
}

/// Whether `c` is one of `0` to `9` or `A` to `F`.
pub open spec fn is_upper_hex_digit(c: char) -> bool {
    ('0' <= c && c <= '9') || ('A' <= c && c <= 'F')
}

/// `hex_upper_fixed(v, n)` is `n` upper-case digits that read back as `v`
/// wherever `v` is below sixteen to the power `n`.
pub proof fn lemma_hex_upper_fixed_writes_number(v: nat, n: nat)
    ensures
        hex_upper_fixed(v, n).len() == n,
        forall|i: int| 0 <= i < n ==> is_upper_hex_digit(#[trigger] hex_upper_fixed(v, n)[i]),
        v < pow16(n) ==> hex_value(hex_upper_fixed(v, n)) == v,
    decreases n,
{
    if n > 0 {
        lemma_hex_upper_fixed_writes_number(v / 16, (n - 1) as nat);
        let s = hex_upper_fixed(v, n);
        let p = hex_upper_fixed(v / 16, (n - 1) as nat);
        assert(s.drop_last() =~= p);
        assert forall|i: int| 0 <= i < n implies is_upper_hex_digit(#[trigger] hex_upper_fixed(v, n)[i]) by {
            if i < n - 1 {
                assert(s[i] == p[i]);
            }
        }
        if v < pow16(n) {
            lemma_hex_upper_fixed(v, n);
        }
    }
}

/// `hex_upper_fixed(v, n)` has `n` digits.
pub proof fn lemma_hex_upper_fixed_len(v: nat, n: nat)
    ensures
        hex_upper_fixed(v, n).len() == n,
    decreases n,
{
    if n > 0 {
        lemma_hex_upper_fixed_len(v / 16, (n - 1) as nat);
    }
}

} // verus!
