//! Building the names of backing files: verified decimal formatting over
//! strings, plus the two trusted string-growing primitives it rests on.

use vstd::prelude::*;

verus! {

/// Relies on String::push: appends exactly one character.
#[verifier::external_body]
pub fn push_char(s: &mut String, c: char)
    ensures
        final(s)@ == old(s)@.push(c),
{
    s.push(c);
}

/// Relies on String::push_str: appends the characters of `t`.
#[verifier::external_body]
pub fn push_str(s: &mut String, t: &str)
    ensures
        final(s)@ == old(s)@ + t@,
{
    s.push_str(t);
}

/// The character for one decimal digit.
pub open spec fn spec_digit_char(d: int) -> char
    recommends
        0 <= d < 10,
{
    seq!['0', '1', '2', '3', '4', '5', '6', '7', '8', '9'][d]
}

/// The decimal spelling of `n`, most significant digit first.
pub open spec fn spec_decimal(n: int) -> Seq<char>
    recommends
        n >= 0,
    decreases n,
{
    if n < 10 {
        seq![spec_digit_char(n)]
    } else {
        spec_decimal(n / 10).push(spec_digit_char(n % 10))
    }
}

/// `k` zero characters (none when `k <= 0`).
pub open spec fn spec_zeros(k: int) -> Seq<char> {
    if k <= 0 {
        Seq::empty()
    } else {
        Seq::new(k as nat, |i: int| '0')
    }
}

/// The decimal spelling of `n`, left-padded with zeros to `width`
/// characters; spellings longer than `width` are kept whole.
pub open spec fn spec_padded_decimal(n: int, width: int) -> Seq<char> {
    spec_zeros(width - spec_decimal(n).len()) + spec_decimal(n)
}

/// The character for one hexadecimal digit.
pub open spec fn spec_hex_char(d: int) -> char
    recommends
        0 <= d < 16,
{
    seq!['0', '1', '2', '3', '4', '5', '6', '7', '8', '9', 'a', 'b', 'c', 'd', 'e', 'f'][d]
}

/// The hexadecimal spelling of `n`, most significant digit first.
pub open spec fn spec_hex(n: int) -> Seq<char>
    recommends
        n >= 0,
    decreases n,
{
    if n < 16 {
        seq![spec_hex_char(n)]
    } else {
        spec_hex(n / 16).push(spec_hex_char(n % 16))
    }
}

/// The hexadecimal spelling of `n`, left-padded with zeros to `width`
/// characters; spellings longer than `width` are kept whole.
pub open spec fn spec_padded_hex(n: int, width: int) -> Seq<char> {
    spec_zeros(width - spec_hex(n).len()) + spec_hex(n)
}

/// The numeric value of one digit character, `-1` for any other character.
pub open spec fn spec_digit_val(c: char) -> int {
    if c == '0' {
        0
    } else if c == '1' {
        1
    } else if c == '2' {
        2
    } else if c == '3' {
        3
    } else if c == '4' {
        4
    } else if c == '5' {
        5
    } else if c == '6' {
        6
    } else if c == '7' {
        7
    } else if c == '8' {
        8
    } else if c == '9' {
        9
    } else {
        -1
    }
}

/// The number a digit string spells.
pub open spec fn spec_value(s: Seq<char>) -> int
    decreases s.len(),
{
    if s.len() == 0 {
        0
    } else {
        spec_value(s.drop_last()) * 10 + spec_digit_val(s.last())
    }
}

/// Reading back the character of a digit gives the digit.
pub proof fn lemma_digit_roundtrip(d: int)
    requires
        0 <= d < 10,
    ensures
        spec_digit_val(spec_digit_char(d)) == d,
{
}

/// Reading back a decimal spelling gives the number it spells.
pub proof fn lemma_decimal_value(n: int)
    requires
        n >= 0,
    ensures
        spec_value(spec_decimal(n)) == n,
    decreases n,
{
    if n < 10 {
        lemma_digit_roundtrip(n);
        assert(spec_decimal(n) == seq![spec_digit_char(n)]);
        assert(spec_decimal(n).last() == spec_digit_char(n));
        assert(spec_decimal(n).drop_last() =~= Seq::<char>::empty());
        assert(spec_value(Seq::<char>::empty()) == 0);
    } else {
        lemma_decimal_value(n / 10);
        lemma_digit_roundtrip(n % 10);
        assert(spec_decimal(n) == spec_decimal(n / 10).push(spec_digit_char(n % 10)));
        assert(spec_decimal(n).last() == spec_digit_char(n % 10));
        assert(spec_decimal(n).drop_last() =~= spec_decimal(n / 10));
    }
}

/// Zeros in front of a digit string do not change the number it spells.
pub proof fn lemma_zeros_value(z: Seq<char>, s: Seq<char>)
    requires
        forall|i: int| 0 <= i < z.len() ==> z[i] == '0',
    ensures
        spec_value(z + s) == spec_value(s),
    decreases s.len(),
{
    if s.len() == 0 {
        assert(z + s =~= z);
        lemma_all_zeros_value(z);
    } else {
        assert((z + s).drop_last() =~= z + s.drop_last());
        lemma_zeros_value(z, s.drop_last());
    }
}

/// A string of only zeros spells zero.
pub proof fn lemma_all_zeros_value(z: Seq<char>)
    requires
        forall|i: int| 0 <= i < z.len() ==> z[i] == '0',
    ensures
        spec_value(z) == 0,
    decreases z.len(),
{
    if z.len() > 0 {
        lemma_all_zeros_value(z.drop_last());
    }
}

/// Law: padded decimal spellings are collision-free, whatever the width:
/// two different numbers never share a spelling.
pub proof fn lemma_padded_decimal_injective(n1: int, n2: int, width: int)
    requires
        n1 >= 0,
        n2 >= 0,
        n1 != n2,
    ensures
        spec_padded_decimal(n1, width) != spec_padded_decimal(n2, width),
{
    lemma_decimal_value(n1);
    lemma_decimal_value(n2);
    lemma_zeros_value(spec_zeros(width - spec_decimal(n1).len()), spec_decimal(n1));
    lemma_zeros_value(spec_zeros(width - spec_decimal(n2).len()), spec_decimal(n2));
}

/// Returns the character of one decimal digit.
pub fn digit_char(d: u64) -> (c: char)
    requires
        d < 10,
    ensures
        c == spec_digit_char(d as int),
{
    if d == 0 {
        '0'
    } else if d == 1 {
        '1'
    } else if d == 2 {
        '2'
    } else if d == 3 {
        '3'
    } else if d == 4 {
        '4'
    } else if d == 5 {
        '5'
    } else if d == 6 {
        '6'
    } else if d == 7 {
        '7'
    } else if d == 8 {
        '8'
    } else {
        '9'
    }
}

/// Returns the character of one hexadecimal digit.
pub fn hex_char(d: usize) -> (c: char)
    requires
        d < 16,
    ensures
        c == spec_hex_char(d as int),
{
    if d == 0 {
        '0'
    } else if d == 1 {
        '1'
    } else if d == 2 {
        '2'
    } else if d == 3 {
        '3'
    } else if d == 4 {
        '4'
    } else if d == 5 {
        '5'
    } else if d == 6 {
        '6'
    } else if d == 7 {
        '7'
    } else if d == 8 {
        '8'
    } else if d == 9 {
        '9'
    } else if d == 10 {
        'a'
    } else if d == 11 {
        'b'
    } else if d == 12 {
        'c'
    } else if d == 13 {
        'd'
    } else if d == 14 {
        'e'
    } else {
        'f'
    }
}

/// Appends the hexadecimal spelling of `n`, left-padded with zeros to
/// `width` characters.
pub fn push_padded_hex(s: &mut String, n: usize, width: usize)
    ensures
        final(s)@ == old(s)@ + spec_padded_hex(n as int, width as int),
{
    let mut suffix: Vec<char> = Vec::new();
    let mut m: usize = n;
    suffix.insert(0, hex_char(m % 16));
    proof {
        assert(suffix@ =~= seq![spec_hex_char((n % 16) as int)]);
    }
    m = m / 16;
    while m > 0
        invariant
            m > 0 ==> spec_hex(n as int) == spec_hex(m as int) + suffix@,
            m == 0 ==> spec_hex(n as int) == suffix@,
            suffix@.len() >= 1,
        decreases m,
    {
        let ghost pre = suffix@;
        suffix.insert(0, hex_char(m % 16));
        proof {
            assert(suffix@ =~= seq![spec_hex_char((m % 16) as int)] + pre);
            if m >= 16 {
                assert(spec_hex(m as int) == spec_hex(m as int / 16).push(
                    spec_hex_char(m as int % 16),
                ));
                assert(spec_hex(m as int / 16).push(spec_hex_char(m as int % 16)) =~= spec_hex(
                    m as int / 16,
                ) + seq![spec_hex_char(m as int % 16)]);
                assert(spec_hex(m as int) + pre =~= spec_hex(m as int / 16) + suffix@);
            } else {
                assert(spec_hex(m as int) =~= seq![spec_hex_char(m as int)]);
                assert(spec_hex(m as int) + pre =~= suffix@);
            }
            assert(m as int / 16 == (m / 16) as int);
        }
        m = m / 16;
    }
    let dec_len = suffix.len();
    let ghost base = s@;
    let mut pad: usize = dec_len;
    while pad < width
        invariant
            dec_len == suffix@.len(),
            pad >= dec_len,
            pad <= width || pad == dec_len,
            s@ == base + spec_zeros(pad as int - dec_len as int),
        decreases width - pad,
    {
        push_char(s, '0');
        proof {
            assert(s@ =~= base + spec_zeros((pad + 1) as int - dec_len as int));
        }
        pad = pad + 1;
    }
    let ghost zeros = spec_zeros(width as int - spec_hex(n as int).len());
    proof {
        if width > dec_len {
            assert(s@ =~= base + zeros);
        } else {
            assert(spec_zeros(pad as int - dec_len as int) =~= Seq::<char>::empty());
            assert(zeros =~= Seq::<char>::empty());
            assert(s@ =~= base + zeros);
        }
    }
    let mut j: usize = 0;
    while j < dec_len
        invariant
            dec_len == suffix@.len(),
            j <= dec_len,
            spec_hex(n as int) == suffix@,
            s@ == base + zeros + suffix@.take(j as int),
        decreases dec_len - j,
    {
        push_char(s, suffix[j]);
        proof {
            assert(s@ =~= base + zeros + suffix@.take(j as int + 1));
        }
        j = j + 1;
    }
    proof {
        assert(suffix@.take(dec_len as int) =~= suffix@);
        assert(s@ =~= base + spec_padded_hex(n as int, width as int));
    }
}

/// Appends the decimal spelling of `n`, left-padded with zeros to `width`
/// characters.
pub fn push_padded_decimal(s: &mut String, n: u64, width: usize)
    ensures
        final(s)@ == old(s)@ + spec_padded_decimal(n as int, width as int),
{
    let mut suffix: Vec<char> = Vec::new();
    let mut m: u64 = n;
    suffix.insert(0, digit_char(m % 10));
    proof {
        assert(suffix@ =~= seq![spec_digit_char((n % 10) as int)]);
    }
    m = m / 10;
    while m > 0
        invariant
            m > 0 ==> spec_decimal(n as int) == spec_decimal(m as int) + suffix@,
            m == 0 ==> spec_decimal(n as int) == suffix@,
            suffix@.len() >= 1,
        decreases m,
    {
        let ghost pre = suffix@;
        suffix.insert(0, digit_char(m % 10));
        proof {
            assert(suffix@ =~= seq![spec_digit_char((m % 10) as int)] + pre);
            if m >= 10 {
                assert(spec_decimal(m as int) == spec_decimal(m as int / 10).push(
                    spec_digit_char(m as int % 10),
                ));
                assert(spec_decimal(m as int / 10).push(spec_digit_char(m as int % 10))
                    =~= spec_decimal(m as int / 10) + seq![spec_digit_char(m as int % 10)]);
                assert(spec_decimal(m as int) + pre =~= spec_decimal(m as int / 10) + suffix@);
            } else {
                assert(spec_decimal(m as int) =~= seq![spec_digit_char(m as int)]);
                assert(spec_decimal(m as int) + pre =~= suffix@);
            }
            assert(m as int / 10 == (m / 10) as int);
        }
        m = m / 10;
    }
    let dec_len = suffix.len();
    let ghost base = s@;
    let mut pad: usize = dec_len;
    while pad < width
        invariant
            dec_len == suffix@.len(),
            pad >= dec_len,
            pad <= width || pad == dec_len,
            s@ == base + spec_zeros(pad as int - dec_len as int),
        decreases width - pad,
    {
        push_char(s, '0');
        proof {
            assert(s@ =~= base + spec_zeros((pad + 1) as int - dec_len as int));
        }
        pad = pad + 1;
    }
    let ghost zeros = spec_zeros(width as int - spec_decimal(n as int).len());
    proof {
        if width > dec_len {
            assert(s@ =~= base + zeros);
        } else {
            assert(spec_zeros(pad as int - dec_len as int) =~= Seq::<char>::empty());
            assert(zeros =~= Seq::<char>::empty());
            assert(s@ =~= base + zeros);
        }
    }
    let mut j: usize = 0;
    while j < dec_len
        invariant
            dec_len == suffix@.len(),
            j <= dec_len,
            spec_decimal(n as int) == suffix@,
            s@ == base + zeros + suffix@.take(j as int),
        decreases dec_len - j,
    {
        push_char(s, suffix[j]);
        proof {
            assert(s@ =~= base + zeros + suffix@.take(j as int + 1));
        }
        j = j + 1;
    }
    proof {
        assert(suffix@.take(dec_len as int) =~= suffix@);
        assert(s@ =~= base + spec_padded_decimal(n as int, width as int));
    }
}

} // verus!
