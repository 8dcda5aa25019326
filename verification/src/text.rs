//! Character-level helpers shared by the parser and the serializers:
//! whitespace classification, string/character-vector conversions, and
//! decimal rendering of numbers.

use vstd::prelude::*;

verus! {

/// The Unicode `White_Space` characters, the set that both request-line
/// tokenization and output trimming split on.
pub open spec fn is_ws_char(c: char) -> bool {
    let u = c as u32;
    u == 0x20 || u == 0x09 || u == 0x0A || u == 0x0B || u == 0x0C || u == 0x0D
        || u == 0x85 || u == 0xA0 || u == 0x1680
        || (0x2000 <= u && u <= 0x200A)
        || u == 0x2028 || u == 0x2029 || u == 0x202F || u == 0x205F || u == 0x3000
}

/// Decides `is_ws_char`.
pub fn is_whitespace(c: char) -> (r: bool)
    ensures
        r == is_ws_char(c),
{
    let u = c as u32;
    u == 0x20 || u == 0x09 || u == 0x0A || u == 0x0B || u == 0x0C || u == 0x0D
        || u == 0x85 || u == 0xA0 || u == 0x1680
        || (0x2000 <= u && u <= 0x200A)
        || u == 0x2028 || u == 0x2029 || u == 0x202F || u == 0x205F || u == 0x3000
}

/// Relies on `String`'s `FromIterator<char>` impl: collecting characters
/// yields the string of exactly those characters, in order.
#[verifier::external_body]
pub fn chars_to_string(v: &Vec<char>) -> (r: String)
    ensures
        r@ == v@,
{
    v.iter().collect()
}

/// The characters of `s`, as a vector.
pub fn str_chars(s: &str) -> (r: Vec<char>)
    ensures
        r@ == s@,
{
    let n = s.unicode_len();
    let mut v: Vec<char> = Vec::new();
    let mut i: usize = 0;
    while i < n
        invariant
            i <= n,
            n == s@.len(),
            v@ == s@.take(i as int),
        decreases n - i,
    {
        let c = s.get_char(i);
        v.push(c);
        i = i + 1;
        proof {
            assert(v@ =~= s@.take(i as int));
        }
    }
    proof {
        assert(v@ =~= s@);
    }
    v
}

/// Decimal digit character for a value below ten.
pub open spec fn digit_char(d: nat) -> char
    recommends
        d < 10,
{
    if d == 0 { '0' }
    else if d == 1 { '1' }
    else if d == 2 { '2' }
    else if d == 3 { '3' }
    else if d == 4 { '4' }
    else if d == 5 { '5' }
    else if d == 6 { '6' }
    else if d == 7 { '7' }
    else if d == 8 { '8' }
    else { '9' }
}

/// The usual decimal rendering of `n`, most significant digit first,
/// with no leading zeros (a single `'0'` for zero).
pub open spec fn dec_of(n: nat) -> Seq<char>
    decreases n,
{
    if n < 10 {
        seq![digit_char(n)]
    } else {
        dec_of(n / 10) + seq![digit_char(n % 10)]
    }
}

/// The numeric value a sequence of decimal digit characters denotes.
pub open spec fn char_digit(c: char) -> nat {
    if c == '1' { 1 }
    else if c == '2' { 2 }
    else if c == '3' { 3 }
    else if c == '4' { 4 }
    else if c == '5' { 5 }
    else if c == '6' { 6 }
    else if c == '7' { 7 }
    else if c == '8' { 8 }
    else if c == '9' { 9 }
    else { 0 }
}

/// The numeric value of a decimal digit string, most significant digit first.
pub open spec fn dec_val(s: Seq<char>) -> nat
    decreases s.len(),
{
    if s.len() == 0 {
        0
    } else {
        dec_val(s.drop_last()) * 10 + char_digit(s.last())
    }
}

/// The decimal rendering of a number denotes that number: reading the
/// digits of `dec_of(n)` back as a value gives `n`.
pub proof fn lemma_dec_of_value(n: nat)
    ensures
        dec_val(dec_of(n)) == n,
    decreases n,
{
    if n < 10 {
        assert(dec_of(n) == seq![digit_char(n)]);
        assert(dec_of(n).drop_last() =~= Seq::<char>::empty());
        assert(dec_of(n).last() == digit_char(n));
        assert(char_digit(digit_char(n)) == n);
        assert(dec_val(Seq::<char>::empty()) == 0);
    } else {
        lemma_dec_of_value(n / 10);
        assert(dec_of(n).drop_last() =~= dec_of(n / 10));
        assert(dec_of(n).last() == digit_char(n % 10));
        assert(char_digit(digit_char(n % 10)) == n % 10);
        assert(n == (n / 10) * 10 + n % 10) by {
            vstd::arithmetic::div_mod::lemma_fundamental_div_mod(n as int, 10);
        }
    }
}

/// Appends one decimal digit to `s`.
fn push_digit(s: &mut String, d: u64)
    requires
        d < 10,
    ensures
        final(s)@ == old(s)@ + seq![digit_char(d as nat)],
{
    if d == 0 { s.append("0"); proof { reveal_strlit("0"); assert(s@ =~= old(s)@ + seq![digit_char(d as nat)]); } }
    else if d == 1 { s.append("1"); proof { reveal_strlit("1"); assert(s@ =~= old(s)@ + seq![digit_char(d as nat)]); } }
    else if d == 2 { s.append("2"); proof { reveal_strlit("2"); assert(s@ =~= old(s)@ + seq![digit_char(d as nat)]); } }
    else if d == 3 { s.append("3"); proof { reveal_strlit("3"); assert(s@ =~= old(s)@ + seq![digit_char(d as nat)]); } }
    else if d == 4 { s.append("4"); proof { reveal_strlit("4"); assert(s@ =~= old(s)@ + seq![digit_char(d as nat)]); } }
    else if d == 5 { s.append("5"); proof { reveal_strlit("5"); assert(s@ =~= old(s)@ + seq![digit_char(d as nat)]); } }
    else if d == 6 { s.append("6"); proof { reveal_strlit("6"); assert(s@ =~= old(s)@ + seq![digit_char(d as nat)]); } }
    else if d == 7 { s.append("7"); proof { reveal_strlit("7"); assert(s@ =~= old(s)@ + seq![digit_char(d as nat)]); } }
    else if d == 8 { s.append("8"); proof { reveal_strlit("8"); assert(s@ =~= old(s)@ + seq![digit_char(d as nat)]); } }
    else { s.append("9"); proof { reveal_strlit("9"); assert(s@ =~= old(s)@ + seq![digit_char(d as nat)]); } }
}

/// Appends the decimal rendering of `n` to `s`.
pub fn push_decimal(s: &mut String, n: u64)
    ensures
        final(s)@ == old(s)@ + dec_of(n as nat),
    decreases n,
{
    if n < 10 {
        push_digit(s, n);
    } else {
        push_decimal(s, n / 10);
        push_digit(s, n % 10);
        proof {
            assert(s@ =~= old(s)@ + dec_of(n as nat));
        }
    }
}

} // verus!
