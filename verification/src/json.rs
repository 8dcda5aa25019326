//! The JSON wire bodies the gateway emits: string escaping, the
//! command-result object, the endpoint listing, and the fixed error bodies.

use vstd::prelude::*;
use crate::text::str_chars;
use crate::text::chars_to_string;

verus! {

/// Lowercase hexadecimal digit character for a value below sixteen.
pub open spec fn hex_char(d: nat) -> char
    recommends
        d < 16,
{
    if d == 0 { '0' }
    else if d == 1 { '1' }
    else if d == 2 { '2' }
    else if d == 3 { '3' }
    else if d == 4 { '4' }
    else if d == 5 { '5' }
    else if d == 6 { '6' }
    else if d == 7 { '7' }
    else if d == 8 { '8' }
    else if d == 9 { '9' }
    else if d == 10 { 'a' }
    else if d == 11 { 'b' }
    else if d == 12 { 'c' }
    else if d == 13 { 'd' }
    else if d == 14 { 'e' }
    else { 'f' }
}

/// How one character appears inside a JSON string literal: quote and
/// backslash get a backslash escape, control characters get their short
/// escape or a `\u00XX` form, and every other character stands as itself.
pub open spec fn esc_char(c: char) -> Seq<char> {
    let u = c as u32;
    if c == '"' {
        seq!['\\', '"']
    } else if c == '\\' {
        seq!['\\', '\\']
    } else if u < 0x20 {
        if u == 0x08 { seq!['\\', 'b'] }
        else if u == 0x09 { seq!['\\', 't'] }
        else if u == 0x0A { seq!['\\', 'n'] }
        else if u == 0x0C { seq!['\\', 'f'] }
        else if u == 0x0D { seq!['\\', 'r'] }
        else { seq!['\\', 'u', '0', '0', hex_char((u / 16) as nat), hex_char((u % 16) as nat)] }
    } else {
        seq![c]
    }
}

/// The JSON escaping of a whole string.
pub open spec fn esc(s: Seq<char>) -> Seq<char>
    decreases s.len(),
{
    if s.len() == 0 {
        Seq::empty()
    } else {
        esc_char(s[0]) + esc(s.drop_first())
    }
}

/// Escaping distributes over concatenation.
pub proof fn lemma_esc_concat(a: Seq<char>, b: Seq<char>)
    ensures
        esc(a + b) == esc(a) + esc(b),
    decreases a.len(),
{
    if a.len() == 0 {
        assert(a + b =~= b);
        assert(esc(a) =~= Seq::<char>::empty());
        assert(esc(a) + esc(b) =~= esc(b));
    } else {
        assert((a + b).drop_first() =~= a.drop_first() + b);
        lemma_esc_concat(a.drop_first(), b);
        assert((a + b)[0] == a[0]);
        assert(esc(a + b) =~= esc(a) + esc(b));
    }
}

/// Escaping one more character appends that character's escape.
pub proof fn lemma_esc_snoc(s: Seq<char>, i: int)
    requires
        0 <= i < s.len(),
    ensures
        esc(s.take(i + 1)) == esc(s.take(i)) + esc_char(s[i]),
{
    assert(s.take(i + 1) =~= s.take(i) + seq![s[i]]);
    lemma_esc_concat(s.take(i), seq![s[i]]);
    assert(seq![s[i]].drop_first() =~= Seq::<char>::empty());
    assert(esc(Seq::<char>::empty()) =~= Seq::<char>::empty());
    assert(esc(seq![s[i]]) =~= esc_char(s[i]));
}

/// A string in which no character needs an escape is its own escaping.
pub proof fn lemma_esc_identity(s: Seq<char>)
    requires
        forall|i: int|
            0 <= i < s.len() ==> s[i] != '"' && s[i] != '\\' && (s[i] as u32) >= 0x20,
    ensures
        esc(s) == s,
    decreases s.len(),
{
    if s.len() == 0 {
        assert(esc(s) =~= s);
    } else {
        assert(esc_char(s[0]) =~= seq![s[0]]);
        lemma_esc_identity(s.drop_first());
        assert(esc(s) =~= s);
    }
}

/// The view of an optional string.
pub open spec fn opt_chars(e: Option<String>) -> Option<Seq<char>> {
    match e {
        Option::None => Option::None,
        Option::Some(s) => Option::Some(s@),
    }
}

/// Hexadecimal digit character for a value below sixteen.
fn hex_digit(d: u32) -> (c: char)
    requires
        d < 16,
    ensures
        c == hex_char(d as nat),
{
    if d == 0 { '0' }
    else if d == 1 { '1' }
    else if d == 2 { '2' }
    else if d == 3 { '3' }
    else if d == 4 { '4' }
    else if d == 5 { '5' }
    else if d == 6 { '6' }
    else if d == 7 { '7' }
    else if d == 8 { '8' }
    else if d == 9 { '9' }
    else if d == 10 { 'a' }
    else if d == 11 { 'b' }
    else if d == 12 { 'c' }
    else if d == 13 { 'd' }
    else if d == 14 { 'e' }
    else { 'f' }
}

/// Appends the escape of one character.
fn push_escaped_char(out: &mut Vec<char>, c: char)
    ensures
        final(out)@ == old(out)@ + esc_char(c),
{
    let u = c as u32;
    if c == '"' {
        out.push('\\');
        out.push('"');
        proof { assert(out@ =~= old(out)@ + esc_char(c)); }
    } else if c == '\\' {
        out.push('\\');
        out.push('\\');
        proof { assert(out@ =~= old(out)@ + esc_char(c)); }
    } else if u < 0x20 {
        if u == 0x08 {
            out.push('\\');
            out.push('b');
            proof { assert(out@ =~= old(out)@ + esc_char(c)); }
        } else if u == 0x09 {
            out.push('\\');
            out.push('t');
            proof { assert(out@ =~= old(out)@ + esc_char(c)); }
        } else if u == 0x0A {
            out.push('\\');
            out.push('n');
            proof { assert(out@ =~= old(out)@ + esc_char(c)); }
        } else if u == 0x0C {
            out.push('\\');
            out.push('f');
            proof { assert(out@ =~= old(out)@ + esc_char(c)); }
        } else if u == 0x0D {
            out.push('\\');
            out.push('r');
            proof { assert(out@ =~= old(out)@ + esc_char(c)); }
        } else {
            out.push('\\');
            out.push('u');
            out.push('0');
            out.push('0');
            out.push(hex_digit(u / 16));
            out.push(hex_digit(u % 16));
            proof { assert(out@ =~= old(out)@ + esc_char(c)); }
        }
    } else {
        out.push(c);
        proof { assert(out@ =~= old(out)@ + esc_char(c)); }
    }
}

/// The JSON escaping of `s`, as a new string.
pub fn escape_string(s: &String) -> (r: String)
    ensures
        r@ == esc(s@),
{
    let v = str_chars(s.as_str());
    let n = v.len();
    let mut out: Vec<char> = Vec::new();
    let mut i: usize = 0;
    while i < n
        invariant
            i <= n,
            n == s@.len(),
            v@ == s@,
            out@ == esc(s@.take(i as int)),
        decreases n - i,
    {
        push_escaped_char(&mut out, v[i]);
        proof {
            lemma_esc_snoc(s@, i as int);
        }
        i = i + 1;
    }
    proof {
        assert(s@.take(n as int) =~= s@);
    }
    chars_to_string(&out)
}

/// The JSON object the gateway returns for a command result: the `status`,
/// `output` and `error` fields, the last `null` when there is no error text.
pub open spec fn body_of(status: Seq<char>, output: Seq<char>, error: Option<Seq<char>>) -> Seq<char> {
    "{\"status\":\""@ + esc(status) + "\",\"output\":\""@ + esc(output) + "\",\"error\":"@
        + (match error {
            Option::None => "null"@,
            Option::Some(e) => "\""@ + esc(e) + "\""@,
        }) + "}"@
}

/// One entry of the endpoint listing: a route name mapped to its description.
pub open spec fn entry_of(name: Seq<char>, description: Seq<char>) -> Seq<char> {
    "\""@ + esc(name) + "\":\""@ + esc(description) + "\""@
}

/// The comma-separated entries of the endpoint listing, in registry order.
pub open spec fn listing_entries(pairs: Seq<(Seq<char>, Seq<char>)>) -> Seq<char>
    decreases pairs.len(),
{
    if pairs.len() == 0 {
        Seq::empty()
    } else if pairs.len() == 1 {
        entry_of(pairs[0].0, pairs[0].1)
    } else {
        listing_entries(pairs.drop_last()) + ","@ + entry_of(pairs.last().0, pairs.last().1)
    }
}

/// The whole endpoint-listing body: a JSON object of every route name
/// mapped to its description.
pub open spec fn listing_of(pairs: Seq<(Seq<char>, Seq<char>)>) -> Seq<char> {
    "{"@ + listing_entries(pairs) + "}"@
}

/// The fixed body sent for a path no route is configured under.
pub open spec fn not_found_body() -> Seq<char> {
    "{\"status\":\"error\",\"message\":\"Endpoint not found\",\"note\":\"Use /endpoints to see available endpoints\"}"@
}

/// The fixed body sent for a request line that cannot be parsed.
pub open spec fn invalid_body() -> Seq<char> {
    "{\"status\":\"error\",\"message\":\"Invalid request\"}"@
}

} // verus!
