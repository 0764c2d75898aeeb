//! Digests and textual encodings, computed by the sha2, hex and serde_json
//! crates.

use sha2::Digest;
use vstd::prelude::*;

verus! {

/// The error type of serde_json.
#[verifier::external_type_specification]
#[verifier::external_body]
pub struct ExJsonError(serde_json::Error);

/// The SHA-256 digest of `data`.
pub uninterp spec fn sha256_digest(data: Seq<u8>) -> Seq<u8>;

/// `sha2::Sha256::digest`: the SHA-256 digest of `data`, which is 32 bytes long.
#[verifier::external_body]
pub(crate) fn sha256(data: &[u8]) -> (r: Vec<u8>)
    ensures
        r@ == sha256_digest(data@),
        r@.len() == 32,
{
    sha2::Sha256::digest(data).to_vec()
}

/// The lower-case hexadecimal digit for `d`.
pub open spec fn hex_digit(d: int) -> char
    recommends
        0 <= d < 16,
{
    if d < 10 {
        crate::text::digit_char(d)
    } else if d == 10 {
        'a'
    } else if d == 11 {
        'b'
    } else if d == 12 {
        'c'
    } else if d == 13 {
        'd'
    } else if d == 14 {
        'e'
    } else {
        'f'
    }
}

/// Two lower-case hexadecimal digits per byte, high half first.
pub open spec fn hex_text(data: Seq<u8>) -> Seq<char> {
    Seq::new(
        2 * data.len(),
        |i: int|
            if i % 2 == 0 {
                hex_digit(data[i / 2] as int / 16)
            } else {
                hex_digit(data[i / 2] as int % 16)
            },
    )
}

/// `hex::encode`: every byte as two lower-case hexadecimal digits.
#[verifier::external_body]
pub(crate) fn hex_encode(data: &[u8]) -> (r: String)
    requires
        2 * data@.len() <= isize::MAX,
    ensures
        r@ == hex_text(data@),
{
    hex::encode(data)
}

/// How a JSON string spells `c`.
pub open spec fn json_char(c: char) -> Seq<char> {
    if c == '"' {
        seq!['\\', '"']
    } else if c == '\\' {
        seq!['\\', '\\']
    } else if c == '\u{8}' {
        seq!['\\', 'b']
    } else if c == '\u{c}' {
        seq!['\\', 'f']
    } else if c == '\n' {
        seq!['\\', 'n']
    } else if c == '\r' {
        seq!['\\', 'r']
    } else if c == '\t' {
        seq!['\\', 't']
    } else if ' ' > c {
        seq!['\\', 'u', '0', '0', hex_digit(c as int / 16), hex_digit(c as int % 16)]
    } else {
        seq![c]
    }
}

/// The inside of the JSON string for `s`.
pub open spec fn json_chars(s: Seq<char>) -> Seq<char>
    decreases s.len(),
{
    if s.len() == 0 {
        Seq::empty()
    } else {
        json_char(s[0]) + json_chars(s.skip(1))
    }
}

/// The JSON string for `s`, quotes included.
pub open spec fn json_string(s: Seq<char>) -> Seq<char> {
    seq!['"'] + json_chars(s) + seq!['"']
}

/// `serde_json::to_string` on a string: it succeeds, since writing to memory
/// does, and gives the string in quotes with `"`, `\` and the control
/// characters below U+0020 escaped.
#[verifier::external_body]
pub(crate) fn json_encode(s: &str) -> (r: Result<String, serde_json::Error>)
    ensures
        r is Ok,
        r->Ok_0@ == json_string(s@),
{
    serde_json::to_string(s)
}

/// The first character of a JSON spelling tells how long the spelling is, so no
/// spelling starts another one's.
proof fn lemma_json_char_prefix_free(c: char, d: char, x: Seq<char>, y: Seq<char>)
    requires
        json_char(c) + x == json_char(d) + y,
    ensures
        c == d,
        x == y,
{
    let left = json_char(c) + x;
    let right = json_char(d) + y;
    assert(left[0] == right[0]);
    assert(json_char(c)[0] == left[0]);
    assert(json_char(d)[0] == right[0]);
    if json_char(c).len() >= 2 {
        assert(json_char(c)[1] == left[1]);
        assert(json_char(d).len() >= 2);
        assert(json_char(d)[1] == right[1]);
        if json_char(c).len() == 6 {
            assert(json_char(d).len() == 6);
            assert(json_char(c)[4] == left[4]);
            assert(json_char(d)[4] == right[4]);
            assert(json_char(c)[5] == left[5]);
            assert(json_char(d)[5] == right[5]);
            assert(c as int / 16 == d as int / 16);
            assert(c as int % 16 == d as int % 16);
        }
    }
    assert(c == d);
    assert(x =~= left.skip(json_char(c).len() as int));
    assert(y =~= right.skip(json_char(d).len() as int));
}

/// Different texts have different JSON spellings, whatever follows the closing
/// quote.
pub proof fn law_json_string_injective(s: Seq<char>, t: Seq<char>, x: Seq<char>, y: Seq<char>)
    requires
        json_string(s) + x == json_string(t) + y,
    ensures
        s == t,
        x == y,
{
    let a = json_chars(s) + seq!['"'] + x;
    let b = json_chars(t) + seq!['"'] + y;
    assert(a =~= (json_string(s) + x).skip(1));
    assert(b =~= (json_string(t) + y).skip(1));
    lemma_json_chars_injective(s, t, x, y);
}

proof fn lemma_json_chars_injective(s: Seq<char>, t: Seq<char>, x: Seq<char>, y: Seq<char>)
    requires
        json_chars(s) + seq!['"'] + x == json_chars(t) + seq!['"'] + y,
    ensures
        s == t,
        x == y,
    decreases s.len(),
{
    let a = json_chars(s) + seq!['"'] + x;
    let b = json_chars(t) + seq!['"'] + y;
    assert(a[0] == b[0]);
    if s.len() == 0 {
        if t.len() > 0 {
            assert(json_char(t[0])[0] == b[0]);
            assert(a[0] == '"');
        }
        assert(x =~= a.skip(1));
        assert(y =~= b.skip(1));
        assert(s =~= t);
    } else if t.len() == 0 {
        assert(json_char(s[0])[0] == a[0]);
        assert(b[0] == '"');
    } else {
        let ra = json_chars(s.skip(1)) + seq!['"'] + x;
        let rb = json_chars(t.skip(1)) + seq!['"'] + y;
        assert(a =~= json_char(s[0]) + ra);
        assert(b =~= json_char(t[0]) + rb);
        lemma_json_char_prefix_free(s[0], t[0], ra, rb);
        lemma_json_chars_injective(s.skip(1), t.skip(1), x, y);
        assert(s =~= seq![s[0]] + s.skip(1));
        assert(t =~= seq![t[0]] + t.skip(1));
    }
}

/// A hexadecimal digit spells its number: `0` to `9`, then `a` to `f`.
pub proof fn law_hex_digit_spells_its_number(d: int)
    requires
        0 <= d < 16,
    ensures
        d < 10 ==> hex_digit(d) as u32 == 48 + d,
        d >= 10 ==> hex_digit(d) as u32 == 87 + d,
{
}

/// Hexadecimal text has two digits for each byte, which give the byte back.
pub proof fn law_hex_text_gives_the_bytes_back(data: Seq<u8>, i: int, high: int, low: int)
    requires
        0 <= i < data.len(),
        0 <= high < 16,
        0 <= low < 16,
        hex_text(data)[2 * i] == hex_digit(high),
        hex_text(data)[2 * i + 1] == hex_digit(low),
    ensures
        hex_text(data).len() == 2 * data.len(),
        data[i] == 16 * high + low,
{
    let byte = data[i] as int;
    assert((2 * i) / 2 == i && (2 * i) % 2 == 0);
    assert((2 * i + 1) / 2 == i && (2 * i + 1) % 2 == 1);
    assert(hex_text(data)[2 * i] == hex_digit(byte / 16));
    assert(hex_text(data)[2 * i + 1] == hex_digit(byte % 16));
    law_hex_digit_spells_its_number(byte / 16);
    law_hex_digit_spells_its_number(byte % 16);
    law_hex_digit_spells_its_number(high);
    law_hex_digit_spells_its_number(low);
}

} // verus!
