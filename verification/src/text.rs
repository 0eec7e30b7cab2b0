//! Small helpers for moving between ASCII bytes and strings.

use vstd::prelude::*;

verus! {

/// The characters that a sequence of ASCII bytes stands for.
pub open spec fn chars_of_bytes(v: Seq<u8>) -> Seq<char> {
    Seq::new(v.len(), |i: int| v[i] as char)
}

/// The bytes of a sequence of ASCII characters.
pub open spec fn bytes_of_chars(s: Seq<char>) -> Seq<u8> {
    Seq::new(s.len(), |i: int| s[i] as u8)
}

/// Relies on `String::from_utf8`: a buffer of bytes below 0x80 is valid
/// UTF-8 and decodes to exactly those code points.
#[verifier::external_body]
pub fn ascii_to_string(v: &[u8]) -> (r: String)
    requires
        forall|i: int| 0 <= i < v@.len() ==> v@[i] < 128,
    ensures
        r@ == chars_of_bytes(v@),
{
    String::from_utf8(v.to_vec()).unwrap()
}

/// The decimal digit character of a value below ten.
pub open spec fn digit_char(d: int) -> char {
    ((48 + d) as u8) as char
}

/// The decimal digits of a natural number, most significant first.
pub open spec fn spec_udigits(n: nat) -> Seq<char>
    decreases n,
{
    if n < 10 {
        seq![digit_char(n as int)]
    } else {
        spec_udigits(n / 10).push(digit_char((n % 10) as int))
    }
}

/// The decimal text of an integer, with a leading minus sign when negative.
pub open spec fn spec_int_text(i: int) -> Seq<char> {
    if i >= 0 {
        spec_udigits(i as nat)
    } else {
        seq!['-'] + spec_udigits((-i) as nat)
    }
}

/// One decimal digit as a string slice.
pub fn digit_str(d: u8) -> (r: &'static str)
    requires
        d < 10,
    ensures
        r@ == seq![digit_char(d as int)],
{
    proof {
        reveal_strlit("0");
        reveal_strlit("1");
        reveal_strlit("2");
        reveal_strlit("3");
        reveal_strlit("4");
        reveal_strlit("5");
        reveal_strlit("6");
        reveal_strlit("7");
        reveal_strlit("8");
        reveal_strlit("9");
    }
    match d {
        0 => "0",
        1 => "1",
        2 => "2",
        3 => "3",
        4 => "4",
        5 => "5",
        6 => "6",
        7 => "7",
        8 => "8",
        _ => {
            proof {
                assert(d == 9);
            }
            "9"
        },
    }
}

/// The decimal text of a u128.
pub fn u128_text(n: u128) -> (r: String)
    ensures
        r@ == spec_udigits(n as nat),
    decreases n,
{
    if n < 10 {
        String::from_str(digit_str(n as u8))
    } else {
        let mut s = u128_text(n / 10);
        s.append(digit_str((n % 10) as u8));
        s
    }
}

/// The decimal text of a u64.
pub fn u64_text(n: u64) -> (r: String)
    ensures
        r@ == spec_udigits(n as nat),
{
    u128_text(n as u128)
}

/// The decimal text of an i64.
pub fn i64_text(n: i64) -> (r: String)
    ensures
        r@ == spec_int_text(n as int),
{
    if n >= 0 {
        u128_text(n as u128)
    } else {
        let mag: u128 = if n == i64::MIN {
            9223372036854775808u128
        } else {
            (-n) as u128
        };
        let mut s = String::from_str("-");
        proof {
            reveal_strlit("-");
        }
        s.append(u128_text(mag).as_str());
        s
    }
}

/// The lower-case hexadecimal digit character of a value below sixteen.
pub open spec fn hex_digit(d: int) -> char {
    if d < 10 {
        digit_char(d)
    } else {
        ((87 + d) as u8) as char
    }
}

/// One lower-case hexadecimal digit as a string slice.
pub fn hex_digit_str(d: u8) -> (r: &'static str)
    requires
        d < 16,
    ensures
        r@ == seq![hex_digit(d as int)],
{
    if d < 10 {
        digit_str(d)
    } else {
        proof {
            reveal_strlit("a");
            reveal_strlit("b");
            reveal_strlit("c");
            reveal_strlit("d");
            reveal_strlit("e");
            reveal_strlit("f");
        }
        match d {
            10 => "a",
            11 => "b",
            12 => "c",
            13 => "d",
            14 => "e",
            _ => {
                proof {
                    assert(d == 15);
                }
                "f"
            },
        }
    }
}

/// Whether two string slices hold the same characters.
pub fn str_eq(a: &str, b: &str) -> (r: bool)
    ensures
        r == (a@ == b@),
{
    let an = a.unicode_len();
    let bn = b.unicode_len();
    if an != bn {
        return false;
    }
    let mut i: usize = 0;
    while i < an
        invariant
            0 <= i <= an == a@.len(),
            an == bn == b@.len(),
            forall|j: int| 0 <= j < i ==> a@[j] == b@[j],
        decreases an - i,
    {
        if !(a.get_char(i) == b.get_char(i)) {
            return false;
        }
        i = i + 1;
    }
    proof {
        assert(a@ =~= b@);
    }
    true
}

/// Two ASCII characters with the same byte form are the same character.
pub proof fn lemma_ascii_char_eq(c: char, d: char)
    requires
        c <= '\u{7f}',
        d <= '\u{7f}',
        c as u8 == d as u8,
    ensures
        c == d,
{
    assert(c as u32 <= 127);
    assert(d as u32 <= 127);
    assert(c as u8 as u32 == c as u32);
    assert(d as u8 as u32 == d as u32);
    assert(c as u32 == d as u32);
    assert(c == d);
}

/// On ASCII strings, the byte form determines the characters.
pub proof fn lemma_bytes_of_chars_inj(a: Seq<char>, b: Seq<char>)
    requires
        forall|i: int| 0 <= i < a.len() ==> #[trigger] a[i] <= '\u{7f}',
        forall|i: int| 0 <= i < b.len() ==> #[trigger] b[i] <= '\u{7f}',
        bytes_of_chars(a) == bytes_of_chars(b),
    ensures
        a == b,
{
    assert(bytes_of_chars(a).len() == a.len());
    assert(bytes_of_chars(b).len() == b.len());
    assert(a.len() == b.len());
    assert forall|i: int| 0 <= i < a.len() implies a[i] == b[i] by {
        assert(bytes_of_chars(a)[i] == a[i] as u8);
        assert(bytes_of_chars(b)[i] == b[i] as u8);
        lemma_ascii_char_eq(a[i], b[i]);
    }
    assert(a =~= b);
}

/// Casting an ASCII character to its byte and back yields the character.
pub proof fn lemma_ascii_roundtrip(c: char)
    requires
        c <= '\u{7f}',
    ensures
        ((c as u8) as char) == c,
{
    let d = (c as u8) as char;
    assert(d as u8 == c as u8);
    assert(c as u32 <= 127);
    assert(c as u8 as u32 == c as u32);
    assert(d as u32 == c as u8 as u32);
    assert(d <= '\u{7f}');
    lemma_ascii_char_eq(d, c);
}

/// Turning ASCII characters into bytes and back yields the same characters.
pub proof fn lemma_chars_bytes_round_trip(s: Seq<char>)
    requires
        forall|i: int| 0 <= i < s.len() ==> #[trigger] s[i] <= '\u{7f}',
    ensures
        chars_of_bytes(bytes_of_chars(s)) =~= s,
{
    assert forall|i: int| 0 <= i < s.len() implies chars_of_bytes(bytes_of_chars(s))[i]
        == s[i] by {
        assert(s[i] <= '\u{7f}');
        lemma_ascii_roundtrip(s[i]);
        assert(bytes_of_chars(s)[i] == s[i] as u8);
        assert(chars_of_bytes(bytes_of_chars(s))[i] == (s[i] as u8) as char);
    }
}

/// Turning ASCII bytes into characters and back yields the same bytes.
pub proof fn lemma_bytes_chars_round_trip(v: Seq<u8>)
    requires
        forall|i: int| 0 <= i < v.len() ==> v[i] < 128,
    ensures
        bytes_of_chars(chars_of_bytes(v)) =~= v,
{
}

} // verus!
