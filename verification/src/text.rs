//! Strings, and the two encodings that file names come in.
use vstd::prelude::*;
use vstd::utf8::*;

verus! {

/// `String::push`: the character is appended.
pub assume_specification[ String::push ](s: &mut String, c: char)
    ensures
        final(s)@ == old(s)@.push(c),
;

/// What `String::from_utf8_lossy` makes of bytes that are not valid UTF-8.
pub uninterp spec fn utf8_lossy(bytes: Seq<u8>) -> Seq<char>;

/// The characters that `bytes` stand for in UTF-8, with replacement characters
/// for what is not valid.
pub open spec fn utf8_text(bytes: Seq<u8>) -> Seq<char> {
    if valid_utf8(bytes) {
        decode_utf8(bytes)
    } else {
        utf8_lossy(bytes)
    }
}

/// `String::from_utf8_lossy`: valid UTF-8 is decoded; where replacement
/// characters come in, the result has only its name.
#[verifier::external_body]
pub(crate) fn from_utf8_lossy(bytes: &[u8]) -> (s: String)
    ensures
        valid_utf8(bytes@) ==> s@ == decode_utf8(bytes@),
        !valid_utf8(bytes@) ==> s@ == utf8_lossy(bytes@),
{
    String::from_utf8_lossy(bytes).into_owned()
}

/// The characters of a string.
pub fn chars_of(s: &str) -> (chars: Vec<char>)
    ensures
        chars@ == s@,
{
    let mut chars: Vec<char> = Vec::new();
    for c in it: s.chars()
        invariant
            chars@ == s@.take(it.index()),
            it.seq() == s@,
    {
        assert(s@.take(it.index() + 1) == s@.take(it.index()).push(c));
        chars.push(c);
    }
    assert(s@.take(s@.len() as int) == s@);
    chars
}

/// The string made of the given characters.
pub fn string_of(chars: &[char]) -> (s: String)
    ensures
        s@ == chars@,
{
    let mut s = String::new();
    let mut i: usize = 0;
    while i < chars.len()
        invariant
            i <= chars.len(),
            s@ == chars@.take(i as int),
        decreases chars.len() - i,
    {
        assert(chars@.take(i + 1) == chars@.take(i as int).push(chars@[i as int]));
        s.push(chars[i]);
        i += 1;
    }
    assert(chars@.take(chars@.len() as int) == chars@);
    s
}

/// The digit that stands for `d`.
pub open spec fn digit(d: nat) -> char {
    ('0' as u32 + d) as char
}

/// The last `width` decimal digits of `n`, with zeros in front, and more of
/// them where `n` has more.
pub open spec fn decimal_padded_spec(n: nat, width: nat) -> Seq<char>
    decreases n, width,
{
    if n == 0 && width == 0 {
        Seq::empty()
    } else {
        decimal_padded_spec(
            n / 10,
            if width == 0 {
                0
            } else {
                (width - 1) as nat
            },
        ).push(digit(n % 10))
    }
}

/// The digit that stands for `d`.
fn digit_of(d: u64) -> (c: char)
    requires
        d < 10,
    ensures
        c == digit(d as nat),
{
    (0x30u8 + d as u8) as char
}

/// Writes `n` in decimal, with zeros in front up to `width` digits.
pub fn decimal_padded(n: u64, width: u32) -> (s: String)
    ensures
        s@ == decimal_padded_spec(n as nat, width as nat),
    decreases n, width,
{
    if n == 0 && width == 0 {
        String::new()
    } else {
        let shorter: u32 = if width == 0 {
            0
        } else {
            width - 1
        };
        let mut s = decimal_padded(n / 10, shorter);
        s.push(digit_of(n % 10));
        s
    }
}

/// The number that digits stand for.
pub open spec fn number_of_digits(s: Seq<char>) -> nat
    decreases s.len(),
{
    if s.len() == 0 {
        0
    } else {
        number_of_digits(s.drop_last()) * 10 + (s.last() as u32 - '0' as u32) as nat
    }
}

/// The decimal digits of a number are digits, stand for it, and are at least as many as asked for:
/// just as many, unless the number needs more.
pub proof fn decimal_stands_for_number(n: nat, width: nat)
    ensures
        number_of_digits(decimal_padded_spec(n, width)) == n,
        decimal_padded_spec(n, width).len() >= width,
        decimal_padded_spec(n, width).len() > width ==> decimal_padded_spec(n, width)[0] != '0',
        forall|i: int|
            0 <= i < decimal_padded_spec(n, width).len() ==> '0' <= (
            #[trigger] decimal_padded_spec(n, width)[i]) <= '9',
    decreases n, width,
{
    let s = decimal_padded_spec(n, width);
    if n > 0 || width > 0 {
        let fewer = if width == 0 {
            0
        } else {
            (width - 1) as nat
        };
        decimal_stands_for_number(n / 10, fewer);
        let before = decimal_padded_spec(n / 10, fewer);
        assert(s.drop_last() =~= before);
        assert(s.last() == digit(n % 10));
        if before.len() > 0 {
            assert(s[0] == before[0]);
        }
    }
}

} // verus!
