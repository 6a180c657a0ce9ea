//! Text helpers: UTF-8 decoding, comparison and concatenation of strings.

use vstd::prelude::*;
use vstd::utf8::{decode_utf8, encode_utf8, valid_utf8};

use crate::wire::{push_all, same, to_vec};

verus! {

/// The text that `String::from_utf8_lossy` reads out of `bytes`.
pub uninterp spec fn lossy_text(bytes: Seq<u8>) -> Seq<char>;

/// The uppercase form of one character, as `char::to_uppercase` gives it.
pub uninterp spec fn uppercase_of(c: char) -> Seq<char>;

/// The lowercase form of a text, as `str::to_lowercase` gives it.
pub uninterp spec fn lowercase_of(text: Seq<char>) -> Seq<char>;

/// `String::from_utf8`: succeeds exactly on valid UTF-8, and the string it
/// returns is the text that the bytes encode.
#[verifier::external_body]
fn std_string_from_utf8(bytes: Vec<u8>) -> (r: Option<String>)
    ensures
        r is Some <==> valid_utf8(bytes@),
        r matches Some(s) ==> s@ == decode_utf8(bytes@),
{
    String::from_utf8(bytes).ok()
}

/// `String::from_utf8_lossy`: the result depends on the bytes alone, and on
/// valid UTF-8 it is the text that the bytes encode. What the replacement of
/// invalid sequences looks like is left unsaid.
#[verifier::external_body]
fn std_string_from_utf8_lossy(bytes: &[u8]) -> (r: String)
    ensures
        r@ == lossy_text(bytes@),
        valid_utf8(bytes@) ==> r@ == decode_utf8(bytes@),
{
    String::from_utf8_lossy(bytes).into_owned()
}

/// `char::to_uppercase`: the result depends on the character alone; an ASCII
/// lowercase letter becomes its capital and any other ASCII character stays.
#[verifier::external_body]
fn std_char_to_uppercase(c: char) -> (r: String)
    ensures
        r@ == uppercase_of(c),
        'a' <= c <= 'z' ==> r@ == seq![(c as u32 - 32) as char],
        (c as u32) < 128 && !('a' <= c <= 'z') ==> r@ == seq![c],
{
    c.to_uppercase().collect()
}

/// An ASCII letter in lower case; any other character as it is.
pub open spec fn ascii_lower(c: char) -> char {
    if 'A' <= c <= 'Z' {
        (c as u32 + 32) as char
    } else {
        c
    }
}

/// `str::to_lowercase`: the result depends on the text alone; a text of ASCII
/// characters keeps its length and has each letter in lower case.
#[verifier::external_body]
fn std_str_to_lowercase(text: &str) -> (r: String)
    ensures
        r@ == lowercase_of(text@),
        text.is_ascii() ==> r@ == text@.map_values(|c: char| ascii_lower(c)),
{
    text.to_lowercase()
}

/// The text in lower case.
pub fn lowercase(text: &str) -> (r: String)
    ensures
        r@ == lowercase_of(text@),
        text.is_ascii() ==> r@ == text@.map_values(|c: char| ascii_lower(c)),
{
    std_str_to_lowercase(text)
}

/// The string that `bytes` encode, or `None` if they are not valid UTF-8.
pub fn utf8_string(bytes: &[u8]) -> (r: Option<String>)
    ensures
        r is Some <==> valid_utf8(bytes@),
        r matches Some(s) ==> s@ == decode_utf8(bytes@),
{
    std_string_from_utf8(to_vec(bytes))
}

/// The string that `bytes` encode, with invalid sequences replaced.
pub fn lossy_string(bytes: &[u8]) -> (r: String)
    ensures
        r@ == lossy_text(bytes@),
        valid_utf8(bytes@) ==> r@ == decode_utf8(bytes@),
{
    std_string_from_utf8_lossy(bytes)
}

/// Whether two strings hold the same text.
pub fn same_text(a: &str, b: &str) -> (r: bool)
    ensures
        r == (a@ == b@),
{
    let r = same(a.as_bytes(), b.as_bytes());
    proof {
        vstd::utf8::encode_utf8_decode_utf8(a@);
        vstd::utf8::encode_utf8_decode_utf8(b@);
    }
    r
}

proof fn lemma_encode_concat(a: Seq<char>, b: Seq<char>)
    ensures
        encode_utf8(a + b) == encode_utf8(a) + encode_utf8(b),
    decreases a.len(),
{
    if a.len() == 0 {
        assert(a + b =~= b);
        assert(encode_utf8(a) + encode_utf8(b) =~= encode_utf8(b));
    } else {
        assert((a + b).drop_first() =~= a.drop_first() + b);
        lemma_encode_concat(a.drop_first(), b);
        assert(encode_utf8(a + b) =~= encode_utf8(a) + encode_utf8(b));
    }
}

/// The text of `a` followed by the text of `b`.
pub fn concat_text(a: &str, b: &str) -> (r: String)
    ensures
        r@ == a@ + b@,
{
    let mut bytes = to_vec(a.as_bytes());
    push_all(&mut bytes, b.as_bytes());
    proof {
        lemma_encode_concat(a@, b@);
        vstd::utf8::encode_utf8_valid_utf8(a@ + b@);
        vstd::utf8::encode_utf8_decode_utf8(a@ + b@);
    }
    match std_string_from_utf8(bytes) {
        Some(s) => s,
        None => String::new(),
    }
}

/// `s` with its first character in uppercase.
pub open spec fn capitalised(s: Seq<char>) -> Seq<char> {
    if s.len() == 0 {
        s
    } else {
        uppercase_of(s[0]) + s.skip(1)
    }
}

/// Returns `s` with its first character in uppercase.
pub fn capitalise_first(s: &str) -> (r: String)
    ensures
        r@ == capitalised(s@),
{
    let n: usize = s.unicode_len();
    if n == 0 {
        return s.to_owned();
    }
    let first = std_char_to_uppercase(s.get_char(0));
    let rest = s.substring_char(1, n);
    assert(rest@ =~= s@.skip(1));
    concat_text(&first, rest)
}

/// Text made of the ASCII bytes `bytes`.
pub open spec fn ascii_text(bytes: Seq<u8>) -> Seq<char> {
    Seq::new(bytes.len(), |i: int| bytes[i] as char)
}

/// The string that consists of the ASCII bytes `bytes`.
pub fn ascii_string(bytes: &[u8]) -> (r: String)
    requires
        forall|i: int| 0 <= i < bytes@.len() ==> bytes@[i] < 128,
    ensures
        r@ == ascii_text(bytes@),
{
    proof {
        let chars = ascii_text(bytes@);
        assert(vstd::utf8::is_ascii_chars(chars));
        vstd::utf8::is_ascii_chars_encode_utf8(chars);
        assert(encode_utf8(chars) =~= bytes@);
        vstd::utf8::encode_utf8_valid_utf8(chars);
        vstd::utf8::encode_utf8_decode_utf8(chars);
    }
    match utf8_string(bytes) {
        Some(s) => s,
        None => String::new(),
    }
}

/// The decimal digits of `n`, most significant first.
pub open spec fn decimal_bytes(n: nat) -> Seq<u8>
    decreases n,
{
    if n < 10 {
        seq![(48 + n) as u8]
    } else {
        decimal_bytes(n / 10).push((48 + n % 10) as u8)
    }
}

/// `n` in decimal notation.
pub open spec fn decimal_text(n: nat) -> Seq<char> {
    ascii_text(decimal_bytes(n))
}

fn push_decimal(out: &mut Vec<u8>, n: u64)
    requires
        forall|i: int| 0 <= i < old(out)@.len() ==> old(out)@[i] < 128,
    ensures
        final(out)@ == old(out)@ + decimal_bytes(n as nat),
        forall|i: int| 0 <= i < final(out)@.len() ==> final(out)@[i] < 128,
    decreases n,
{
    if n >= 10 {
        push_decimal(out, n / 10);
    }
    out.push(48 + (n % 10) as u8);
    assert(out@ =~= old(out)@ + decimal_bytes(n as nat));
}

/// Writes `n` in decimal notation.
pub fn decimal(n: u64) -> (r: String)
    ensures
        r@ == decimal_text(n as nat),
{
    let mut digits: Vec<u8> = Vec::new();
    push_decimal(&mut digits, n);
    assert(digits@ =~= decimal_bytes(n as nat));
    ascii_string(&digits)
}

/// The lowercase hexadecimal digit with value `n`.
pub open spec fn hex_digit(n: u8) -> u8 {
    if n < 10 {
        (48 + n) as u8
    } else {
        (87 + n) as u8
    }
}

/// The hexadecimal digits of `n`, most significant first.
pub open spec fn hex_bytes(n: nat) -> Seq<u8>
    decreases n,
{
    if n < 16 {
        seq![hex_digit(n as u8)]
    } else {
        hex_bytes(n / 16).push(hex_digit((n % 16) as u8))
    }
}

/// `n` in hexadecimal notation with a `0x` prefix and no leading zeros.
pub open spec fn prefixed_hex_text(n: u32) -> Seq<char> {
    "0x"@ + ascii_text(hex_bytes(n as nat))
}

fn push_hex(out: &mut Vec<u8>, n: u32)
    requires
        forall|i: int| 0 <= i < old(out)@.len() ==> old(out)@[i] < 128,
    ensures
        final(out)@ == old(out)@ + hex_bytes(n as nat),
        forall|i: int| 0 <= i < final(out)@.len() ==> final(out)@[i] < 128,
    decreases n,
{
    if n >= 16 {
        push_hex(out, n / 16);
    }
    let digit: u8 = (n % 16) as u8;
    out.push(if digit < 10 {
        48 + digit
    } else {
        87 + digit
    });
    assert(out@ =~= old(out)@ + hex_bytes(n as nat));
}

/// Writes `n` in hexadecimal notation with a `0x` prefix.
pub fn prefixed_hex(n: u32) -> (r: String)
    ensures
        r@ == prefixed_hex_text(n),
{
    let mut digits: Vec<u8> = Vec::new();
    push_hex(&mut digits, n);
    assert(digits@ =~= hex_bytes(n as nat));
    concat_text("0x", ascii_string(&digits).as_str())
}

/// `n` in decimal notation, with a sign where it is negative.
pub open spec fn signed_text(n: int) -> Seq<char> {
    if n < 0 {
        "-"@ + decimal_text((-n) as nat)
    } else {
        decimal_text(n as nat)
    }
}

/// Writes `n` in decimal notation.
pub fn signed(n: i64) -> (r: String)
    ensures
        r@ == signed_text(n as int),
{
    if n < 0 {
        let size: u64 = if n == i64::MIN {
            0x8000_0000_0000_0000
        } else {
            (-n) as u64
        };
        concat_text("-", decimal(size).as_str())
    } else {
        decimal(n as u64)
    }
}

/// The numbers of a list, parted by commas.
pub open spec fn joined_text(items: Seq<i64>) -> Seq<char>
    decreases items.len(),
{
    if items.len() == 0 {
        Seq::empty()
    } else if items.len() == 1 {
        signed_text(items[0] as int)
    } else {
        joined_text(items.drop_last()) + ", "@ + signed_text(items.last() as int)
    }
}

/// A list of numbers in square brackets.
pub open spec fn list_text(items: Seq<i64>) -> Seq<char> {
    "["@ + joined_text(items) + "]"@
}

/// Writes a list of numbers in square brackets.
pub fn list(items: &[i64]) -> (r: String)
    ensures
        r@ == list_text(items@),
{
    let n: usize = items.len();
    let mut out: String = String::new();
    let mut i: usize = 0;
    assert(items@.take(0) =~= Seq::<i64>::empty());
    while i < n
        invariant
            n == items@.len(),
            i <= n,
            out@ == joined_text(items@.take(i as int)),
        decreases n - i,
    {
        let next = signed(items[i]);
        proof {
            assert(items@.take(i + 1).drop_last() =~= items@.take(i as int));
        }
        if i == 0 {
            out = next;
        } else {
            out = concat_text(concat_text(out.as_str(), ", ").as_str(), next.as_str());
        }
        i = i + 1;
    }
    assert(items@.take(n as int) =~= items@);
    concat_text(concat_text("[", out.as_str()).as_str(), "]")
}

/// Bytes as the numbers of a list.
pub open spec fn byte_numbers(bytes: Seq<u8>) -> Seq<i64> {
    Seq::new(bytes.len(), |i: int| bytes[i] as i64)
}

/// Writes a list of bytes in square brackets.
pub fn byte_list(bytes: &[u8]) -> (r: String)
    ensures
        r@ == list_text(byte_numbers(bytes@)),
{
    let mut items: Vec<i64> = Vec::new();
    let n: usize = bytes.len();
    let mut i: usize = 0;
    while i < n
        invariant
            n == bytes@.len(),
            i <= n,
            items@ == byte_numbers(bytes@.take(i as int)),
        decreases n - i,
    {
        items.push(bytes[i] as i64);
        i = i + 1;
        assert(items@ =~= byte_numbers(bytes@.take(i as int)));
    }
    assert(bytes@.take(n as int) =~= bytes@);
    list(&items)
}

/// Signed numbers as the numbers of a list.
pub open spec fn wide_numbers(values: Seq<i32>) -> Seq<i64> {
    Seq::new(values.len(), |i: int| values[i] as i64)
}

/// Writes a list of signed numbers in square brackets.
pub fn number_list(values: &[i32]) -> (r: String)
    ensures
        r@ == list_text(wide_numbers(values@)),
{
    let mut items: Vec<i64> = Vec::new();
    let n: usize = values.len();
    let mut i: usize = 0;
    while i < n
        invariant
            n == values@.len(),
            i <= n,
            items@ == wide_numbers(values@.take(i as int)),
        decreases n - i,
    {
        items.push(values[i] as i64);
        i = i + 1;
        assert(items@ =~= wide_numbers(values@.take(i as int)));
    }
    assert(values@.take(n as int) =~= values@);
    list(&items)
}

/// A number that may be missing.
pub open spec fn option_text(o: Option<int>) -> Seq<char> {
    match o {
        Some(n) => "Some("@ + signed_text(n) + ")"@,
        None => "None"@,
    }
}

/// Writes a number that may be missing.
pub fn option(o: Option<i64>) -> (r: String)
    ensures
        r@ == option_text(
            match o {
                Some(n) => Some(n as int),
                None => None,
            },
        ),
{
    match o {
        Some(n) => concat_text(concat_text("Some(", signed(n).as_str()).as_str(), ")"),
        None => "None".to_owned(),
    }
}

/// Whether `needle` stands in `text` at position `i`.
pub open spec fn stands_at(text: Seq<char>, needle: Seq<char>, i: int) -> bool {
    0 <= i && i + needle.len() <= text.len() && text.subrange(i, i + needle.len()) == needle
}

/// Whether `needle` stands anywhere in `text`.
pub open spec fn occurs(text: Seq<char>, needle: Seq<char>) -> bool {
    exists|i: int| stands_at(text, needle, i)
}

/// Tells whether `needle` stands anywhere in `text`.
pub fn contains_text(text: &str, needle: &str) -> (r: bool)
    ensures
        r == occurs(text@, needle@),
{
    let n: usize = text.unicode_len();
    let m: usize = needle.unicode_len();
    let mut i: usize = 0;
    while i <= n && m <= n - i
        invariant
            n == text@.len(),
            m == needle@.len(),
            i <= n + 1,
            forall|k: int| 0 <= k < i ==> !#[trigger] stands_at(text@, needle@, k),
        decreases n + 1 - i,
    {
        let part = text.substring_char(i, i + m);
        if same_text(part, needle) {
            assert(stands_at(text@, needle@, i as int));
            return true;
        }
        if i == n {
            assert(!stands_at(text@, needle@, n as int));
            assert forall|k: int| !stands_at(text@, needle@, k) by {}
            return false;
        }
        i = i + 1;
    }
    assert forall|k: int| !stands_at(text@, needle@, k) by {}
    false
}

/// Whether `c` is white space: it has the Unicode property of that name.
pub open spec fn is_space(c: char) -> bool {
    let n = c as u32;
    ||| 9 <= n <= 13
    ||| n == 0x20
    ||| n == 0x85
    ||| n == 0xa0
    ||| n == 0x1680
    ||| 0x2000 <= n <= 0x200a
    ||| n == 0x2028
    ||| n == 0x2029
    ||| n == 0x202f
    ||| n == 0x205f
    ||| n == 0x3000
}

fn space(c: char) -> (r: bool)
    ensures
        r == is_space(c),
{
    let n: u32 = c as u32;
    (9 <= n && n <= 13) || n == 0x20 || n == 0x85 || n == 0xa0 || n == 0x1680 || (0x2000 <= n && n
        <= 0x200a) || n == 0x2028 || n == 0x2029 || n == 0x202f || n == 0x205f || n == 0x3000
}

/// `s` without the white space at its end.
pub open spec fn trimmed(s: Seq<char>) -> Seq<char>
    decreases s.len(),
{
    if s.len() > 0 && is_space(s.last()) {
        trimmed(s.drop_last())
    } else {
        s
    }
}

/// Returns `s` without the white space at its end.
pub fn trim_end(s: &str) -> (r: String)
    ensures
        r@ == trimmed(s@),
{
    let mut n: usize = s.unicode_len();
    assert(s@.take(n as int) =~= s@);
    while n > 0 && space(s.get_char(n - 1))
        invariant
            n <= s@.len(),
            trimmed(s@.take(n as int)) == trimmed(s@),
        ensures
            n <= s@.len(),
            trimmed(s@.take(n as int)) == trimmed(s@),
            n > 0 ==> !is_space(s@[n - 1]),
        decreases n,
    {
        assert(s@.take(n as int).drop_last() =~= s@.take(n - 1));
        n = n - 1;
    }
    let r = s.substring_char(0, n);
    assert(r@ =~= s@.take(n as int));
    r.to_owned()
}

/// `s` without the NUL characters at its end.
pub open spec fn without_nuls(s: Seq<char>) -> Seq<char>
    decreases s.len(),
{
    if s.len() > 0 && s.last() as u32 == 0 {
        without_nuls(s.drop_last())
    } else {
        s
    }
}

/// Returns `s` without the NUL characters at its end.
pub fn trim_nuls(s: &str) -> (r: String)
    ensures
        r@ == without_nuls(s@),
{
    let mut n: usize = s.unicode_len();
    assert(s@.take(n as int) =~= s@);
    while n > 0 && s.get_char(n - 1) as u32 == 0
        invariant
            n <= s@.len(),
            without_nuls(s@.take(n as int)) == without_nuls(s@),
        ensures
            n <= s@.len(),
            without_nuls(s@.take(n as int)) == without_nuls(s@),
            n > 0 ==> s@[n - 1] as u32 != 0,
        decreases n,
    {
        assert(s@.take(n as int).drop_last() =~= s@.take(n - 1));
        n = n - 1;
    }
    let r = s.substring_char(0, n);
    assert(r@ =~= s@.take(n as int));
    r.to_owned()
}

/// The number that decimal digits stand for, the most significant first.
pub open spec fn digits_value(digits: Seq<char>) -> int
    decreases digits.len(),
{
    if digits.len() == 0 {
        0
    } else {
        10 * digits_value(digits.drop_last()) + (digits.last() as u32 - '0' as u32)
    }
}

/// A number is written in decimal digits that stand for it, without a zero in
/// front of others.
#[verifier::spinoff_prover]
pub proof fn lemma_decimal_reads_back(n: nat)
    ensures
        digits_value(decimal_text(n)) == n,
        decimal_text(n).len() > 0,
        forall|i: int| 0 <= i < decimal_text(n).len() ==> '0' <= #[trigger] decimal_text(n)[i] <= '9',
        n > 0 ==> decimal_text(n)[0] != '0',
    decreases n,
{
    let t = decimal_text(n);
    if n < 10 {
        assert(t.drop_last() =~= Seq::<char>::empty());
        assert(digits_value(t.drop_last()) == 0);
    } else {
        lemma_decimal_reads_back(n / 10);
        assert(t.drop_last() =~= decimal_text(n / 10));
        assert(t[0] == t.drop_last()[0]);
        assert forall|i: int| 0 <= i < t.len() implies '0' <= #[trigger] t[i] <= '9' by {
            if i < t.len() - 1 {
                assert(t[i] == decimal_text(n / 10)[i]);
            }
        }
    }
}

} // verus!
