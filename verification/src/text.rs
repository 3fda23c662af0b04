//! Text: decimal and hexadecimal rendering, and what the rules need of
//! strings.
use vstd::prelude::*;
use vstd::string::*;
use vstd::utf8::*;

verus! {

/// The character for one decimal or hexadecimal digit, in lower case.
pub open spec fn digit_char(d: int) -> char {
    if 0 <= d < 10 {
        (48 + d) as char
    } else {
        (87 + d) as char
    }
}

/// `n` in decimal, without leading zeros.
pub open spec fn dec(n: nat) -> Seq<char>
    decreases n,
{
    if n < 10 {
        seq![digit_char(n as int)]
    } else {
        dec(n / 10).push(digit_char((n % 10) as int))
    }
}

/// `bytes` in lower-case hexadecimal, two digits to a byte.
pub open spec fn hex_text(bytes: Seq<u8>) -> Seq<char> {
    Seq::new(
        2 * bytes.len(),
        |i: int| digit_char(if i % 2 == 0 { bytes[i / 2] as int / 16 } else { bytes[i / 2] as int % 16 }),
    )
}

/// Whether a byte is a hexadecimal digit of either case.
pub open spec fn is_hex_digit(b: u8) -> bool {
    48 <= b <= 57 || 65 <= b <= 70 || 97 <= b <= 102
}

/// What a hexadecimal digit is worth.
pub open spec fn hex_value(b: u8) -> int {
    if 48 <= b <= 57 {
        b - 48
    } else if 65 <= b <= 70 {
        b - 55
    } else {
        b - 87
    }
}

/// The bytes written by pairs of hexadecimal digits.
pub open spec fn unhex(digits: Seq<u8>) -> Seq<u8> {
    Seq::new(
        digits.len() / 2,
        |i: int| (16 * hex_value(digits[2 * i]) + hex_value(digits[2 * i + 1])) as u8,
    )
}

/// Why a text is not hexadecimal.
#[derive(Debug, Clone, Copy, PartialEq, Eq, Structural)]
pub enum HexError {
    /// It holds an odd number of bytes.
    OddLength,
    /// The byte at `index` is no hexadecimal digit.
    InvalidHexCharacter { c: char, index: usize },
    /// It is not of the length asked for.
    InvalidStringLength,
}

/// What `hex::decode` makes of a text, byte for byte.
pub open spec fn decoded_hex(text: Seq<u8>, r: Result<Seq<u8>, HexError>) -> bool {
    if text.len() % 2 != 0 {
        r == Result::<Seq<u8>, HexError>::Err(HexError::OddLength)
    } else {
        match r {
            Ok(bytes) => (forall|i: int| 0 <= i < text.len() ==> is_hex_digit(#[trigger] text[i])) && bytes == unhex(
                text,
            ),
            Err(HexError::InvalidHexCharacter { c, index }) => index < text.len() && !is_hex_digit(text[index as int])
                && c as int == text[index as int] && (forall|i: int|
                0 <= i < index ==> is_hex_digit(#[trigger] text[i])),
            Err(_) => false,
        }
    }
}

/// A result with its bytes by their view.
pub open spec fn bytes_view(r: Result<Vec<u8>, HexError>) -> Result<Seq<u8>, HexError> {
    match r {
        Ok(bytes) => Ok(bytes@),
        Err(e) => Err(e),
    }
}

/// Calls `hex::encode`: two lower-case digits for each byte, the high half
/// first.
#[verifier::external_body]
pub(crate) fn hex_encode(bytes: &[u8]) -> (text: String)
    ensures
        text@ == hex_text(bytes@),
{
    hex::encode(bytes)
}

/// Calls `hex::decode`: pairs of digits of either case become bytes. An odd
/// number of bytes is refused first, then the first byte that is no digit.
#[verifier::external_body]
pub(crate) fn hex_decode(text: &str) -> (r: Result<Vec<u8>, HexError>)
    ensures
        decoded_hex(text.spec_bytes(), bytes_view(r)),
{
    hex::decode(text).map_err(|e| match e {
        hex::FromHexError::InvalidHexCharacter { c, index } => HexError::InvalidHexCharacter { c, index },
        hex::FromHexError::OddLength => HexError::OddLength,
        hex::FromHexError::InvalidStringLength => HexError::InvalidStringLength,
    })
}

/// The text of one decimal digit.
fn digit_text(d: u64) -> (text: &'static str)
    requires
        d < 10,
    ensures
        text@ == seq![digit_char(d as int)],
{
    proof {
        reveal_strlit("0");
        reveal_strlit("1");
        reveal_strlit("2");
        reveal_strlit("3");
        reveal_strlit("4");
        reveal_strlit("5");
        reveal_strlit("6");
        reveal_strlit("7");
        reveal_strlit("8");
        reveal_strlit("9");
    }
    let text = match d {
        0 => "0",
        1 => "1",
        2 => "2",
        3 => "3",
        4 => "4",
        5 => "5",
        6 => "6",
        7 => "7",
        8 => "8",
        _ => "9",
    };
    assert(text@ =~= seq![digit_char(d as int)]);
    text
}

/// Renders `n` in decimal.
pub fn decimal(n: u64) -> (text: String)
    ensures
        text@ == dec(n as nat),
    decreases n,
{
    let mut text = if n < 10 {
        String::new()
    } else {
        decimal(n / 10)
    };
    text.append(digit_text(n % 10));
    assert(text@ =~= dec(n as nat));
    text
}

/// Two texts, one after the other.
pub fn joined(a: &str, b: &str) -> (text: String)
    ensures
        text@ == a@ + b@,
{
    let mut text = String::new();
    text.append(a);
    text.append(b);
    assert(text@ =~= a@ + b@);
    text
}

/// Texts that run up to the first `c` are told apart from what follows it.
pub proof fn lemma_split_at(a: Seq<char>, after_a: Seq<char>, b: Seq<char>, after_b: Seq<char>, c: char)
    requires
        !a.contains(c),
        !b.contains(c),
        a + seq![c] + after_a == b + seq![c] + after_b,
    ensures
        a == b,
        after_a == after_b,
{
    let x = a + seq![c] + after_a;
    let y = b + seq![c] + after_b;
    assert(x[a.len() as int] == c);
    assert(y[b.len() as int] == c);
    if a.len() < b.len() {
        assert(y[a.len() as int] == b[a.len() as int]);
        assert(b.contains(c));
    }
    if b.len() < a.len() {
        assert(x[b.len() as int] == a[b.len() as int]);
        assert(a.contains(c));
    }
    assert(a =~= x.take(a.len() as int));
    assert(b =~= y.take(b.len() as int));
    assert(after_a =~= x.skip(a.len() as int + 1));
    assert(after_b =~= y.skip(b.len() as int + 1));
}

proof fn lemma_digit_is_injective(d: int, e: int)
    requires
        0 <= d < 16,
        0 <= e < 16,
        digit_char(d) == digit_char(e),
    ensures
        d == e,
{
    assert(digit_char(d) as int == if d < 10 {
        48 + d
    } else {
        87 + d
    });
    assert(digit_char(e) as int == if e < 10 {
        48 + e
    } else {
        87 + e
    });
}

/// Decimal text tells numbers apart.
pub proof fn lemma_dec_is_injective(m: nat, n: nat)
    requires
        dec(m) == dec(n),
    ensures
        m == n,
    decreases m,
{
    lemma_dec_is_not_empty(m / 10);
    lemma_dec_is_not_empty(n / 10);
    if m < 10 {
        if n < 10 {
            assert(dec(m)[0] == dec(n)[0]);
            assert(dec(m)[0] == digit_char(m as int));
            assert(dec(n)[0] == digit_char(n as int));
            lemma_digit_is_injective(m as int, n as int);
        }
    } else if n < 10 {
        assert(dec(n).len() == 1);
    } else {
        assert(dec(m / 10) =~= dec(m).drop_last());
        assert(dec(n / 10) =~= dec(n).drop_last());
        lemma_dec_is_injective(m / 10, n / 10);
        assert(dec(m).last() == dec(n).last());
        assert(dec(m).last() == digit_char((m % 10) as int));
        assert(dec(n).last() == digit_char((n % 10) as int));
        lemma_digit_is_injective((m % 10) as int, (n % 10) as int);
    }
}

proof fn lemma_dec_is_not_empty(n: nat)
    ensures
        dec(n).len() >= 1,
    decreases n,
{
    if n >= 10 {
        lemma_dec_is_not_empty(n / 10);
    }
}

/// Hexadecimal text tells bytes apart.
pub proof fn lemma_hex_is_injective(a: Seq<u8>, b: Seq<u8>)
    requires
        hex_text(a) == hex_text(b),
    ensures
        a == b,
{
    assert(hex_text(a).len() == 2 * a.len());
    assert(hex_text(b).len() == 2 * b.len());
    assert forall|i: int| 0 <= i < a.len() implies a[i] == b[i] by {
        assert(hex_text(a)[2 * i] == hex_text(b)[2 * i]);
        assert(hex_text(a)[2 * i + 1] == hex_text(b)[2 * i + 1]);
        assert((2 * i) / 2 == i && (2 * i + 1) / 2 == i);
        assert((2 * i) % 2 == 0 && (2 * i + 1) % 2 == 1);
        assert(hex_text(a)[2 * i] == digit_char(a[i] as int / 16));
        assert(hex_text(b)[2 * i] == digit_char(b[i] as int / 16));
        assert(hex_text(a)[2 * i + 1] == digit_char(a[i] as int % 16));
        assert(hex_text(b)[2 * i + 1] == digit_char(b[i] as int % 16));
        lemma_digit_is_injective(a[i] as int / 16, b[i] as int / 16);
        lemma_digit_is_injective(a[i] as int % 16, b[i] as int % 16);
    }
    assert(a =~= b);
}

/// Hexadecimal text is made of digits.
pub proof fn lemma_hex_has_no(bytes: Seq<u8>, c: char)
    requires
        !(48 <= c as int <= 57) && !(97 <= c as int <= 102),
    ensures
        !hex_text(bytes).contains(c),
{
    assert forall|i: int| 0 <= i < hex_text(bytes).len() implies hex_text(bytes)[i] != c by {
        let d = if i % 2 == 0 {
            bytes[i / 2] as int / 16
        } else {
            bytes[i / 2] as int % 16
        };
        assert(0 <= d < 16);
    }
}

/// Whether a character is white space, as Unicode has it.
pub open spec fn white_space(c: char) -> bool {
    let n = c as int;
    9 <= n <= 13 || n == 0x20 || n == 0x85 || n == 0xA0 || n == 0x1680 || 0x2000 <= n <= 0x200A || n == 0x2028 || n
        == 0x2029 || n == 0x202F || n == 0x205F || n == 0x3000
}

/// A text without the white space it starts with.
pub open spec fn trimmed_start(text: Seq<char>) -> Seq<char>
    decreases text.len(),
{
    if text.len() > 0 && white_space(text[0]) {
        trimmed_start(text.skip(1))
    } else {
        text
    }
}

/// A text without the white space it ends with.
pub open spec fn trimmed_end(text: Seq<char>) -> Seq<char>
    decreases text.len(),
{
    if text.len() > 0 && white_space(text.last()) {
        trimmed_end(text.drop_last())
    } else {
        text
    }
}

/// A text without the white space it starts and ends with.
pub open spec fn trimmed(text: Seq<char>) -> Seq<char> {
    trimmed_end(trimmed_start(text))
}

/// The characters of a text.
pub fn chars_of(text: &str) -> (chars: Vec<char>)
    ensures
        chars@ == text@,
{
    let mut chars: Vec<char> = Vec::new();
    for c in it: text.chars()
        invariant
            it.seq() == text@,
            chars@ == text@.take(it.index()),
    {
        chars.push(c);
        assert(text@.take(it.index() + 1) =~= text@.take(it.index()).push(c));
    }
    assert(text@.take(text@.len() as int) =~= text@);
    chars
}

/// Whether a character is white space, as Unicode has it.
pub fn is_white_space(c: char) -> (r: bool)
    ensures
        r == white_space(c),
{
    let n: u32 = c as u32;
    (9 <= n && n <= 13) || n == 0x20 || n == 0x85 || n == 0xA0 || n == 0x1680 || (0x2000 <= n && n <= 0x200A) || n
        == 0x2028 || n == 0x2029 || n == 0x202F || n == 0x205F || n == 0x3000
}

/// The text without the white space that it starts and ends with.
pub(crate) fn trim(text: &str) -> (t: &str)
    ensures
        t@ == trimmed(text@),
{
    let chars = chars_of(text);
    let mut from: usize = 0;
    assert(text@.skip(0) =~= text@);
    while from < chars.len() && is_white_space(chars[from])
        invariant
            from <= chars.len(),
            chars@ == text@,
            trimmed_start(text@) == trimmed_start(text@.skip(from as int)),
        decreases chars.len() - from,
    {
        assert(text@.skip(from as int).skip(1) =~= text@.skip(from + 1));
        from += 1;
    }
    let ghost rest = text@.skip(from as int);
    assert(trimmed_start(text@) == rest);
    let mut to: usize = chars.len();
    assert(text@.subrange(from as int, to as int) =~= rest);
    while from < to && is_white_space(chars[to - 1])
        invariant
            from <= to <= chars.len(),
            chars@ == text@,
            trimmed_end(rest) == trimmed_end(text@.subrange(from as int, to as int)),
        decreases to,
    {
        assert(text@.subrange(from as int, to as int).drop_last() =~= text@.subrange(from as int, to - 1));
        to -= 1;
    }
    text.substring_char(from, to)
}

/// A text in lower case.
pub uninterp spec fn lowercase(text: Seq<char>) -> Seq<char>;

/// Calls `str::to_lowercase`. The result depends on the text alone. Nothing is
/// claimed of lower-casing twice, nor of white space in the result.
#[verifier::external_body]
pub(crate) fn to_lowercase(text: &str) -> (t: String)
    ensures
        t@ == lowercase(text@),
{
    text.to_lowercase()
}

/// A text in quotation marks, as Rust writes it for debugging.
pub uninterp spec fn quoted(text: Seq<char>) -> Seq<char>;

/// Formats a text by its `Debug`. The result depends on the text alone.
#[verifier::external_body]
pub(crate) fn quote(text: &str) -> (t: String)
    ensures
        t@ == quoted(text@),
{
    format!("{text:?}")
}

/// Whether `part` occurs in `text`.
pub open spec fn has_part(text: Seq<char>, part: Seq<char>) -> bool {
    exists|i: int| 0 <= i && i + part.len() <= text.len() && #[trigger] text.subrange(i, i + part.len()) == part
}

/// Whether `part` is what `text` holds from `at` on.
fn is_part_at(text: &Vec<char>, part: &Vec<char>, at: usize) -> (r: bool)
    requires
        at + part.len() <= text.len(),
    ensures
        r == (text@.subrange(at as int, at + part.len()) == part@),
{
    let mut i: usize = 0;
    while i < part.len()
        invariant
            i <= part.len(),
            at + part.len() <= text.len(),
            forall|j: int| 0 <= j < i ==> text@[at + j] == #[trigger] part@[j],
        decreases part.len() - i,
    {
        if text[at + i] != part[i] {
            assert(text@.subrange(at as int, at + part.len())[i as int] != part@[i as int]);
            return false;
        }
        i += 1;
    }
    assert(text@.subrange(at as int, at + part.len()) =~= part@);
    true
}

/// Whether `part` occurs in `text`.
pub(crate) fn contains(text: &str, part: &str) -> (r: bool)
    ensures
        r == has_part(text@, part@),
{
    let all = chars_of(text);
    let some = chars_of(part);
    if some.len() > all.len() {
        return false;
    }
    let last: usize = all.len() - some.len();
    let mut at: usize = 0;
    while at < last
        invariant
            at <= last,
            last + some.len() == all.len(),
            all@ == text@,
            some@ == part@,
            forall|i: int| 0 <= i < at ==> #[trigger] text@.subrange(i, i + part@.len()) != part@,
        decreases last - at,
    {
        if is_part_at(&all, &some, at) {
            return true;
        }
        at += 1;
    }
    is_part_at(&all, &some, last)
}

/// A character in quotation marks, as Rust writes it for debugging.
pub uninterp spec fn quoted_char(c: char) -> Seq<char>;

/// Formats a character by its `Debug`. The result depends on the character
/// alone.
#[verifier::external_body]
fn quote_char(c: char) -> (t: String)
    ensures
        t@ == quoted_char(c),
{
    format!("{c:?}")
}

impl HexError {
    /// What is said of the text.
    pub open spec fn text(self) -> Seq<char> {
        match self {
            HexError::OddLength => "Odd number of digits"@,
            HexError::InvalidHexCharacter { c, index } => "Invalid character "@ + quoted_char(c) + " at position "@ + dec(
                index as nat,
            ),
            HexError::InvalidStringLength => "Invalid string length"@,
        }
    }

    /// What is said of the text.
    pub fn message(&self) -> (text: String)
        ensures
            text@ == self.text(),
    {
        match self {
            HexError::OddLength => "Odd number of digits".to_owned(),
            HexError::InvalidHexCharacter { c, index } => {
                let mut text = joined("Invalid character ", quote_char(*c).as_str());
                text.append(" at position ");
                text.append(decimal(*index as u64).as_str());
                text
            },
            HexError::InvalidStringLength => "Invalid string length".to_owned(),
        }
    }
}

/// Whether two texts are the same.
pub fn same(a: &str, b: &str) -> (r: bool)
    ensures
        r == (a@ == b@),
{
    a.to_owned() == b.to_owned()
}

}
