//! Decimal numbers, gRPC endpoints and metadata text.

use vstd::prelude::*;

verus! {

/// The decimal digit `d`.
pub open spec fn digit(d: nat) -> char {
    (0x30 + d) as char
}

/// `n` written in decimal, without leading zeros.
pub open spec fn decimal(n: nat) -> Seq<char>
    decreases n,
{
    if n < 10 {
        seq![digit(n)]
    } else {
        decimal(n / 10).push(digit(n % 10))
    }
}

/// The bytes of a text of ASCII characters.
pub open spec fn ascii_bytes(text: Seq<char>) -> Seq<u8> {
    text.map_values(|c: char| c as u8)
}

pub open spec fn is_digit(byte: u8) -> bool {
    0x30 <= byte <= 0x39
}

/// True if every byte of `text` is a decimal digit.
pub open spec fn all_digits(text: Seq<u8>) -> bool {
    forall|i: int| 0 <= i < text.len() ==> is_digit(#[trigger] text[i])
}

/// The number that the digits of `text` denote.
pub open spec fn decimal_value(text: Seq<u8>) -> nat
    decreases text.len(),
{
    if text.len() == 0 {
        0
    } else {
        decimal_value(text.drop_last()) * 10 + (text.last() - 0x30) as nat
    }
}

/// `text` without one leading plus sign.
pub open spec fn unsigned_part(text: Seq<u8>) -> Seq<u8> {
    if text.len() > 0 && text[0] == 0x2b {
        text.drop_first()
    } else {
        text
    }
}

/// The 64-bit number that `text` denotes: at least one decimal digit, after an optional plus
/// sign, and a value that fits.
pub open spec fn parsed_u64(text: Seq<u8>) -> Option<u64> {
    let digits = unsigned_part(text);
    if digits.len() > 0 && all_digits(digits) && decimal_value(digits) <= u64::MAX {
        Some(decimal_value(digits) as u64)
    } else {
        None
    }
}

fn digit_text(d: u64) -> (text: &'static str)
    requires
        d < 10,
    ensures
        text@ == seq![digit(d as nat)],
{
    proof {
        reveal_strlit("0");
        reveal_strlit("1");
        reveal_strlit("2");
        reveal_strlit("3");
        reveal_strlit("4");
        reveal_strlit("5");
        reveal_strlit("6");
        reveal_strlit("7");
        reveal_strlit("8");
        reveal_strlit("9");
    }
    let text: &'static str = match d {
        0 => "0",
        1 => "1",
        2 => "2",
        3 => "3",
        4 => "4",
        5 => "5",
        6 => "6",
        7 => "7",
        8 => "8",
        _ => "9",
    };
    assert(text@ =~= seq![digit(d as nat)]);
    text
}

/// Writes `n` in decimal.
pub fn to_decimal(n: u64) -> (text: String)
    ensures
        text@ == decimal(n as nat),
    decreases n,
{
    if n < 10 {
        digit_text(n).to_string()
    } else {
        let mut text: String = to_decimal(n / 10);
        text.append(digit_text(n % 10));
        assert(text@ =~= decimal(n as nat));
        text
    }
}

/// Every prefix of a digit string denotes at most what the whole string denotes.
proof fn lemma_value_of_prefix(text: Seq<u8>, n: int)
    requires
        0 <= n <= text.len(),
    ensures
        decimal_value(text.take(n)) <= decimal_value(text),
    decreases text.len() - n,
{
    if n == text.len() {
        assert(text.take(n) =~= text);
    } else {
        lemma_value_of_prefix(text, n + 1);
        assert(text.take(n + 1).drop_last() =~= text.take(n));
    }
}

/// Reads a 64-bit number in decimal.
pub fn parse_u64(text: &Vec<u8>) -> (number: Option<u64>)
    ensures
        number == parsed_u64(text@),
{
    let start: usize = if text.len() > 0 && text[0] == 0x2b { 1 } else { 0 };
    let ghost digits = unsigned_part(text@);
    assert(digits =~= text@.skip(start as int));
    if start == text.len() {
        return None;
    }
    let mut value: u64 = 0;
    let mut i: usize = start;
    assert(digits.take(0) =~= Seq::<u8>::empty());
    while i < text.len()
        invariant
            start <= i <= text.len(),
            start < text.len(),
            digits == text@.skip(start as int),
            digits == unsigned_part(text@),
            forall|j: int| 0 <= j < i - start ==> is_digit(#[trigger] digits[j]),
            value == decimal_value(digits.take(i - start)),
        decreases text.len() - i,
    {
        let byte: u8 = text[i];
        assert(digits[i - start] == byte);
        if byte < 0x30 || byte > 0x39 {
            return None;
        }
        proof {
            assert(digits.take(i - start + 1).drop_last() =~= digits.take(i - start));
            lemma_value_of_prefix(digits, i - start + 1);
        }
        let add: u64 = (byte - 0x30) as u64;
        if value > (u64::MAX - add) / 10 {
            return None;
        }
        value = value * 10 + add;
        i = i + 1;
    }
    assert(digits.take(digits.len() as int) =~= digits);
    Some(value)
}

pub(crate) proof fn lemma_decimal_bytes(n: nat)
    ensures
        all_digits(ascii_bytes(decimal(n))),
        decimal_value(ascii_bytes(decimal(n))) == n,
        ascii_bytes(decimal(n)).len() > 0,
    decreases n,
{
    let bytes = ascii_bytes(decimal(n));
    if n < 10 {
        assert(bytes.drop_last() =~= Seq::<u8>::empty());
        assert(decimal_value(bytes.drop_last()) == 0);
    } else {
        lemma_decimal_bytes(n / 10);
        assert(bytes.drop_last() =~= ascii_bytes(decimal(n / 10)));
        assert(bytes.last() == digit(n % 10) as u8);
        assert forall|i: int| 0 <= i < bytes.len() implies is_digit(#[trigger] bytes[i]) by {
            if i < bytes.len() - 1 {
                assert(bytes.drop_last()[i] == bytes[i]);
            }
        }
    }
}

/// Reading back a written number gives the number.
pub proof fn law_decimal_round_trip(n: u64)
    ensures
        parsed_u64(ascii_bytes(decimal(n as nat))) == Some(n),
{
    lemma_decimal_bytes(n as nat);
    let bytes = ascii_bytes(decimal(n as nat));
    assert(is_digit(bytes[0]));
}

/// The scheme that an endpoint gets when it names none.
pub open spec fn http_scheme() -> Seq<char> {
    "http://"@
}

/// True if `address` names the scheme `http` or `https`.
pub open spec fn names_scheme(address: Seq<char>) -> bool {
    "http://"@.is_prefix_of(address) || "https://"@.is_prefix_of(address)
}

/// The URL of the gRPC server at `address`.
pub open spec fn endpoint_of(address: Seq<char>) -> Seq<char> {
    if names_scheme(address) {
        address
    } else {
        http_scheme() + address
    }
}

/// True if `text` begins with `prefix`.
pub fn starts_with(text: &str, prefix: &str) -> (yes: bool)
    ensures
        yes == prefix@.is_prefix_of(text@),
{
    let n: usize = prefix.unicode_len();
    if text.unicode_len() < n {
        return false;
    }
    let mut i: usize = 0;
    while i < n
        invariant
            i <= n,
            n == prefix@.len(),
            n <= text@.len(),
            forall|j: int| 0 <= j < i ==> prefix@[j] == text@[j],
        decreases n - i,
    {
        if prefix.get_char(i) != text.get_char(i) {
            assert(text@.subrange(0, n as int)[i as int] == text@[i as int]);
            return false;
        }
        i = i + 1;
    }
    assert(prefix@ =~= text@.subrange(0, n as int));
    true
}

/// The URL to connect to for `address`: `"127.0.0.1:50051"` becomes
/// `"http://127.0.0.1:50051"`, and an address that names its scheme is used as it is.
pub fn endpoint(address: &str) -> (url: String)
    ensures
        url@ == endpoint_of(address@),
{
    if starts_with(address, "http://") || starts_with(address, "https://") {
        address.to_string()
    } else {
        let mut url: String = "http://".to_string();
        url.append(address);
        url
    }
}

/// The URL of a URL is the URL itself, and it always names its scheme.
pub proof fn law_endpoint_is_stable(address: Seq<char>)
    ensures
        names_scheme(endpoint_of(address)),
        endpoint_of(endpoint_of(address)) == endpoint_of(address),
{
    if !names_scheme(address) {
        let url = endpoint_of(address);
        assert(url.subrange(0, http_scheme().len() as int) =~= http_scheme());
    }
}

/// True if `byte` may stand in a textual metadata value: visible ASCII, space or tab.
pub open spec fn is_metadata_byte(byte: u8) -> bool {
    32 <= byte < 127 || byte == 9
}

/// True if every byte of `value` may stand in a textual metadata value.
pub open spec fn is_metadata_text(value: Seq<u8>) -> bool {
    forall|i: int| 0 <= i < value.len() ==> is_metadata_byte(#[trigger] value[i])
}

/// Tests that a metadata value is text.
pub fn check_metadata_text(value: &Vec<u8>) -> (yes: bool)
    ensures
        yes == is_metadata_text(value@),
{
    let mut i: usize = 0;
    while i < value.len()
        invariant
            i <= value.len(),
            forall|j: int| 0 <= j < i ==> is_metadata_byte(#[trigger] value@[j]),
        decreases value.len() - i,
    {
        let byte: u8 = value[i];
        if !(32 <= byte && byte < 127 || byte == 9) {
            assert(!is_metadata_byte(value@[i as int]));
            return false;
        }
        i = i + 1;
    }
    true
}

/// Reading goes digit by digit. A single digit is its value; a further digit multiplies by ten and
/// adds its value, as long as the number fits; what does not fit does not come to fit again.
pub proof fn law_reading_goes_digit_by_digit(text: Seq<u8>, byte: u8)
    requires
        text.len() > 0,
        forall|i: int| 0 <= i < text.len() ==> 0x30 <= #[trigger] text[i] <= 0x39,
        0x30 <= byte <= 0x39,
    ensures
        parsed_u64(seq![byte]) == Some((byte - 0x30) as u64),
        parsed_u64(text.push(byte)) == match parsed_u64(text) {
            Some(n) => if n * 10 + (byte - 0x30) <= u64::MAX {
                Some((n * 10 + (byte - 0x30)) as u64)
            } else {
                None
            },
            None => None,
        },
{
    let one = seq![byte];
    assert(one.drop_last() =~= Seq::<u8>::empty());
    assert(decimal_value(one.drop_last()) == 0);
    assert(is_digit(one[0]));
    assert(is_digit(text[0]));
    let more = text.push(byte);
    assert(more.drop_last() =~= text);
    assert(all_digits(text)) by {
        assert forall|i: int| 0 <= i < text.len() implies is_digit(#[trigger] text[i]) by {}
    }
    assert(all_digits(more)) by {
        assert forall|i: int| 0 <= i < more.len() implies is_digit(#[trigger] more[i]) by {
            if i < text.len() {
                assert(more[i] == text[i]);
            }
        }
    }
    assert(more[0] == text[0]);
}

/// One plus sign in front makes no difference to digits. Nothing else may stand among them, and
/// there must be at least one.
pub proof fn law_reading_takes_digits_only(text: Seq<u8>, i: int)
    ensures
        parsed_u64(Seq::<u8>::empty()) is None,
        text.len() > 0 && text[0] != 0x2b ==> parsed_u64(seq![0x2bu8] + text) == parsed_u64(text),
        text.len() == 0 ==> parsed_u64(seq![0x2bu8] + text) is None,
        0 <= i < text.len() && !(0x30 <= text[i] <= 0x39) && !(i == 0 && text[i] == 0x2b)
            ==> parsed_u64(text) is None,
{
    let signed = seq![0x2bu8] + text;
    assert(signed.drop_first() =~= text);
    if 0 <= i < text.len() && !(0x30 <= text[i] <= 0x39) && !(i == 0 && text[i] == 0x2b) {
        let digits = unsigned_part(text);
        let at = if text[0] == 0x2b {
            i - 1
        } else {
            i
        };
        assert(digits[at] == text[i]);
        assert(!is_digit(digits[at]));
    }
}

/// Writing goes digit by digit, without leading zeros: a number below ten is one digit, and each
/// further digit follows those of the number without it.
pub proof fn law_writing_goes_digit_by_digit(n: nat, d: nat)
    requires
        d < 10,
    ensures
        decimal(d) == seq![(0x30 + d) as char],
        n > 0 ==> decimal(n * 10 + d) == decimal(n).push((0x30 + d) as char),
{
    if n > 0 {
        assert((n * 10 + d) / 10 == n);
        assert((n * 10 + d) % 10 == d);
    }
}

/// An address that begins with one of the two schemes is used as it is; any other gets `http://`
/// in front, and nothing is lost of it.
pub proof fn law_an_endpoint_keeps_its_address(address: Seq<char>, rest: Seq<char>)
    ensures
        address == "http://"@ + rest ==> endpoint_of(address) == address,
        address == "https://"@ + rest ==> endpoint_of(address) == address,
        endpoint_of(address) == address || endpoint_of(address) == "http://"@ + address,
        endpoint_of(address) == address ==> {
            ||| exists|tail: Seq<char>| address == #[trigger] "http://"@.add(tail)
            ||| exists|tail: Seq<char>| address == #[trigger] "https://"@.add(tail)
        },
{
    if address == "http://"@ + rest {
        assert("http://"@ =~= address.subrange(0, "http://"@.len() as int));
    }
    if address == "https://"@ + rest {
        assert("https://"@ =~= address.subrange(0, "https://"@.len() as int));
    }
    if names_scheme(address) {
        if "http://"@.is_prefix_of(address) {
            let tail = address.skip("http://"@.len() as int);
            assert(address =~= "http://"@.add(tail));
        } else {
            let tail = address.skip("https://"@.len() as int);
            assert(address =~= "https://"@.add(tail));
        }
    } else {
        reveal_strlit("http://");
        assert(("http://"@ + address).len() != address.len());
    }
}

} // verus!
