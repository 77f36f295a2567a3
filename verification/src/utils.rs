//! Byte strings with a hexadecimal wire form, and small helpers on bytes.

use vstd::prelude::*;

verus! {

/// An opaque byte string: a block hash, a transaction id, a public-key hash
/// or an address. Its wire form is lowercase hexadecimal.
#[derive(Debug, PartialEq, Eq, Hash)]
pub struct HashHex(pub Vec<u8>);

impl View for HashHex {
    type V = Seq<u8>;

    open spec fn view(&self) -> Seq<u8> {
        self.0@
    }
}

impl Clone for HashHex {
    fn clone(&self) -> (res: Self)
        ensures
            res@ == self@,
    {
        HashHex(copy_bytes(self.0.as_slice()))
    }
}

impl From<Vec<u8>> for HashHex {
    fn from(vec: Vec<u8>) -> (res: Self) {
        HashHex(vec)
    }
}

impl vstd::std_specs::convert::FromSpecImpl<Vec<u8>> for HashHex {
    open spec fn obeys_from_spec() -> bool {
        true
    }

    open spec fn from_spec(vec: Vec<u8>) -> Self {
        HashHex(vec)
    }
}

impl From<HashHex> for Vec<u8> {
    fn from(hash_hex: HashHex) -> (res: Self) {
        hash_hex.0
    }
}

impl vstd::std_specs::convert::FromSpecImpl<HashHex> for Vec<u8> {
    open spec fn obeys_from_spec() -> bool {
        true
    }

    open spec fn from_spec(hash_hex: HashHex) -> Self {
        hash_hex.0
    }
}

impl HashHex {
    /// A copy of the bytes.
    pub fn to_vec(&self) -> (bytes: Vec<u8>)
        ensures
            bytes@ == self@,
    {
        copy_bytes(self.0.as_slice())
    }

    /// Wraps a copy of `bytes`.
    pub fn from_slice(bytes: &[u8]) -> (res: Self)
        ensures
            res@ == bytes@,
    {
        HashHex(copy_bytes(bytes))
    }

    /// The empty byte string.
    pub fn empty() -> (res: Self)
        ensures
            res@ == Seq::<u8>::empty(),
    {
        HashHex(Vec::new())
    }

    /// Whether two byte strings hold the same bytes.
    pub fn same_as(&self, other: &HashHex) -> (same: bool)
        ensures
            same == (self@ == other@),
    {
        bytes_eq(self.0.as_slice(), other.0.as_slice())
    }
}

/// A fresh vector holding the bytes of `bytes`.
pub fn copy_bytes(bytes: &[u8]) -> (out: Vec<u8>)
    ensures
        out@ == bytes@,
{
    let mut out: Vec<u8> = Vec::new();
    let mut i: usize = 0;
    while i < bytes.len()
        invariant
            i <= bytes.len(),
            out@ == bytes@.subrange(0, i as int),
        decreases bytes.len() - i,
    {
        out.push(bytes[i]);
        i += 1;
    }
    out
}

/// Whether two slices hold the same bytes.
pub fn bytes_eq(a: &[u8], b: &[u8]) -> (same: bool)
    ensures
        same == (a@ == b@),
{
    if a.len() != b.len() {
        return false;
    }
    let mut i: usize = 0;
    while i < a.len()
        invariant
            i <= a.len(),
            a.len() == b.len(),
            a@.subrange(0, i as int) == b@.subrange(0, i as int),
        decreases a.len() - i,
    {
        if a[i] != b[i] {
            return false;
        }
        assert(a@.subrange(0, i + 1) == a@.subrange(0, i as int).push(a@[i as int]));
        assert(b@.subrange(0, i + 1) == b@.subrange(0, i as int).push(b@[i as int]));
        i += 1;
    }
    assert(a@.subrange(0, a.len() as int) == a@);
    assert(b@.subrange(0, b.len() as int) == b@);
    true
}

/// Appends the bytes of `tail` to `out`.
pub fn append_bytes(out: &mut Vec<u8>, tail: &[u8])
    ensures
        final(out)@ == old(out)@ + tail@,
{
    let mut i: usize = 0;
    while i < tail.len()
        invariant
            i <= tail.len(),
            out@ == old(out)@ + tail@.subrange(0, i as int),
        decreases tail.len() - i,
    {
        out.push(tail[i]);
        i += 1;
    }
    assert(tail@.subrange(0, tail.len() as int) == tail@);
}


/// The lowercase hexadecimal digit of a value below 16, as ASCII.
pub open spec fn hex_digit(n: int) -> u8 {
    if n < 10 {
        (48 + n) as u8
    } else {
        (87 + n) as u8
    }
}

/// The lowercase hexadecimal text of `bytes`: two ASCII digits per byte,
/// the high half first.
pub open spec fn hex_ascii(bytes: Seq<u8>) -> Seq<u8> {
    Seq::new(
        2 * bytes.len(),
        |i: int|
            if i % 2 == 0 {
                hex_digit(bytes[i / 2] as int / 16)
            } else {
                hex_digit(bytes[i / 2] as int % 16)
            },
    )
}

/// The value of an ASCII hexadecimal digit of either case, if it is one.
pub open spec fn hex_value(c: u8) -> Option<int> {
    if 48 <= c <= 57 {
        Some(c - 48)
    } else if 97 <= c <= 102 {
        Some(c - 87)
    } else if 65 <= c <= 70 {
        Some(c - 55)
    } else {
        None
    }
}

/// Whether `text` is an even number of hexadecimal digits.
pub open spec fn is_hex_text(text: Seq<u8>) -> bool {
    &&& text.len() % 2 == 0
    &&& forall|i: int| 0 <= i < text.len() ==> (#[trigger] hex_value(text[i])) is Some
}

/// The bytes that hexadecimal `text` stands for; `None` unless it is an even
/// number of hexadecimal digits.
pub open spec fn hex_decoded(text: Seq<u8>) -> Option<Seq<u8>> {
    if is_hex_text(text) {
        Some(
            Seq::new(
                text.len() / 2,
                |i: int|
                    (hex_value(text[2 * i]).unwrap() * 16 + hex_value(
                        text[2 * i + 1],
                    ).unwrap()) as u8,
            ),
        )
    } else {
        None
    }
}

fn hex_digit_of(n: u8) -> (c: u8)
    requires
        n < 16,
    ensures
        c == hex_digit(n as int),
{
    if n < 10 {
        48 + n
    } else {
        87 + n
    }
}

/// Writes `bytes` as lowercase hexadecimal text.
pub fn hex_encode(bytes: &[u8]) -> (text: Vec<u8>)
    ensures
        text@ == hex_ascii(bytes@),
{
    let mut text: Vec<u8> = Vec::new();
    let mut i: usize = 0;
    while i < bytes.len()
        invariant
            i <= bytes.len(),
            text@ == hex_ascii(bytes@.subrange(0, i as int)),
        decreases bytes.len() - i,
    {
        let b: u8 = bytes[i];
        text.push(hex_digit_of(b / 16));
        text.push(hex_digit_of(b % 16));
        assert(text@ == hex_ascii(bytes@.subrange(0, i + 1))) by {
            let prev = bytes@.subrange(0, i as int);
            let next = bytes@.subrange(0, i + 1);
            assert(next == prev.push(b));
            assert forall|k: int| 0 <= k < text@.len() implies text@[k] == hex_ascii(next)[k] by {
                if k < 2 * i {
                    assert(hex_ascii(prev)[k] == text@[k]);
                    assert(next[k / 2] == prev[k / 2]);
                }
            }
        }
        i += 1;
    }
    assert(bytes@.subrange(0, bytes.len() as int) == bytes@);
    text
}

fn hex_value_of(c: u8) -> (value: Option<u8>)
    ensures
        match value {
            Some(n) => hex_value(c) == Some(n as int) && n < 16,
            None => hex_value(c) is None,
        },
{
    if 48 <= c && c <= 57 {
        Some(c - 48)
    } else if 97 <= c && c <= 102 {
        Some(c - 87)
    } else if 65 <= c && c <= 70 {
        Some(c - 55)
    } else {
        None
    }
}

/// Reads hexadecimal text of either case: it is refused where its length
/// is odd or a byte is no hexadecimal digit; otherwise each pair of digits
/// gives one byte, the first digit being the high half.
pub fn hex_decode(text: &[u8]) -> (bytes: Option<Vec<u8>>)
    ensures
        match bytes {
            Some(b) => hex_decoded(text@) == Some(b@),
            None => hex_decoded(text@) is None,
        },
{
    if text.len() % 2 != 0 {
        return None;
    }
    let mut bytes: Vec<u8> = Vec::new();
    let mut i: usize = 0;
    while i < text.len()
        invariant
            i <= text.len(),
            i % 2 == 0,
            text@.len() % 2 == 0,
            bytes@.len() == i / 2,
            forall|k: int| 0 <= k < i ==> (#[trigger] hex_value(text@[k])) is Some,
            forall|k: int|
                0 <= k < bytes@.len() ==> #[trigger] bytes@[k] == (hex_value(
                    text@[2 * k],
                ).unwrap() * 16 + hex_value(text@[2 * k + 1]).unwrap()) as u8,
        decreases text.len() - i,
    {
        let high = match hex_value_of(text[i]) {
            Some(value) => value,
            None => {
                assert(!is_hex_text(text@)) by {
                    assert(hex_value(text@[i as int]) is None);
                }
                return None;
            },
        };
        let low = match hex_value_of(text[i + 1]) {
            Some(value) => value,
            None => {
                assert(!is_hex_text(text@)) by {
                    assert(hex_value(text@[i + 1]) is None);
                }
                return None;
            },
        };
        bytes.push(high * 16 + low);
        i += 2;
    }
    assert(is_hex_text(text@));
    assert(bytes@ =~= hex_decoded(text@).unwrap());
    Some(bytes)
}

/// Reading back what `hex_ascii` wrote gives the bytes that went in.
pub proof fn lemma_hex_round_trip(bytes: Seq<u8>)
    ensures
        hex_decoded(hex_ascii(bytes)) == Some(bytes),
{
    let text = hex_ascii(bytes);
    assert forall|i: int| 0 <= i < text.len() implies (#[trigger] hex_value(text[i])) is Some by {
        let b = bytes[i / 2];
        assert(0 <= b as int / 16 < 16);
        assert(0 <= b as int % 16 < 16);
    }
    assert(is_hex_text(text));
    let back = hex_decoded(text).unwrap();
    assert forall|i: int| 0 <= i < bytes.len() implies back[i] == bytes[i] by {
        let b = bytes[i];
        assert((2 * i) % 2 == 0);
        assert((2 * i + 1) % 2 == 1);
        assert((2 * i) / 2 == i);
        assert((2 * i + 1) / 2 == i);
        assert(text[2 * i] == hex_digit(b as int / 16));
        assert(text[2 * i + 1] == hex_digit(b as int % 16));
        assert(0 <= b as int / 16 < 16);
        assert(0 <= b as int % 16 < 16);
        assert(hex_value(hex_digit(b as int / 16)) == Some(b as int / 16));
        assert(hex_value(hex_digit(b as int % 16)) == Some(b as int % 16));
    }
    assert(back =~= bytes);
}

/// The decimal digits of `n`, as ASCII, without leading zeros.
pub open spec fn decimal_digits(n: nat) -> Seq<u8>
    decreases n,
{
    if n < 10 {
        seq![(48 + n) as u8]
    } else {
        decimal_digits(n / 10).push((48 + n % 10) as u8)
    }
}

/// The decimal text of an integer, as ASCII, with a minus sign if negative.
pub open spec fn decimal_ascii(n: int) -> Seq<u8> {
    if n < 0 {
        seq![45u8] + decimal_digits((-n) as nat)
    } else {
        decimal_digits(n as nat)
    }
}

/// The decimal text of `n`.
pub fn decimal_u64(n: u64) -> (text: Vec<u8>)
    ensures
        text@ == decimal_digits(n as nat),
    decreases n,
{
    if n < 10 {
        let mut text: Vec<u8> = Vec::new();
        text.push(48 + (n as u8));
        text
    } else {
        let mut text = decimal_u64(n / 10);
        text.push(48 + ((n % 10) as u8));
        text
    }
}

/// The decimal text of `n`, with a minus sign if it is negative.
pub fn decimal_i32(n: i32) -> (text: Vec<u8>)
    ensures
        text@ == decimal_ascii(n as int),
{
    if n < 0 {
        let magnitude: u64 = (-(n as i64)) as u64;
        let digits = decimal_u64(magnitude);
        let mut text: Vec<u8> = Vec::new();
        text.push(45u8);
        append_bytes(&mut text, digits.as_slice());
        text
    } else {
        decimal_u64(n as u64)
    }
}

/// The `width` low bytes of `n`, the lowest first.
pub open spec fn le_bytes(n: nat, width: nat) -> Seq<u8>
    decreases width,
{
    if width == 0 {
        Seq::empty()
    } else {
        seq![(n % 256) as u8] + le_bytes(n / 256, (width - 1) as nat)
    }
}

/// Appends the `width` low bytes of `n` to `out`, the lowest first.
pub fn push_le_bytes(out: &mut Vec<u8>, n: u64, width: u8)
    ensures
        final(out)@ == old(out)@ + le_bytes(n as nat, width as nat),
    decreases width,
{
    if width > 0 {
        out.push((n % 256) as u8);
        push_le_bytes(out, n / 256, width - 1);
        assert(le_bytes(n as nat, width as nat) == seq![(n % 256) as u8] + le_bytes(
            (n / 256) as nat,
            (width - 1) as nat,
        ));
        assert(final(out)@ =~= old(out)@ + le_bytes(n as nat, width as nat));
    } else {
        assert(final(out)@ =~= old(out)@ + le_bytes(n as nat, width as nat));
    }
}

/// The decimal text of `n`.
pub fn decimal_u128(n: u128) -> (text: Vec<u8>)
    ensures
        text@ == decimal_digits(n as nat),
    decreases n,
{
    if n < 10 {
        let mut text: Vec<u8> = Vec::new();
        text.push(48 + (n as u8));
        text
    } else {
        let mut text = decimal_u128(n / 10);
        text.push(48 + ((n % 10) as u8));
        text
    }
}

/// The characters that ASCII bytes stand for.
pub open spec fn ascii_chars(bytes: Seq<u8>) -> Seq<char> {
    Seq::new(bytes.len(), |i: int| bytes[i] as char)
}

/// Every decimal digit is an ASCII byte between `0` and `9`.
pub proof fn lemma_decimal_digits_are_digits(n: nat)
    ensures
        decimal_digits(n).len() > 0,
        forall|i: int| 0 <= i < decimal_digits(n).len() ==> 48 <= #[trigger] decimal_digits(n)[i] <= 57,
    decreases n,
{
    if n >= 10 {
        lemma_decimal_digits_are_digits(n / 10);
    }
}

/// Whether a text is the decimal form of a number of milliseconds.
pub open spec fn is_decimal_text(text: Seq<char>) -> bool {
    exists|millis: nat| text == ascii_chars(#[trigger] decimal_digits(millis))
}

/// The current time as decimal milliseconds since the Unix epoch. Which
/// number the clock gives is not said, only that the text is the decimal
/// form of one.
pub fn get_current_time() -> (text: String)
    ensures
        is_decimal_text(text@),
{
    let millis = unix_millis();
    let digits = decimal_u128(millis);
    proof {
        lemma_decimal_digits_are_digits(millis as nat);
    }
    ascii_text(digits)
}

/// Trusted: `String::from_utf8` on bytes below 128, each of which is one
/// character.
#[verifier::external_body]
fn ascii_text(bytes: Vec<u8>) -> (text: String)
    requires
        forall|i: int| 0 <= i < bytes@.len() ==> bytes@[i] < 128,
    ensures
        text@ == ascii_chars(bytes@),
{
    String::from_utf8(bytes).unwrap_or_default()
}

/// Trusted: reads the system clock through `std::time::SystemTime`. Nothing
/// is claimed of the value; a clock set before the epoch reads as zero.
#[verifier::external_body]
fn unix_millis() -> u128 {
    std::time::SystemTime::now().duration_since(std::time::UNIX_EPOCH).unwrap_or_default().as_millis()
}

/// The first position of `needle` is `i` where `i` holds it and nothing
/// before `i` does.
pub proof fn lemma_first_index<A>(s: Seq<A>, needle: A, i: int)
    requires
        0 <= i < s.len(),
        s[i] == needle,
        forall|j: int| 0 <= j < i ==> s[j] != needle,
    ensures
        s.index_of_first(needle) == Some(i),
{
    s.index_of_first_ensures(needle);
    assert(s.contains(needle));
}

/// There is no first position of `needle` where no position holds it.
pub proof fn lemma_no_index<A>(s: Seq<A>, needle: A)
    requires
        forall|j: int| 0 <= j < s.len() ==> s[j] != needle,
    ensures
        s.index_of_first(needle) is None,
{
    s.index_of_first_ensures(needle);
}

} // verus!
