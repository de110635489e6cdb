//! Building message text as UTF-8 bytes: literals, names, decimal and hex
//! numbers.
use vstd::prelude::*;
use vstd::utf8::{
    valid_utf8, decode_utf8, encode_utf8, pop_first_scalar, encode_utf8_valid_utf8,
    valid_utf8_concat, decode_first_codepoint, length_of_first_codepoint,
};

verus! {

/// Decimal digits of `n`, most significant first, without leading zeros.
pub open spec fn spec_dec(n: nat) -> Seq<u8>
    decreases n,
{
    if n < 10 {
        seq![(48 + n) as u8]
    } else {
        spec_dec(n / 10).push((48 + n % 10) as u8)
    }
}

/// Every byte is below 0x80.
pub open spec fn is_ascii_bytes(s: Seq<u8>) -> bool {
    forall|i: int| 0 <= i < s.len() ==> #[trigger] s[i] < 0x80
}

/// A decimal numeral is a non-empty run of ASCII digits.
pub proof fn lemma_dec_ascii(n: nat)
    ensures
        is_ascii_bytes(spec_dec(n)),
        spec_dec(n).len() >= 1,
        forall|i: int| 0 <= i < spec_dec(n).len() ==> 48 <= #[trigger] spec_dec(n)[i] <= 57,
    decreases n,
{
    if n >= 10 {
        lemma_dec_ascii(n / 10);
    }
}

/// Bytes below 0x80 form valid UTF-8.
pub proof fn lemma_ascii_valid(s: Seq<u8>)
    requires
        is_ascii_bytes(s),
    ensures
        valid_utf8(s),
    decreases s.len(),
{
    if s.len() > 0 {
        let b = s[0];
        assert(b < 0x80);
        assert((b & 0x7f) as u32 == b as u32) by (bit_vector)
            requires b < 0x80;
        assert(decode_first_codepoint(s) == b as u32);
        assert(length_of_first_codepoint(s) == 1);
        assert(pop_first_scalar(s) =~= s.drop_first());
        lemma_ascii_valid(s.drop_first());
    }
}

/// The concatenation of three valid UTF-8 sequences is valid.
pub proof fn lemma_valid3(a: Seq<u8>, b: Seq<u8>, c: Seq<u8>)
    requires
        valid_utf8(a),
        valid_utf8(b),
        valid_utf8(c),
    ensures
        valid_utf8(a + b),
        valid_utf8(a + b + c),
{
    valid_utf8_concat(a, b);
    valid_utf8_concat(a + b, c);
}

/// The text `String::from_utf8_lossy` makes of bytes: well-formed UTF-8
/// decoded, each ill-formed sequence replaced by U+FFFD.
pub uninterp spec fn utf8_lossy(bytes: Seq<u8>) -> Seq<char>;

/// `String::from_utf8_lossy`, owned: its result is a function of the bytes
/// alone, and is their decoding when they are well-formed UTF-8, as the
/// standard library documents. How ill-formed input is replaced is not
/// stated here.
#[verifier::external_body]
pub(crate) fn string_from_bytes(bytes: &[u8]) -> (s: String)
    ensures
        s@ == utf8_lossy(bytes@),
        valid_utf8(bytes@) ==> s@ == decode_utf8(bytes@),
{
    String::from_utf8_lossy(bytes).into_owned()
}

/// The text of a literal as an owned string.
pub fn text(s: &str) -> (r: String)
    ensures
        r@ == s@,
{
    s.to_string()
}

/// The string that the well-formed UTF-8 bytes encode.
pub fn bytes_to_string(bytes: &[u8]) -> (s: String)
    requires
        valid_utf8(bytes@),
    ensures
        s@ == decode_utf8(bytes@),
{
    string_from_bytes(bytes)
}

/// Appends the UTF-8 bytes of a literal.
pub fn push_str(buf: &mut Vec<u8>, s: &str)
    ensures
        final(buf)@ == old(buf)@ + encode_utf8(s@),
{
    buf.extend_from_slice(s.as_bytes());
}

/// Appends raw bytes.
pub fn push_bytes(buf: &mut Vec<u8>, b: &[u8])
    ensures
        final(buf)@ == old(buf)@ + b@,
{
    buf.extend_from_slice(b);
}

/// Appends the decimal digits of `n`.
pub fn push_dec(buf: &mut Vec<u8>, n: u64)
    ensures
        final(buf)@ == old(buf)@ + spec_dec(n as nat),
    decreases n,
{
    if n >= 10 {
        push_dec(buf, n / 10);
    }
    let d: u8 = (n % 10) as u8;
    buf.push(48 + d);
    proof {
        assert(final(buf)@ =~= old(buf)@ + spec_dec(n as nat));
    }
}

/// A literal, then a decimal number, as UTF-8 bytes.
pub open spec fn spec_lit_dec(s: Seq<char>, n: nat) -> Seq<u8> {
    encode_utf8(s) + spec_dec(n)
}

/// The string of a literal followed by a decimal number.
pub fn lit_dec(s: &str, n: u64) -> (r: String)
    ensures
        r@ == decode_utf8(spec_lit_dec(s@, n as nat)),
{
    let mut b: Vec<u8> = Vec::new();
    push_str(&mut b, s);
    push_dec(&mut b, n);
    proof {
        assert(b@ =~= spec_lit_dec(s@, n as nat));
        encode_utf8_valid_utf8(s@);
        lemma_dec_ascii(n as nat);
        lemma_ascii_valid(spec_dec(n as nat));
        valid_utf8_concat(encode_utf8(s@), spec_dec(n as nat));
    }
    bytes_to_string(b.as_slice())
}

/// A literal, a name, a literal, as UTF-8 bytes.
pub open spec fn spec_lit_name_lit(a: Seq<char>, name: Seq<u8>, c: Seq<char>) -> Seq<u8> {
    encode_utf8(a) + name + encode_utf8(c)
}

/// The string of a literal, a UTF-8 name and a literal.
pub fn lit_name_lit(a: &str, name: &[u8], c: &str) -> (r: String)
    requires
        valid_utf8(name@),
    ensures
        r@ == decode_utf8(spec_lit_name_lit(a@, name@, c@)),
{
    let mut b: Vec<u8> = Vec::new();
    push_str(&mut b, a);
    push_bytes(&mut b, name);
    push_str(&mut b, c);
    proof {
        assert(b@ =~= spec_lit_name_lit(a@, name@, c@));
        encode_utf8_valid_utf8(a@);
        encode_utf8_valid_utf8(c@);
        lemma_valid3(encode_utf8(a@), name@, encode_utf8(c@));
    }
    bytes_to_string(b.as_slice())
}

/// The string that a UTF-8 name encodes.
pub fn name_string(name: &[u8]) -> (r: String)
    requires
        valid_utf8(name@),
    ensures
        r@ == decode_utf8(name@),
{
    bytes_to_string(name)
}

/// A literal, a name, a literal and a decimal number, as UTF-8 bytes.
pub open spec fn spec_lit_name_lit_dec(a: Seq<char>, name: Seq<u8>, c: Seq<char>, n: nat) -> Seq<u8> {
    encode_utf8(a) + name + encode_utf8(c) + spec_dec(n)
}

/// The string of a literal, a UTF-8 name, a literal and a decimal number.
pub fn lit_name_lit_dec(a: &str, name: &[u8], c: &str, n: u64) -> (r: String)
    requires
        valid_utf8(name@),
    ensures
        r@ == decode_utf8(spec_lit_name_lit_dec(a@, name@, c@, n as nat)),
{
    let mut b: Vec<u8> = Vec::new();
    push_str(&mut b, a);
    push_bytes(&mut b, name);
    push_str(&mut b, c);
    push_dec(&mut b, n);
    proof {
        assert(b@ =~= spec_lit_name_lit_dec(a@, name@, c@, n as nat));
        encode_utf8_valid_utf8(a@);
        encode_utf8_valid_utf8(c@);
        lemma_valid3(encode_utf8(a@), name@, encode_utf8(c@));
        lemma_dec_ascii(n as nat);
        lemma_ascii_valid(spec_dec(n as nat));
        valid_utf8_concat(encode_utf8(a@) + name@ + encode_utf8(c@), spec_dec(n as nat));
    }
    bytes_to_string(b.as_slice())
}

/// `a`, a name, `c`, a number, `d`, a number, as UTF-8 bytes.
pub open spec fn spec_name_two_dec(a: Seq<char>, name: Seq<u8>, c: Seq<char>, n: nat, d: Seq<char>, m: nat) -> Seq<u8> {
    spec_lit_name_lit_dec(a, name, c, n) + encode_utf8(d) + spec_dec(m)
}

/// The string of a literal, a UTF-8 name, a literal, a number, a literal
/// and a number.
pub fn name_two_dec(a: &str, name: &[u8], c: &str, n: u64, d: &str, m: u64) -> (r: String)
    requires
        valid_utf8(name@),
    ensures
        r@ == decode_utf8(spec_name_two_dec(a@, name@, c@, n as nat, d@, m as nat)),
{
    let mut b: Vec<u8> = Vec::new();
    push_str(&mut b, a);
    push_bytes(&mut b, name);
    push_str(&mut b, c);
    push_dec(&mut b, n);
    let ghost first = b@;
    push_str(&mut b, d);
    push_dec(&mut b, m);
    proof {
        assert(first =~= spec_lit_name_lit_dec(a@, name@, c@, n as nat));
        assert(b@ =~= spec_name_two_dec(a@, name@, c@, n as nat, d@, m as nat));
        encode_utf8_valid_utf8(a@);
        encode_utf8_valid_utf8(c@);
        encode_utf8_valid_utf8(d@);
        lemma_valid3(encode_utf8(a@), name@, encode_utf8(c@));
        lemma_dec_ascii(n as nat);
        lemma_ascii_valid(spec_dec(n as nat));
        lemma_dec_ascii(m as nat);
        lemma_ascii_valid(spec_dec(m as nat));
        valid_utf8_concat(encode_utf8(a@) + name@ + encode_utf8(c@), spec_dec(n as nat));
        lemma_valid3(first, encode_utf8(d@), spec_dec(m as nat));
    }
    bytes_to_string(b.as_slice())
}


/// A hex digit in lowercase.
pub open spec fn hex_char(d: nat) -> u8 {
    if d < 10 { (48 + d) as u8 } else { (87 + d) as u8 }
}

/// Lowercase hex digits of `n`, most significant first, without leading
/// zeros.
pub open spec fn spec_hex(n: nat) -> Seq<u8>
    decreases n,
{
    if n < 16 {
        seq![hex_char(n)]
    } else {
        spec_hex(n / 16).push(hex_char(n % 16))
    }
}

/// Hex digits of `n`, zero-padded on the left to at least four.
pub open spec fn spec_hex4(n: nat) -> Seq<u8> {
    let h = spec_hex(n);
    if h.len() < 4 { Seq::new((4 - h.len()) as nat, |_i: int| 48u8) + h } else { h }
}

/// Hexadecimal numerals are ASCII.
pub proof fn lemma_hex_ascii(n: nat)
    ensures
        is_ascii_bytes(spec_hex(n)),
        is_ascii_bytes(spec_hex4(n)),
    decreases n,
{
    if n >= 16 {
        lemma_hex_ascii(n / 16);
    }
    let h = spec_hex(n);
    if h.len() < 4 {
        let z = Seq::new((4 - h.len()) as nat, |_i: int| 48u8);
        assert forall|i: int| 0 <= i < (z + h).len() implies #[trigger] (z + h)[i] < 0x80 by {
            if i >= z.len() {
                assert((z + h)[i] == h[i - z.len()]);
            }
        }
    }
}

/// Appends the lowercase hex digits of `n`.
pub fn push_hex(buf: &mut Vec<u8>, n: u64)
    ensures
        final(buf)@ == old(buf)@ + spec_hex(n as nat),
    decreases n,
{
    if n >= 16 {
        push_hex(buf, n / 16);
    }
    let d: u8 = (n % 16) as u8;
    if d < 10 {
        buf.push(48 + d);
    } else {
        buf.push(87 + d);
    }
    proof {
        assert(final(buf)@ =~= old(buf)@ + spec_hex(n as nat));
    }
}

/// Appends the hex digits of `n`, zero-padded to at least four.
pub fn push_hex4(buf: &mut Vec<u8>, n: u64)
    ensures
        final(buf)@ == old(buf)@ + spec_hex4(n as nat),
{
    let mut digits: Vec<u8> = Vec::new();
    push_hex(&mut digits, n);
    assert(digits@ =~= spec_hex(n as nat));
    let ghost base = buf@;
    let mut k: usize = digits.len();
    while k < 4
        invariant
            digits@ == spec_hex(n as nat),
            digits@.len() <= k <= 4 || (k == digits@.len() && k >= 4),
            buf@ == base + Seq::new((k - digits@.len()) as nat, |_i: int| 48u8),
        decreases 4 - k,
    {
        buf.push(48);
        k += 1;
        assert(buf@ =~= base + Seq::new((k - digits@.len()) as nat, |_i: int| 48u8));
    }
    let ghost mid = buf@;
    buf.extend_from_slice(digits.as_slice());
    proof {
        let h = spec_hex(n as nat);
        if h.len() < 4 {
            assert(buf@ =~= base + (Seq::new((4 - h.len()) as nat, |_i: int| 48u8) + h));
        } else {
            assert(buf@ =~= base + h);
        }
    }
}

/// Decimal digits of a signed integer, with a leading minus when negative.
pub open spec fn spec_idec(n: int) -> Seq<u8> {
    if n < 0 { seq![45u8] + spec_dec((-n) as nat) } else { spec_dec(n as nat) }
}

/// A signed decimal numeral is ASCII.
pub proof fn lemma_idec_ascii(n: int)
    ensures
        is_ascii_bytes(spec_idec(n)),
{
    if n < 0 {
        lemma_dec_ascii((-n) as nat);
        let s = seq![45u8] + spec_dec((-n) as nat);
        assert forall|i: int| 0 <= i < s.len() implies #[trigger] s[i] < 0x80 by {
            if i >= 1 {
                assert(s[i] == spec_dec((-n) as nat)[i - 1]);
            }
        }
    } else {
        lemma_dec_ascii(n as nat);
    }
}

/// Appends the decimal digits of a signed 32-bit integer.
pub fn push_idec(buf: &mut Vec<u8>, n: i32)
    ensures
        final(buf)@ == old(buf)@ + spec_idec(n as int),
{
    if n < 0 {
        buf.push(45);
        let m: u64 = if n == i32::MIN { 2147483648 } else { (-n) as u64 };
        push_dec(buf, m);
        assert(final(buf)@ =~= old(buf)@ + spec_idec(n as int));
    } else {
        push_dec(buf, n as u64);
    }
}


/// Appends a literal to well-formed UTF-8, which stays well formed.
pub fn push_lit(buf: &mut Vec<u8>, s: &str)
    requires
        valid_utf8(old(buf)@),
    ensures
        final(buf)@ == old(buf)@ + encode_utf8(s@),
        valid_utf8(final(buf)@),
{
    let ghost before = buf@;
    push_str(buf, s);
    proof {
        encode_utf8_valid_utf8(s@);
        valid_utf8_concat(before, encode_utf8(s@));
    }
}

/// Appends a UTF-8 name to well-formed UTF-8, which stays well formed.
pub fn push_name(buf: &mut Vec<u8>, name: &[u8])
    requires
        valid_utf8(old(buf)@),
        valid_utf8(name@),
    ensures
        final(buf)@ == old(buf)@ + name@,
        valid_utf8(final(buf)@),
{
    let ghost before = buf@;
    push_bytes(buf, name);
    proof {
        valid_utf8_concat(before, name@);
    }
}

/// Appends decimal digits to well-formed UTF-8, which stays well formed.
pub fn push_num(buf: &mut Vec<u8>, n: u64)
    requires
        valid_utf8(old(buf)@),
    ensures
        final(buf)@ == old(buf)@ + spec_dec(n as nat),
        valid_utf8(final(buf)@),
{
    let ghost before = buf@;
    push_dec(buf, n);
    proof {
        lemma_dec_ascii(n as nat);
        lemma_ascii_valid(spec_dec(n as nat));
        valid_utf8_concat(before, spec_dec(n as nat));
    }
}

/// Appends signed decimal digits to well-formed UTF-8, which stays well
/// formed.
pub fn push_inum(buf: &mut Vec<u8>, n: i32)
    requires
        valid_utf8(old(buf)@),
    ensures
        final(buf)@ == old(buf)@ + spec_idec(n as int),
        valid_utf8(final(buf)@),
{
    let ghost before = buf@;
    push_idec(buf, n);
    proof {
        lemma_idec_ascii(n as int);
        lemma_ascii_valid(spec_idec(n as int));
        valid_utf8_concat(before, spec_idec(n as int));
    }
}

/// Appends padded hex digits to well-formed UTF-8, which stays well formed.
pub fn push_hex4_num(buf: &mut Vec<u8>, n: u64)
    requires
        valid_utf8(old(buf)@),
    ensures
        final(buf)@ == old(buf)@ + spec_hex4(n as nat),
        valid_utf8(final(buf)@),
{
    let ghost before = buf@;
    push_hex4(buf, n);
    proof {
        lemma_hex_ascii(n as nat);
        lemma_ascii_valid(spec_hex4(n as nat));
        valid_utf8_concat(before, spec_hex4(n as nat));
    }
}

/// The empty byte string is well-formed UTF-8.
pub proof fn lemma_empty_valid()
    ensures
        valid_utf8(Seq::<u8>::empty()),
{
}

} // verus!
