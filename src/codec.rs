//! Textual views of a `(raw, width)` pair and the permissive parsing of
//! edited text back into a raw value.

use vstd::prelude::*;
use vstd::arithmetic::power::{lemma_pow_multiplies, pow};
use vstd::arithmetic::power2::{lemma2_to64, lemma_pow2};
use vstd::string::StrSliceExecFns;
use crate::bits::{EngineError, check_width, is_valid_width, mask_for, mask_spec};
use crate::bytes::{
    be_bytes,
    be_value,
    le_bytes,
    le_value,
    lemma_be_round_trip,
    lemma_bytes_len,
    lemma_le_round_trip,
    lemma_pow256_values,
    push_be_bytes,
    push_le_bytes,
    read_be,
    read_le,
};
use crate::digits::{
    digit_char,
    digit_value,
    digits_of,
    digits_value,
    fixed_digits,
    is_digit_in,
    keep_digits,
    lemma_digits_of,
    lemma_digits_of_len,
    lemma_fixed_digits,
    lemma_keep_all_digits,
    parse_digits,
    parse_spec,
    push_digits,
    push_fixed_digits,
    retain_digits,
};
use crate::text::{chars_of, push_char};

verus! {

/// The textual views of a value.
#[derive(Debug, Clone, Copy, PartialEq, Eq, Structural)]
pub enum Base {
    Decimal,
    Binary,
    HexNative,
    HexBE,
    HexLE,
    Octal,
    Ascii,
    Utf8,
}

/// Whether `b` is the ASCII code of a hexadecimal digit of either case.
pub open spec fn is_hex_byte(b: u8) -> bool {
    (48 <= b && b <= 57) || (65 <= b && b <= 70) || (97 <= b && b <= 102)
}

/// The value of the hexadecimal digit whose ASCII code is `b`.
pub open spec fn hex_byte_value(b: u8) -> nat {
    if 48 <= b && b <= 57 {
        (b - 48) as nat
    } else if 65 <= b && b <= 70 {
        (b - 55) as nat
    } else if 97 <= b && b <= 102 {
        (b - 87) as nat
    } else {
        0
    }
}

/// Text that decodes as hexadecimal: an even number of digit codes.
pub open spec fn hex_decodable(h: Seq<u8>) -> bool {
    h.len() % 2 == 0 && forall|i: int| 0 <= i < h.len() ==> is_hex_byte(#[trigger] h[i])
}

/// The bytes that hexadecimal text stands for, two digits per byte, high
/// digit first.
pub open spec fn hex_pairs(h: Seq<u8>) -> Seq<u8> {
    Seq::new(
        h.len() / 2,
        |i: int| (hex_byte_value(h[2 * i]) * 16 + hex_byte_value(h[2 * i + 1])) as u8,
    )
}

/// Two uppercase hexadecimal digits for each byte, high digit first.
pub open spec fn hex_upper(bs: Seq<u8>) -> Seq<char> {
    Seq::new(
        2 * bs.len(),
        |i: int|
            if i % 2 == 0 {
                digit_char((bs[i / 2] / 16) as nat)
            } else {
                digit_char((bs[i / 2] % 16) as nat)
            },
    )
}

/// The ASCII codes of characters below 128.
pub open spec fn ascii_codes(cs: Seq<char>) -> Seq<u8> {
    cs.map_values(|c: char| (c as u32) as u8)
}

/// What UTF-8 decoding of `bytes` gives when each maximal ill-formed
/// subpart is replaced by U+FFFD.
pub uninterp spec fn utf8_lossy_text(bytes: Seq<u8>) -> Seq<char>;

/// Relies on `hex::encode_upper`: two digits from `0123456789ABCDEF` for each
/// byte, the high nibble first.
#[verifier::external_body]
fn hex_encode_upper(bs: &Vec<u8>) -> (r: String)
    ensures
        r@ == hex_upper(bs@),
{
    hex::encode_upper(bs)
}

/// Relies on `hex::decode`: it fails on an odd length or a byte that is not
/// a digit of either case, and otherwise reads each pair high digit first.
#[verifier::external_body]
fn hex_decode(h: &Vec<u8>) -> (r: Option<Vec<u8>>)
    ensures
        r is Some <==> hex_decodable(h@),
        r is Some ==> r->0@ == hex_pairs(h@),
{
    hex::decode(h).ok()
}

/// Relies on `String::from_utf8_lossy`: the text depends on the bytes alone,
/// and no bytes give no text.
#[verifier::external_body]
fn utf8_lossy(bytes: &Vec<u8>) -> (r: String)
    ensures
        r@ == utf8_lossy_text(bytes@),
        bytes@.len() == 0 ==> r@.len() == 0,
{
    String::from_utf8_lossy(bytes).into_owned()
}

/// The character shown for a byte in the ASCII view: printable bytes are
/// themselves, every other byte is a space.
pub open spec fn ascii_shown(b: u8) -> char {
    if 32 <= b && b <= 126 {
        b as char
    } else {
        ' '
    }
}

/// The UTF-8 view of decoded text: empty text is shown as a single space.
pub open spec fn utf8_shown(decoded: Seq<char>) -> Seq<char> {
    if decoded.len() == 0 {
        seq![' ']
    } else {
        decoded
    }
}

/// The text of `raw` under `width` in `base`.
pub open spec fn encode_spec(raw: u64, width: u64, base: Base) -> Seq<char> {
    let v = (raw & mask_spec(width)) as nat;
    let n = (width / 8) as nat;
    match base {
        Base::Decimal => digits_of(v, 10),
        Base::Binary => seq!['0', 'b'] + fixed_digits(v, 2, width as nat),
        Base::HexNative => seq!['0', 'x'] + digits_of(v, 16),
        Base::HexBE => seq!['0', 'x'] + hex_upper(be_bytes(v, n)),
        Base::HexLE => seq!['0', 'x'] + hex_upper(le_bytes(v, n)),
        Base::Octal => seq!['0', 'o'] + digits_of(v, 8),
        Base::Ascii => Seq::new(n, |i: int| ascii_shown(le_bytes(v, n)[i])),
        Base::Utf8 => utf8_shown(utf8_lossy_text(be_bytes(v, n))),
    }
}

/// `s` without its spaces.
pub open spec fn without_spaces(s: Seq<char>) -> Seq<char>
    decreases s.len(),
{
    if s.len() == 0 {
        Seq::empty()
    } else if s.last() == ' ' {
        without_spaces(s.drop_last())
    } else {
        without_spaces(s.drop_last()).push(s.last())
    }
}

/// `s` without the two-character marker `ab` where it stands at the start.
pub open spec fn strip_prefix(s: Seq<char>, a: char, b: char) -> Seq<char> {
    if s.len() >= 2 && s[0] == a && s[1] == b {
        s.skip(2)
    } else {
        s
    }
}

/// The digits of `base` in edited text, after its spaces and then a leading
/// marker `0c` are removed.
pub open spec fn marked_digits(text: Seq<char>, c: char, base: nat) -> Seq<char> {
    keep_digits(strip_prefix(without_spaces(text), '0', c), base)
}

/// Whether a character is printable ASCII, codes 32 to 126.
pub open spec fn is_printable(c: char) -> bool {
    32 <= (c as u32) && (c as u32) <= 126
}

/// `o` with its value masked.
pub open spec fn masked(o: Option<u64>, m: u64) -> Option<u64> {
    match o {
        Some(x) => Some(x & m),
        None => None,
    }
}

/// The first `width / 4` of the digits `ds`, as many as the width holds.
pub open spec fn first_digits(ds: Seq<char>, width: u64) -> Seq<char> {
    if ds.len() <= width / 4 {
        ds
    } else {
        ds.subrange(0, (width / 4) as int)
    }
}

/// The value that edited `text` stands for under `width` in `base`, or
/// `None` where the text gives no update.
pub open spec fn decode_spec(text: Seq<char>, width: u64, base: Base) -> Option<u64> {
    let m = mask_spec(width);
    match base {
        Base::Decimal => masked(parse_spec(keep_digits(text, 10), 10), m),
        Base::Binary => masked(parse_spec(marked_digits(text, 'b', 2), 2), m),
        Base::HexNative => masked(
            parse_spec(first_digits(marked_digits(text, 'x', 16), width), 16),
            m,
        ),
        Base::Octal => masked(parse_spec(marked_digits(text, 'o', 8), 8), m),
        Base::HexBE => {
            let ds = marked_digits(text, 'x', 16);
            let codes = ascii_codes(ds);
            if ds.len() == width / 4 && hex_decodable(codes) {
                Some((be_value(hex_pairs(codes)) as u64) & m)
            } else {
                None
            }
        },
        Base::HexLE => {
            let ds = marked_digits(text, 'x', 16);
            let codes = ascii_codes(ds);
            if ds.len() == width / 4 && hex_decodable(codes) {
                Some((le_value(hex_pairs(codes)) as u64) & m)
            } else {
                None
            }
        },
        Base::Ascii => if text.len() == width / 8 && (forall|i: int|
            0 <= i < text.len() ==> is_printable(#[trigger] text[i])) {
            Some((le_value(ascii_codes(text)) as u64) & m)
        } else {
            None
        },
        Base::Utf8 => None,
    }
}

/// The UTF-8 field text for decoded bytes: the decoded text, or a single
/// space where it is empty.
pub fn utf8_field_text(decoded: String) -> (r: String)
    ensures
        r@ == utf8_shown(decoded@),
{
    if decoded.as_str().unicode_len() == 0 {
        let mut s = String::new();
        push_char(&mut s, ' ');
        s
    } else {
        decoded
    }
}

/// Renders `raw` under the active `width` in `base`.
pub fn encode(raw: u64, width: u64, base: Base) -> (r: Result<String, EngineError>)
    ensures
        is_valid_width(width) <==> r is Ok,
        r is Ok ==> r->Ok_0@ == encode_spec(raw, width, base),
        r is Err ==> r->Err_0 == EngineError::InvalidWidth,
{
    if let Err(e) = check_width(width) {
        return Err(e);
    }
    let v = raw & mask_for(width);
    let n = (width / 8) as usize;
    let mut out = String::new();
    match base {
        Base::Decimal => {
            push_digits(&mut out, v, 10);
        },
        Base::Binary => {
            push_char(&mut out, '0');
            push_char(&mut out, 'b');
            push_fixed_digits(&mut out, v, 2, width);
            assert(out@ =~= encode_spec(raw, width, base));
        },
        Base::HexNative => {
            push_char(&mut out, '0');
            push_char(&mut out, 'x');
            push_digits(&mut out, v, 16);
            assert(out@ =~= encode_spec(raw, width, base));
        },
        Base::HexBE => {
            let mut bs: Vec<u8> = Vec::new();
            push_be_bytes(&mut bs, v, n);
            assert(bs@ =~= be_bytes(v as nat, n as nat));
            let h = hex_encode_upper(&bs);
            push_char(&mut out, '0');
            push_char(&mut out, 'x');
            out.append(h.as_str());
        },
        Base::HexLE => {
            let mut bs: Vec<u8> = Vec::new();
            push_le_bytes(&mut bs, v, n);
            assert(bs@ =~= le_bytes(v as nat, n as nat));
            let h = hex_encode_upper(&bs);
            push_char(&mut out, '0');
            push_char(&mut out, 'x');
            out.append(h.as_str());
        },
        Base::Octal => {
            push_char(&mut out, '0');
            push_char(&mut out, 'o');
            push_digits(&mut out, v, 8);
        },
        Base::Ascii => {
            let mut bs: Vec<u8> = Vec::new();
            push_le_bytes(&mut bs, v, n);
            assert(bs@ =~= le_bytes(v as nat, n as nat));
            proof {
                lemma_bytes_len(v as nat, n as nat);
            }
            let mut i: usize = 0;
            while i < bs.len()
                invariant
                    i <= bs@.len(),
                    out@ =~= Seq::new(i as nat, |j: int| ascii_shown(bs@[j])),
                decreases bs@.len() - i,
            {
                let b = bs[i];
                let c = if 32 <= b && b <= 126 {
                    b as char
                } else {
                    ' '
                };
                push_char(&mut out, c);
                i = i + 1;
            }
            assert(out@ =~= encode_spec(raw, width, base));
        },
        Base::Utf8 => {
            let mut bs: Vec<u8> = Vec::new();
            push_be_bytes(&mut bs, v, n);
            assert(bs@ =~= be_bytes(v as nat, n as nat));
            out = utf8_field_text(utf8_lossy(&bs));
        },
    }
    assert(out@ =~= encode_spec(raw, width, base));
    Ok(out)
}

/// `s` without its spaces.
fn drop_spaces(s: &Vec<char>) -> (r: Vec<char>)
    ensures
        r@ == without_spaces(s@),
{
    let mut out: Vec<char> = Vec::new();
    let mut i: usize = 0;
    while i < s.len()
        invariant
            i <= s@.len(),
            out@ == without_spaces(s@.subrange(0, i as int)),
        decreases s@.len() - i,
    {
        assert(s@.subrange(0, i + 1 as int).drop_last() =~= s@.subrange(0, i as int));
        if s[i] != ' ' {
            out.push(s[i]);
        }
        i = i + 1;
    }
    assert(s@.subrange(0, s@.len() as int) =~= s@);
    out
}

/// The digits of `base` in `text`, after its spaces and then a leading
/// marker `0c` are removed.
fn digits_after_marker(text: &Vec<char>, c: char, base: u64) -> (r: Vec<char>)
    requires
        base == 2 || base == 8 || base == 16,
    ensures
        r@ == marked_digits(text@, c, base as nat),
        forall|i: int| 0 <= i < r@.len() ==> is_digit_in(#[trigger] r@[i], base as nat),
{
    let s = drop_spaces(text);
    let n = s.len();
    let mut rest: Vec<char> = Vec::new();
    let start: usize = if n >= 2 && s[0] == '0' && s[1] == c {
        2
    } else {
        0
    };
    let mut i: usize = start;
    while i < n
        invariant
            n == s@.len(),
            start <= i <= n,
            rest@ == s@.subrange(start as int, i as int),
        decreases n - i,
    {
        rest.push(s[i]);
        i = i + 1;
        assert(rest@ =~= s@.subrange(start as int, i as int));
    }
    assert(rest@ =~= strip_prefix(s@, '0', c));
    let ds = retain_digits(&rest, base);
    proof {
        lemma_kept_are_digits(rest@, base as nat);
    }
    ds
}

/// The ASCII codes of hexadecimal digit characters.
fn codes_of(ds: &Vec<char>) -> (r: Vec<u8>)
    requires
        forall|i: int| 0 <= i < ds@.len() ==> is_digit_in(#[trigger] ds@[i], 16),
    ensures
        r@ == ascii_codes(ds@),
{
    let mut out: Vec<u8> = Vec::new();
    let mut i: usize = 0;
    while i < ds.len()
        invariant
            i <= ds@.len(),
            forall|j: int| 0 <= j < ds@.len() ==> is_digit_in(#[trigger] ds@[j], 16),
            out@ =~= ascii_codes(ds@.subrange(0, i as int)),
        decreases ds@.len() - i,
    {
        let c = ds[i];
        assert(is_digit_in(ds@[i as int], 16));
        out.push((c as u32) as u8);
        i = i + 1;
        assert(out@ =~= ascii_codes(ds@.subrange(0, i as int)));
    }
    assert(ds@.subrange(0, ds@.len() as int) =~= ds@);
    out
}

/// Every character that `keep_digits` keeps is a digit of the base.
proof fn lemma_kept_are_digits(s: Seq<char>, base: nat)
    ensures
        forall|i: int|
            0 <= i < keep_digits(s, base).len() ==> is_digit_in(
                #[trigger] keep_digits(s, base)[i],
                base,
            ),
    decreases s.len(),
{
    if s.len() > 0 {
        lemma_kept_are_digits(s.drop_last(), base);
        let k = keep_digits(s, base);
        let p = keep_digits(s.drop_last(), base);
        assert forall|i: int| 0 <= i < k.len() implies is_digit_in(#[trigger] k[i], base) by {
            if i < p.len() {
                assert(k[i] == p[i]);
            }
        }
    }
}

/// Parses the digits `ds` of `base` and masks the result.
fn parse_masked(ds: &Vec<char>, base: u64, m: u64) -> (r: Option<u64>)
    requires
        base == 2 || base == 8 || base == 10 || base == 16,
    ensures
        r == masked(parse_spec(ds@, base as nat), m),
{
    match parse_digits(ds, base) {
        Some(x) => Some(x & m),
        None => None,
    }
}

/// Reads text of exactly `width / 8` printable ASCII characters as the
/// little-endian bytes of a value, and masks the result.
fn parse_ascii(text: &Vec<char>, width: u64) -> (r: Option<u64>)
    requires
        is_valid_width(width),
    ensures
        r == decode_spec(text@, width, Base::Ascii),
{
    let m = mask_for(width);
    if text.len() as u64 != width / 8 {
        return None;
    }
    let mut codes: Vec<u8> = Vec::new();
    let mut i: usize = 0;
    while i < text.len()
        invariant
            i <= text@.len() <= 8,
            forall|j: int| 0 <= j < i ==> is_printable(#[trigger] text@[j]),
            codes@ =~= ascii_codes(text@.subrange(0, i as int)),
        decreases text@.len() - i,
    {
        let c = text[i];
        if !(32 <= (c as u32) && (c as u32) <= 126) {
            return None;
        }
        codes.push((c as u32) as u8);
        i = i + 1;
        assert(codes@ =~= ascii_codes(text@.subrange(0, i as int)));
    }
    assert(text@.subrange(0, text@.len() as int) =~= text@);
    Some(read_le(&codes) & m)
}

/// Reads the hexadecimal digits of `text` as `width / 8` bytes, most
/// significant first when `big_endian`, and masks the result.
fn parse_hex_bytes(text: &Vec<char>, width: u64, big_endian: bool) -> (r: Option<u64>)
    requires
        is_valid_width(width),
    ensures
        r == (if big_endian {
            decode_spec(text@, width, Base::HexBE)
        } else {
            decode_spec(text@, width, Base::HexLE)
        }),
{
    let m = mask_for(width);
    let ds = digits_after_marker(text, 'x', 16);
    if ds.len() as u64 != width / 4 {
        return None;
    }
    let codes = codes_of(&ds);
    match hex_decode(&codes) {
        Some(bs) => {
            let v = if big_endian {
                read_be(&bs)
            } else {
                read_le(&bs)
            };
            Some(v & m)
        },
        None => None,
    }
}

/// Parses edited `text` under the active `width` in `base`. Spaces and a
/// leading marker `0b`, `0x` or `0o` are removed and characters outside the
/// base's digits are dropped; native hexadecimal keeps its first `width / 4`
/// digits. ASCII text is read as `width / 8` printable characters, least
/// significant byte first. `Ok(None)` means that the text gives no update:
/// no digits, a value beyond 64 bits, byte-ordered hexadecimal text without
/// exactly `width / 4` digits, ASCII text of another length or with a
/// character outside codes 32 to 126, or UTF-8, which is only ever shown.
pub fn decode(text: &str, width: u64, base: Base) -> (r: Result<Option<u64>, EngineError>)
    ensures
        r == (if is_valid_width(width) {
            Ok::<Option<u64>, EngineError>(decode_spec(text@, width, base))
        } else {
            Err::<Option<u64>, EngineError>(EngineError::InvalidWidth)
        }),
{
    if let Err(e) = check_width(width) {
        return Err(e);
    }
    let m = mask_for(width);
    let cs = chars_of(text);
    let r = match base {
        Base::Decimal => parse_masked(&retain_digits(&cs, 10), 10, m),
        Base::Binary => parse_masked(&digits_after_marker(&cs, 'b', 2), 2, m),
        Base::HexNative => {
            let mut ds = digits_after_marker(&cs, 'x', 16);
            ds.truncate((width / 4) as usize);
            assert(ds@ =~= first_digits(marked_digits(text@, 'x', 16), width));
            parse_masked(&ds, 16, m)
        },
        Base::Octal => parse_masked(&digits_after_marker(&cs, 'o', 8), 8, m),
        Base::HexBE => parse_hex_bytes(&cs, width, true),
        Base::HexLE => parse_hex_bytes(&cs, width, false),
        Base::Ascii => parse_ascii(&cs, width),
        Base::Utf8 => None,
    };
    Ok(r)
}

/// The views that edited text is read back from: all but UTF-8.
pub open spec fn is_editable(base: Base) -> bool {
    !(base is Utf8)
}

/// Whether every byte of the masked value is printable ASCII, so that its
/// ASCII view shows the bytes themselves.
pub open spec fn ascii_printable(raw: u64, width: u64) -> bool {
    let n = (width / 8) as nat;
    let bs = le_bytes((raw & mask_spec(width)) as nat, n);
    forall|i: int| 0 <= i < n ==> 32 <= #[trigger] bs[i] <= 126
}

/// Text without spaces is left as it is by `without_spaces`.
proof fn lemma_no_spaces(s: Seq<char>)
    requires
        forall|i: int| 0 <= i < s.len() ==> #[trigger] s[i] != ' ',
    ensures
        without_spaces(s) == s,
    decreases s.len(),
{
    if s.len() > 0 {
        lemma_no_spaces(s.drop_last());
        assert(s.drop_last().push(s.last()) =~= s);
    }
}

/// Digits of `base` behind the marker `0c` are read back as exactly those
/// digits.
proof fn lemma_marked_digits(ds: Seq<char>, c: char, base: nat)
    requires
        c != ' ',
        forall|i: int| 0 <= i < ds.len() ==> is_digit_in(#[trigger] ds[i], base),
    ensures
        marked_digits(seq!['0', c] + ds, c, base) == ds,
{
    let t = seq!['0', c] + ds;
    assert forall|i: int| 0 <= i < t.len() implies #[trigger] t[i] != ' ' by {
        if i >= 2 {
            assert(t[i] == ds[i - 2]);
            assert(is_digit_in(ds[i - 2], base));
        }
    }
    lemma_no_spaces(t);
    assert(t.skip(2) =~= ds);
    lemma_keep_all_digits(ds, base);
}

/// The uppercase digits of bytes are hexadecimal digits that decode back to
/// the bytes.
proof fn lemma_hex_upper_decodes(bs: Seq<u8>)
    ensures
        forall|i: int|
            0 <= i < hex_upper(bs).len() ==> is_digit_in(#[trigger] hex_upper(bs)[i], 16),
        hex_decodable(ascii_codes(hex_upper(bs))),
        hex_pairs(ascii_codes(hex_upper(bs))) == bs,
{
    let h = hex_upper(bs);
    let codes = ascii_codes(h);
    assert forall|i: int| 0 <= i < h.len() implies is_digit_in(#[trigger] h[i], 16)
        && is_hex_byte(codes[i]) && hex_byte_value(codes[i]) == (if i % 2 == 0 {
        bs[i / 2] / 16
    } else {
        bs[i / 2] % 16
    }) by {
        let d = if i % 2 == 0 {
            bs[i / 2] / 16
        } else {
            bs[i / 2] % 16
        };
        assert(h[i] == digit_char(d as nat));
        assert(d < 16);
    }
    assert(hex_decodable(codes));
    assert forall|i: int| 0 <= i < bs.len() implies #[trigger] hex_pairs(codes)[i] == bs[i] by {
        assert(0 <= 2 * i < h.len());
        assert(0 <= 2 * i + 1 < h.len());
        assert((2 * i) % 2 == 0);
        assert((2 * i + 1) % 2 == 1);
        assert((2 * i) / 2 == i);
        assert((2 * i + 1) / 2 == i);
        assert(hex_byte_value(codes[2 * i]) == bs[i] / 16);
        assert(hex_byte_value(codes[2 * i + 1]) == bs[i] % 16);
    }
    assert(hex_pairs(codes) =~= bs);
}

/// A masked value fits its width, counted in bits and in bytes, and masking
/// it again changes nothing.
proof fn lemma_masked_fits(raw: u64, width: u64)
    requires
        is_valid_width(width),
    ensures
        (raw & mask_spec(width)) & mask_spec(width) == raw & mask_spec(width),
        (raw & mask_spec(width)) < pow(2, width as nat),
        (raw & mask_spec(width)) < pow(256, (width / 8) as nat),
{
    let m = mask_spec(width);
    assert((raw & m) & m == raw & m) by (bit_vector);
    lemma2_to64();
    lemma_pow2(width as nat);
    lemma_pow256_values();
    if width == 8 {
        assert(raw & 0xFF < 0x100) by (bit_vector);
    } else if width == 16 {
        assert(raw & 0xFFFF < 0x1_0000) by (bit_vector);
    } else if width == 32 {
        assert(raw & 0xFFFF_FFFF < 0x1_0000_0000) by (bit_vector);
    }
}

/// The digit string `ds` of the masked value `v`, behind the marker `0c`,
/// parses back as `v`.
proof fn lemma_digits_round_trip(ds: Seq<char>, v: u64, base: nat, c: char)
    requires
        base == 2 || base == 8 || base == 16,
        c != ' ',
        ds.len() >= 1,
        digits_value(ds, base) == v,
        forall|i: int| 0 <= i < ds.len() ==> is_digit_in(#[trigger] ds[i], base),
    ensures
        parse_spec(marked_digits(seq!['0', c] + ds, c, base), base) == Some(v),
{
    lemma_marked_digits(ds, c, base);
}

/// The marked uppercase text of bytes yields, as edited text, exactly
/// their digits, which decode back to the bytes.
proof fn lemma_hex_text_of_bytes(bs: Seq<u8>)
    ensures
        marked_digits(seq!['0', 'x'] + hex_upper(bs), 'x', 16) == hex_upper(bs),
        hex_upper(bs).len() == 2 * bs.len(),
        hex_decodable(ascii_codes(hex_upper(bs))),
        hex_pairs(ascii_codes(hex_upper(bs))) == bs,
{
    let ds = hex_upper(bs);
    lemma_hex_upper_decodes(bs);
    lemma_marked_digits(ds, 'x', 16);
}

/// The big-endian hexadecimal text of a masked value decodes back to it.
proof fn lemma_hex_be_round_trip(raw: u64, width: u64)
    requires
        is_valid_width(width),
    ensures
        decode_spec(encode_spec(raw, width, Base::HexBE), width, Base::HexBE) == Some(
            raw & mask_spec(width),
        ),
{
    let v = raw & mask_spec(width);
    let n = (width / 8) as nat;
    lemma_masked_fits(raw, width);
    let bs = be_bytes(v as nat, n);
    lemma_be_round_trip(v as nat, n);
    lemma_hex_text_of_bytes(bs);
}

/// The little-endian hexadecimal text of a masked value decodes back to it.
proof fn lemma_hex_le_round_trip(raw: u64, width: u64)
    requires
        is_valid_width(width),
    ensures
        decode_spec(encode_spec(raw, width, Base::HexLE), width, Base::HexLE) == Some(
            raw & mask_spec(width),
        ),
{
    let v = raw & mask_spec(width);
    let n = (width / 8) as nat;
    lemma_masked_fits(raw, width);
    let bs = le_bytes(v as nat, n);
    lemma_le_round_trip(v as nat, n);
    lemma_hex_text_of_bytes(bs);
}

/// The shortest hexadecimal digits of a masked value fit in `width / 4`.
proof fn lemma_hex_digit_count(v: u64, width: u64)
    requires
        is_valid_width(width),
        v < pow(2, width as nat),
    ensures
        digits_of(v as nat, 16).len() <= width / 4,
{
    lemma2_to64();
    lemma_pow2(4);
    lemma_pow_multiplies(2, 4, (width / 4) as nat);
    assert(4 * (width / 4) == width);
    lemma_digits_of_len(v as nat, 16, (width / 4) as nat);
}

/// The ASCII view of a value whose bytes are all printable decodes back to
/// the masked value.
proof fn lemma_ascii_round_trip(raw: u64, width: u64)
    requires
        is_valid_width(width),
        ascii_printable(raw, width),
    ensures
        decode_spec(encode_spec(raw, width, Base::Ascii), width, Base::Ascii) == Some(
            raw & mask_spec(width),
        ),
{
    let v = raw & mask_spec(width);
    let n = (width / 8) as nat;
    lemma_masked_fits(raw, width);
    lemma_le_round_trip(v as nat, n);
    let bs = le_bytes(v as nat, n);
    let text = encode_spec(raw, width, Base::Ascii);
    assert forall|i: int| 0 <= i < text.len() implies is_printable(#[trigger] text[i])
        && ascii_codes(text)[i] == bs[i] by {
        assert(32 <= bs[i] <= 126);
        assert(text[i] == (bs[i] as char));
    }
    assert(ascii_codes(text) =~= bs);
}

/// Decoding the text of a value, in any view that is read back, gives the
/// value masked to the active width; for the ASCII view, when every byte of
/// the masked value is printable.
pub proof fn lemma_decode_encode(raw: u64, width: u64, base: Base)
    requires
        is_valid_width(width),
        is_editable(base),
        base is Ascii ==> ascii_printable(raw, width),
    ensures
        decode_spec(encode_spec(raw, width, base), width, base) == Some(raw & mask_spec(width)),
{
    let m = mask_spec(width);
    let v = raw & m;
    lemma_masked_fits(raw, width);
    match base {
        Base::Decimal => {
            let ds = digits_of(v as nat, 10);
            lemma_digits_of(v as nat, 10);
            lemma_keep_all_digits(ds, 10);
            assert(parse_spec(keep_digits(ds, 10), 10) == Some(v));
        },
        Base::Binary => {
            let ds = fixed_digits(v as nat, 2, width as nat);
            lemma_fixed_digits(v as nat, 2, width as nat);
            lemma_digits_round_trip(ds, v, 2, 'b');
        },
        Base::HexNative => {
            let ds = digits_of(v as nat, 16);
            lemma_digits_of(v as nat, 16);
            lemma_hex_digit_count(v, width);
            lemma_marked_digits(ds, 'x', 16);
            assert(first_digits(ds, width) == ds);
        },
        Base::Octal => {
            let ds = digits_of(v as nat, 8);
            lemma_digits_of(v as nat, 8);
            lemma_digits_round_trip(ds, v, 8, 'o');
        },
        Base::HexBE => {
            lemma_hex_be_round_trip(raw, width);
        },
        Base::HexLE => {
            lemma_hex_le_round_trip(raw, width);
        },
        Base::Ascii => {
            lemma_ascii_round_trip(raw, width);
        },
        Base::Utf8 => {},
    }
}

} // verus!
