//! Room codes: a host's IPv4 address and four-byte room code packed into a
//! short code of the form `TR-` followed by thirteen base-32 characters, and
//! back. The connection states of a session are listed here too; the sockets
//! themselves are driven by the application.
use crate::text::{chars_of, decimal, digit_char, push_all, push_char, push_decimal};
use vstd::prelude::*;
use vstd::utf8::*;

verus! {

/// Where a network session stands.
#[derive(Debug, Clone, PartialEq, Eq)]
pub enum NetworkState {
    Idle,
    DetectingIp,
    Hosting { ip: Option<String> },
    Connecting,
    WaitingForPlayer,
    Connected,
    Error(String),
}

/// Why text is not the decimal form of a byte, as reading a `u8` reports it.
#[derive(Debug, Clone, Copy, PartialEq, Eq, Structural)]
pub enum IntErrorKind {
    /// The text is empty.
    Empty,
    /// A character is not a decimal digit.
    InvalidDigit,
    /// The number is above 255.
    PosOverflow,
}

// ---------------------------------------------------------------------------
// Reading an octet
// ---------------------------------------------------------------------------

pub open spec fn is_ascii_digit(c: char) -> bool {
    '0' <= c && c <= '9'
}

/// Reads decimal digits after the value `acc` read so far, left to right: the
/// first character that is not a digit, or the first digit that takes the
/// value above 255, decides the error.
pub open spec fn digits_value(acc: int, ds: Seq<char>) -> Result<int, IntErrorKind>
    decreases ds.len(),
{
    if ds.len() == 0 {
        Ok(acc)
    } else if !is_ascii_digit(ds[0]) {
        Err(IntErrorKind::InvalidDigit)
    } else if acc * 10 + (ds[0] as int - '0' as int) > 255 {
        Err(IntErrorKind::PosOverflow)
    } else {
        digits_value(acc * 10 + (ds[0] as int - '0' as int), ds.drop_first())
    }
}

/// The byte that the text is the decimal form of: one optional leading `+`,
/// then at least one digit.
pub open spec fn parse_octet(s: Seq<char>) -> Result<u8, IntErrorKind> {
    let r = if s.len() == 0 {
        Err(IntErrorKind::Empty)
    } else if s[0] == '+' {
        if s.len() == 1 {
            Err(IntErrorKind::InvalidDigit)
        } else {
            digits_value(0, s.drop_first())
        }
    } else {
        digits_value(0, s)
    };
    match r {
        Ok(v) => Ok(v as u8),
        Err(e) => Err(e),
    }
}

/// The message that goes with each error.
pub open spec fn int_error_message(e: IntErrorKind) -> Seq<char> {
    match e {
        IntErrorKind::Empty => "cannot parse integer from empty string"@,
        IntErrorKind::InvalidDigit => "invalid digit found in string"@,
        IntErrorKind::PosOverflow => "number too large to fit in target type"@,
    }
}

proof fn lemma_digits_value_bound(acc: int, ds: Seq<char>)
    requires
        0 <= acc <= 255,
    ensures
        digits_value(acc, ds) matches Ok(v) ==> 0 <= v <= 255,
    decreases ds.len(),
{
    if ds.len() > 0 && is_ascii_digit(ds[0]) && acc * 10 + (ds[0] as int - '0' as int) <= 255 {
        lemma_digits_value_bound(acc * 10 + (ds[0] as int - '0' as int), ds.drop_first());
    }
}

fn int_error_text(e: IntErrorKind) -> (s: String)
    ensures
        s@ == int_error_message(e),
{
    match e {
        IntErrorKind::Empty => "cannot parse integer from empty string".to_owned(),
        IntErrorKind::InvalidDigit => "invalid digit found in string".to_owned(),
        IntErrorKind::PosOverflow => "number too large to fit in target type".to_owned(),
    }
}

/// Reads the decimal form of a byte.
pub fn parse_octet_chars(s: &[char]) -> (r: Result<u8, IntErrorKind>)
    ensures
        r == parse_octet(s@),
{
    let n = s.len();
    if n == 0 {
        return Err(IntErrorKind::Empty);
    }
    let mut i: usize = 0;
    if s[0] == '+' {
        if n == 1 {
            return Err(IntErrorKind::InvalidDigit);
        }
        i = 1;
        assert(s@.drop_first() =~= s@.subrange(1, n as int));
    } else {
        assert(s@ =~= s@.subrange(0, n as int));
    }
    let mut acc: u32 = 0;
    while i < n
        invariant
            1 <= n == s.len(),
            0 <= i <= n,
            acc <= 255,
            (if s@[0] == '+' {
                digits_value(0, s@.drop_first())
            } else {
                digits_value(0, s@)
            }) == digits_value(acc as int, s@.subrange(i as int, n as int)),
        decreases n - i,
    {
        let c = s[i];
        assert(s@.subrange(i as int, n as int)[0] == c);
        assert(s@.subrange(i as int, n as int).drop_first() =~= s@.subrange(i + 1, n as int));
        if !('0' <= c && c <= '9') {
            proof {
                lemma_digits_value_bound(0, s@);
            }
            return Err(IntErrorKind::InvalidDigit);
        }
        let d = (c as u32) - ('0' as u32);
        if acc * 10 + d > 255 {
            return Err(IntErrorKind::PosOverflow);
        }
        acc = acc * 10 + d;
        i += 1;
    }
    assert(s@.subrange(n as int, n as int).len() == 0);
    Ok(acc as u8)
}

// ---------------------------------------------------------------------------
// Splitting at dots
// ---------------------------------------------------------------------------

/// The pieces between the dots, as splitting a string at every `.` gives
/// them: `n` dots give `n + 1` pieces, empty ones included.
pub open spec fn split_dots(s: Seq<char>) -> Seq<Seq<char>>
    decreases s.len(),
{
    if s.len() == 0 {
        seq![Seq::<char>::empty()]
    } else {
        let r = split_dots(s.drop_last());
        if s.last() == '.' {
            r.push(Seq::<char>::empty())
        } else {
            r.update(r.len() - 1, r.last().push(s.last()))
        }
    }
}

proof fn lemma_split_dots_nonempty(s: Seq<char>)
    ensures
        split_dots(s).len() >= 1,
    decreases s.len(),
{
    if s.len() > 0 {
        lemma_split_dots_nonempty(s.drop_last());
    }
}

/// Splitting a longer prefix keeps every piece but the last of a shorter one.
proof fn lemma_split_dots_prefix(s: Seq<char>, i: int, j: int)
    requires
        0 <= i <= j <= s.len(),
    ensures
        ({
            let a = split_dots(s.take(i));
            let b = split_dots(s.take(j));
            &&& b.len() >= a.len()
            &&& forall|k: int| 0 <= k < a.len() - 1 ==> b[k] == #[trigger] a[k]
        }),
    decreases j - i,
{
    lemma_split_dots_nonempty(s.take(i));
    if j > i {
        lemma_split_dots_prefix(s, i, j - 1);
        assert(s.take(j).drop_last() =~= s.take(j - 1));
        lemma_split_dots_nonempty(s.take(j - 1));
    }
}

/// Index `k` holds the first piece that is not the decimal form of a byte.
pub open spec fn is_first_bad_octet(segs: Seq<Seq<char>>, k: int) -> bool {
    &&& 0 <= k < segs.len()
    &&& parse_octet(segs[k]) is Err
    &&& forall|j: int| 0 <= j < k ==> (#[trigger] parse_octet(segs[j])) is Ok
}

proof fn lemma_first_bad_unique(segs: Seq<Seq<char>>, a: int, b: int)
    requires
        is_first_bad_octet(segs, a),
        is_first_bad_octet(segs, b),
    ensures
        a == b,
{
    if a < b {
        assert(parse_octet(segs[a]) is Ok);
    } else if b < a {
        assert(parse_octet(segs[b]) is Ok);
    }
}

// ---------------------------------------------------------------------------
// The code alphabet and the packing of bits
// ---------------------------------------------------------------------------

/// The character for a five-bit value: `A` to `Z`, then `2` to `7`.
pub open spec fn code_char(v: int) -> char {
    if v < 26 {
        ('A' as int + v) as char
    } else {
        ('2' as int + v - 26) as char
    }
}

/// The five-bit value of a code character, if it is one.
pub open spec fn code_value(c: char) -> Option<u8> {
    if 'A' <= c && c <= 'Z' {
        Some((c as int - 'A' as int) as u8)
    } else if '2' <= c && c <= '7' {
        Some((c as int - '2' as int + 26) as u8)
    } else {
        None
    }
}

/// The eight bytes as one 64-bit number, most significant first, shifted
/// left by one bit: 65 bits, exactly thirteen groups of five.
pub open spec fn pack_bytes(d: Seq<u8>) -> u128 {
    ((d[0] as u128) << 57u32) | ((d[1] as u128) << 49u32) | ((d[2] as u128) << 41u32) | ((
    d[3] as u128) << 33u32) | ((d[4] as u128) << 25u32) | ((d[5] as u128) << 17u32) | ((
    d[6] as u128) << 9u32) | ((d[7] as u128) << 1u32)
}

/// The `j`-th group of five bits of `x`, most significant first, of thirteen.
pub open spec fn code_digit(x: u128, j: int) -> u128 {
    (x >> ((5 * (12 - j)) as u32)) & 31u128
}

/// The thirteen code characters of `x`.
pub open spec fn code_chars(x: u128) -> Seq<char> {
    Seq::new(13, |j: int| code_char(code_digit(x, j) as int))
}

/// The thirteen five-bit values, most significant first, as one number.
pub open spec fn unpack_values(v: Seq<u8>) -> u128 {
    ((v[0] as u128) << 60u32) | ((v[1] as u128) << 55u32) | ((v[2] as u128) << 50u32) | ((
    v[3] as u128) << 45u32) | ((v[4] as u128) << 40u32) | ((v[5] as u128) << 35u32) | ((
    v[6] as u128) << 30u32) | ((v[7] as u128) << 25u32) | ((v[8] as u128) << 20u32) | ((
    v[9] as u128) << 15u32) | ((v[10] as u128) << 10u32) | ((v[11] as u128) << 5u32) | (
    v[12] as u128)
}

/// The byte at `shift` bits up.
pub open spec fn byte_at(y: u128, shift: u32) -> u8 {
    ((y >> shift) & 0xFFu128) as u8
}

// ---------------------------------------------------------------------------
// Encoding
// ---------------------------------------------------------------------------

/// The prefix every room code starts with.
pub open spec fn code_prefix() -> Seq<char> {
    seq!['T', 'R', '-']
}

/// The dotted text of four octets.
pub open spec fn dotted(o: Seq<u8>) -> Seq<char> {
    decimal(o[0] as nat) + seq!['.'] + decimal(o[1] as nat) + seq!['.'] + decimal(o[2] as nat)
        + seq!['.'] + decimal(o[3] as nat)
}

/// What encoding gives: the first piece of the address that is not a byte,
/// with its error; else an address without exactly four pieces; else a room
/// code whose UTF-8 form is not four bytes long; else the prefix and the
/// thirteen characters of the four address bytes and the four room code
/// bytes.
pub open spec fn encode_result(ip: Seq<char>, room_code: Seq<char>) -> Result<
    Seq<char>,
    Seq<char>,
> {
    let segs = split_dots(ip);
    if exists|k: int| is_first_bad_octet(segs, k) {
        let k = choose|k: int| is_first_bad_octet(segs, k);
        Err(
            "invalid IP octet '"@ + segs[k] + "': "@ + int_error_message(
                parse_octet(segs[k])->Err_0,
            ),
        )
    } else if segs.len() != 4 {
        Err("IP must have exactly 4 octets"@)
    } else if encode_utf8(room_code).len() != 4 {
        Err("room code must be exactly 4 characters"@)
    } else {
        let octets = Seq::new(4, |k: int| parse_octet(segs[k])->Ok_0);
        Ok(code_prefix() + code_chars(pack_bytes(octets + encode_utf8(room_code))))
    }
}

/// A string result as text.
pub open spec fn text_result(r: Result<String, String>) -> Result<Seq<char>, Seq<char>> {
    match r {
        Ok(s) => Ok(s@),
        Err(e) => Err(e@),
    }
}

fn code_char_of(v: u128) -> (c: char)
    requires
        v < 32,
    ensures
        c == code_char(v as int),
{
    let b = v as u8;
    if b < 26 {
        (65u8 + b) as char
    } else {
        (50u8 + b - 26) as char
    }
}

fn ip_octets(ip: &[char]) -> (r: Result<Vec<u8>, String>)
    ensures
        ({
            let segs = split_dots(ip@);
            match r {
                Ok(o) => {
                    &&& !exists|k: int| is_first_bad_octet(segs, k)
                    &&& o@.len() == segs.len()
                    &&& forall|k: int| 0 <= k < segs.len() ==> parse_octet(segs[k]) == Ok::<
                        u8,
                        IntErrorKind,
                    >(#[trigger] o@[k])
                },
                Err(e) => exists|k: int|
                    is_first_bad_octet(segs, k) && e@ == "invalid IP octet '"@ + segs[k] + "': "@
                        + int_error_message(parse_octet(segs[k])->Err_0),
            }
        }),
{
    let n = ip.len();
    let mut octets: Vec<u8> = Vec::new();
    let mut cur: Vec<char> = Vec::new();
    let mut i: usize = 0;
    let mut finished = false;
    while !finished
        invariant
            0 <= i <= n,
            n == ip.len(),
            ({
                let segs = split_dots(ip@.take(i as int));
                &&& !finished ==> octets@.len() + 1 == segs.len()
                &&& !finished ==> cur@ == segs.last()
                &&& forall|k: int|
                    0 <= k < octets@.len() ==> parse_octet(segs[k]) == Ok::<u8, IntErrorKind>(
                        #[trigger] octets@[k],
                    )
                &&& finished ==> i == n && octets@.len() == segs.len()
            }),
        decreases n - i + (if finished { 0int } else { 1int }),
    {
        let ghost before = split_dots(ip@.take(i as int));
        proof {
            lemma_split_dots_nonempty(ip@.take(i as int));
        }
        if i == n || ip[i] == '.' {
            match parse_octet_chars(cur.as_slice()) {
                Ok(v) => {
                    octets.push(v);
                },
                Err(e) => {
                    let mut msg = "invalid IP octet '".to_owned();
                    push_all(&mut msg, cur.as_slice());
                    let tail = "': ".to_owned();
                    let tail_chars = chars_of(tail.as_str());
                    push_all(&mut msg, tail_chars.as_slice());
                    let etext = int_error_text(e);
                    let echars = chars_of(etext.as_str());
                    push_all(&mut msg, echars.as_slice());
                    proof {
                        let k = before.len() - 1;
                        let segs = split_dots(ip@);
                        assert(ip@.take(n as int) =~= ip@);
                        if i < n {
                            assert(ip@.take(i + 1).drop_last() =~= ip@.take(i as int));
                            assert(ip@.take(i + 1).last() == '.');
                            let a2 = split_dots(ip@.take(i + 1));
                            assert(a2 == before.push(Seq::<char>::empty()));
                            lemma_split_dots_prefix(ip@, i + 1, n as int);
                            assert forall|j: int| 0 <= j <= k implies segs[j] == before[j] by {
                                assert(a2[j] == before[j]);
                            }
                        } else {
                            assert(segs == before);
                        }
                        assert(segs[k] == cur@);
                        assert forall|j: int| 0 <= j < k implies (#[trigger] parse_octet(
                            segs[j],
                        )) is Ok by {
                            assert(segs[j] == before[j]);
                            assert(parse_octet(before[j]) == Ok::<u8, IntErrorKind>(octets@[j]));
                        }
                        assert(is_first_bad_octet(segs, k));
                    }
                    return Err(msg);
                },
            }
            if i < n {
                cur = Vec::new();
                assert(ip@.take(i + 1).drop_last() =~= ip@.take(i as int));
                i += 1;
            } else {
                finished = true;
            }
        } else {
            cur.push(ip[i]);
            assert(ip@.take(i + 1).drop_last() =~= ip@.take(i as int));
            i += 1;
        }
    }
    assert(ip@.take(n as int) =~= ip@);
    proof {
        let segs = split_dots(ip@);
        assert forall|k: int| !is_first_bad_octet(segs, k) by {
            if 0 <= k < octets@.len() {
                assert(parse_octet(segs[k]) == Ok::<u8, IntErrorKind>(octets@[k]));
            }
        }
    }
    Ok(octets)
}

/// Packs an IPv4 address in dotted form and a four-byte room code into a
/// code: `TR-` and thirteen characters from `A`-`Z` and `2`-`7`, five bits
/// each, of the four address bytes, the four room code bytes and one zero bit.
pub fn encode_room_code(ip: &str, room_code: &str) -> (r: Result<String, String>)
    ensures
        text_result(r) == encode_result(ip@, room_code@),
{
    let ip_chars = chars_of(ip);
    let ghost segs = split_dots(ip@);
    let octets = match ip_octets(ip_chars.as_slice()) {
        Ok(o) => o,
        Err(e) => {
            proof {
                let k = choose|k: int|
                    is_first_bad_octet(segs, k) && e@ == "invalid IP octet '"@ + segs[k] + "': "@
                        + int_error_message(parse_octet(segs[k])->Err_0);
                let k2 = choose|k: int| is_first_bad_octet(segs, k);
                lemma_first_bad_unique(segs, k, k2);
            }
            return Err(e);
        },
    };
    if octets.len() != 4 {
        return Err("IP must have exactly 4 octets".to_owned());
    }
    let code_bytes = room_code.as_bytes();
    if code_bytes.len() != 4 {
        return Err("room code must be exactly 4 characters".to_owned());
    }
    let bits: u128 = ((octets[0] as u128) << 57u32) | ((octets[1] as u128) << 49u32) | ((
    octets[2] as u128) << 41u32) | ((octets[3] as u128) << 33u32) | ((code_bytes[0] as u128)
        << 25u32) | ((code_bytes[1] as u128) << 17u32) | ((code_bytes[2] as u128) << 9u32) | ((
    code_bytes[3] as u128) << 1u32);
    let ghost data = Seq::new(4, |k: int| parse_octet(segs[k])->Ok_0) + encode_utf8(room_code@);
    proof {
        assert(Seq::new(4, |k: int| parse_octet(segs[k])->Ok_0) =~= octets@);
        assert(data =~= octets@ + code_bytes@);
        assert(bits == pack_bytes(data));
    }
    let mut encoded = String::new();
    push_char(&mut encoded, 'T');
    push_char(&mut encoded, 'R');
    push_char(&mut encoded, '-');
    let mut i: usize = 0;
    while i < 13
        invariant
            0 <= i <= 13,
            encoded@ == code_prefix() + Seq::new(
                i as nat,
                |j: int| code_char(code_digit(bits, j) as int),
            ),
        decreases 13 - i,
    {
        let shift: u32 = (5 * (12 - i)) as u32;
        let idx: u128 = (bits >> shift) & 0x1Fu128;
        assert(idx < 32) by (bit_vector)
            requires
                idx == (bits >> shift) & 0x1Fu128,
        ;
        let c = code_char_of(idx);
        push_char(&mut encoded, c);
        assert(Seq::new((i + 1) as nat, |j: int| code_char(code_digit(bits, j) as int)) =~= Seq::new(
            i as nat,
            |j: int| code_char(code_digit(bits, j) as int),
        ).push(c));
        i += 1;
    }
    assert(encoded@ =~= code_prefix() + code_chars(bits));
    Ok(encoded)
}

// ---------------------------------------------------------------------------
// Decoding
// ---------------------------------------------------------------------------

/// White space as `str::trim` removes it: the characters with the Unicode
/// White_Space property.
pub open spec fn is_whitespace(c: char) -> bool {
    ||| '\u{9}' <= c && c <= '\u{d}'
    ||| c == ' '
    ||| c == '\u{85}'
    ||| c == '\u{a0}'
    ||| c == '\u{1680}'
    ||| '\u{2000}' <= c && c <= '\u{200a}'
    ||| c == '\u{2028}'
    ||| c == '\u{2029}'
    ||| c == '\u{202f}'
    ||| c == '\u{205f}'
    ||| c == '\u{3000}'
}

/// The text without its leading white space.
pub open spec fn trim_start(s: Seq<char>) -> Seq<char>
    decreases s.len(),
{
    if s.len() > 0 && is_whitespace(s[0]) {
        trim_start(s.drop_first())
    } else {
        s
    }
}

/// The text without its trailing white space.
pub open spec fn trim_end(s: Seq<char>) -> Seq<char>
    decreases s.len(),
{
    if s.len() > 0 && is_whitespace(s.last()) {
        trim_end(s.drop_last())
    } else {
        s
    }
}

/// Index `k` holds the first character that is not a code character.
pub open spec fn is_first_invalid(s: Seq<char>, k: int) -> bool {
    &&& 0 <= k < s.len()
    &&& code_value(s[k]) is None
    &&& forall|j: int| 0 <= j < k ==> (#[trigger] code_value(s[j])) is Some
}

/// The dotted address held in the top four bytes of `y`.
pub open spec fn ip_text(y: u128) -> Seq<char> {
    decimal(byte_at(y, 56) as nat) + seq!['.'] + decimal(byte_at(y, 48) as nat) + seq!['.']
        + decimal(byte_at(y, 40) as nat) + seq!['.'] + decimal(byte_at(y, 32) as nat)
}

/// The room code held in the low four bytes of `y`, one character per byte.
pub open spec fn room_text(y: u128) -> Seq<char> {
    seq![
        byte_at(y, 24) as char,
        byte_at(y, 16) as char,
        byte_at(y, 8) as char,
        byte_at(y, 0) as char,
    ]
}

/// What decoding gives: after white space is trimmed from both ends, a code
/// that does not start with `TR-`; else a rest whose UTF-8 form is not
/// thirteen bytes long; else the first character that is not a code
/// character; else the address and room code held in the 64 bits above the
/// lowest of the 65 that the characters spell.
pub open spec fn decode_result(code: Seq<char>) -> Result<(Seq<char>, Seq<char>), Seq<char>> {
    let t = trim_end(trim_start(code));
    if !(t.len() >= 3 && t.take(3) == code_prefix()) {
        Err("code must start with 'TR-'"@)
    } else {
        let rest = t.skip(3);
        let n = encode_utf8(rest).len();
        if n != 13 {
            Err("code must be 13 characters after prefix, got "@ + decimal(n))
        } else if exists|k: int| is_first_invalid(rest, k) {
            let k = choose|k: int| is_first_invalid(rest, k);
            Err("invalid character '"@ + seq![rest[k]] + "' in code"@)
        } else {
            let y = unpack_values(Seq::new(13, |j: int| code_value(rest[j])->Some_0)) >> 1u32;
            Ok((ip_text(y), room_text(y)))
        }
    }
}

/// A pair-of-strings result as text.
pub open spec fn pair_result(r: Result<(String, String), String>) -> Result<
    (Seq<char>, Seq<char>),
    Seq<char>,
> {
    match r {
        Ok((a, b)) => Ok((a@, b@)),
        Err(e) => Err(e@),
    }
}

pub(crate) fn is_whitespace_char(c: char) -> (b: bool)
    ensures
        b == is_whitespace(c),
{
    ('\u{9}' <= c && c <= '\u{d}') || c == ' ' || c == '\u{85}' || c == '\u{a0}' || c
        == '\u{1680}' || ('\u{2000}' <= c && c <= '\u{200a}') || c == '\u{2028}' || c
        == '\u{2029}' || c == '\u{202f}' || c == '\u{205f}' || c == '\u{3000}'
}

/// The bounds of the text left after trimming white space from both ends.
fn trim_bounds(cs: &[char]) -> (r: (usize, usize))
    ensures
        r.0 <= r.1 <= cs.len(),
        cs@.subrange(r.0 as int, r.1 as int) == trim_end(trim_start(cs@)),
{
    let n = cs.len();
    let mut s: usize = 0;
    assert(cs@.subrange(0, n as int) =~= cs@);
    while s < n && is_whitespace_char(cs[s])
        invariant
            0 <= s <= n == cs.len(),
            trim_start(cs@) == trim_start(cs@.subrange(s as int, n as int)),
        decreases n - s,
    {
        assert(cs@.subrange(s as int, n as int).drop_first() =~= cs@.subrange(s + 1, n as int));
        s += 1;
    }
    let mut e: usize = n;
    while e > s && is_whitespace_char(cs[e - 1])
        invariant
            0 <= s <= e <= n == cs.len(),
            trim_end(cs@.subrange(s as int, n as int)) == trim_end(cs@.subrange(s as int, e as int)),
        decreases e - s,
    {
        assert(cs@.subrange(s as int, e as int).drop_last() =~= cs@.subrange(s as int, e - 1));
        e -= 1;
    }
    (s, e)
}

/// The number of bytes of a character in UTF-8.
pub open spec fn utf8_width(c: char) -> nat {
    if (c as u32) <= 0x7F {
        1
    } else if (c as u32) <= 0x7FF {
        2
    } else if (c as u32) <= 0xFFFF {
        3
    } else {
        4
    }
}

proof fn lemma_utf8_width(c: char)
    ensures
        encode_scalar(c as u32).len() == utf8_width(c),
{
    char_is_scalar(c);
}

/// The length in bytes of the UTF-8 form of `cs[from..to]`.
fn utf8_len(cs: &[char], from: usize, to: usize) -> (n: u128)
    requires
        from <= to <= cs.len(),
    ensures
        n == encode_utf8(cs@.subrange(from as int, to as int)).len(),
{
    let mut n: u128 = 0;
    let mut i: usize = to;
    assert(cs@.subrange(to as int, to as int).len() == 0);
    while i > from
        invariant
            from <= i <= to <= cs.len(),
            n == encode_utf8(cs@.subrange(i as int, to as int)).len(),
            n <= 4 * (to - i),
        decreases i - from,
    {
        let c = cs[i - 1];
        let u = c as u32;
        let w: u128 = if u <= 0x7F {
            1
        } else if u <= 0x7FF {
            2
        } else if u <= 0xFFFF {
            3
        } else {
            4
        };
        proof {
            lemma_utf8_width(c);
            let t = cs@.subrange(i - 1, to as int);
            assert(t.drop_first() =~= cs@.subrange(i as int, to as int));
            assert(t[0] == c);
        }
        n = n + w;
        i -= 1;
    }
    n
}

fn code_value_of(c: char) -> (v: Option<u8>)
    ensures
        v == code_value(c),
{
    if 'A' <= c && c <= 'Z' {
        Some(((c as u32) - ('A' as u32)) as u8)
    } else if '2' <= c && c <= '7' {
        Some(((c as u32) - ('2' as u32) + 26) as u8)
    } else {
        None
    }
}

/// Recovers the IPv4 address and room code that a code was made of. White
/// space around the code is ignored.
pub fn decode_room_code(code: &str) -> (r: Result<(String, String), String>)
    ensures
        pair_result(r) == decode_result(code@),
{
    let cs = chars_of(code);
    let (start, end) = trim_bounds(cs.as_slice());
    let ghost t = trim_end(trim_start(code@));
    if end - start < 3 || cs[start] != 'T' || cs[start + 1] != 'R' || cs[start + 2] != '-' {
        proof {
            if t.len() >= 3 {
                assert(t[0] == cs@[start as int]);
                assert(t[1] == cs@[start + 1]);
                assert(t[2] == cs@[start + 2]);
                if t.take(3) == code_prefix() {
                    assert(t.take(3)[0] == 'T');
                    assert(t.take(3)[1] == 'R');
                    assert(t.take(3)[2] == '-');
                }
            }
        }
        return Err("code must start with 'TR-'".to_owned());
    }
    assert(t.take(3) =~= code_prefix());
    let from = start + 3;
    let ghost rest = t.skip(3);
    assert(rest =~= cs@.subrange(from as int, end as int));
    let n = utf8_len(cs.as_slice(), from, end);
    if n != 13 {
        let mut msg = "code must be 13 characters after prefix, got ".to_owned();
        push_decimal(&mut msg, n);
        return Err(msg);
    }
    let mut vals: Vec<u8> = Vec::new();
    let mut i: usize = from;
    while i < end
        invariant
            from <= i <= end <= cs.len(),
            rest == cs@.subrange(from as int, end as int),
            t == trim_end(trim_start(code@)),
            t.len() >= 3 && t.take(3) == code_prefix(),
            rest == t.skip(3),
            encode_utf8(rest).len() == 13,
            vals@.len() == i - from,
            forall|j: int|
                0 <= j < vals@.len() ==> code_value(rest[j]) == Some::<u8>(#[trigger] vals@[j]),
        decreases end - i,
    {
        let c = cs[i];
        assert(rest[i - from] == c);
        match code_value_of(c) {
            Some(v) => {
                vals.push(v);
            },
            None => {
                let mut msg = "invalid character '".to_owned();
                push_char(&mut msg, c);
                let tail = "' in code".to_owned();
                let tail_chars = chars_of(tail.as_str());
                push_all(&mut msg, tail_chars.as_slice());
                proof {
                    let k = i - from;
                    assert forall|j: int| 0 <= j < k implies (#[trigger] code_value(
                        rest[j],
                    )) is Some by {
                        assert(code_value(rest[j]) == Some::<u8>(vals@[j]));
                    }
                    assert(is_first_invalid(rest, k));
                    let k2 = choose|k: int| is_first_invalid(rest, k);
                    if k2 < k {
                        assert(code_value(rest[k2]) is Some);
                    } else if k < k2 {
                        assert(code_value(rest[k]) is Some);
                    }
                    assert(k2 == k);
                    assert(msg@ =~= "invalid character '"@ + seq![rest[k]] + "' in code"@);
                }
                return Err(msg);
            },
        }
        i += 1;
    }
    proof {
        assert forall|k: int| !is_first_invalid(rest, k) by {
            if 0 <= k < rest.len() {
                assert(code_value(rest[k]) == Some::<u8>(vals@[k]));
            }
        }
        assert forall|j: int| 0 <= j < rest.len() implies '\0' <= #[trigger] rest[j] <= '\u{7f}' by {
            assert(code_value(rest[j]) == Some::<u8>(vals@[j]));
        }
        is_ascii_chars_encode_utf8(rest);
        assert(Seq::new(13, |j: int| code_value(rest[j])->Some_0) =~= vals@);
    }
    let x: u128 = ((vals[0] as u128) << 60u32) | ((vals[1] as u128) << 55u32) | ((vals[2] as u128)
        << 50u32) | ((vals[3] as u128) << 45u32) | ((vals[4] as u128) << 40u32) | ((
    vals[5] as u128) << 35u32) | ((vals[6] as u128) << 30u32) | ((vals[7] as u128) << 25u32) | ((
    vals[8] as u128) << 20u32) | ((vals[9] as u128) << 15u32) | ((vals[10] as u128) << 10u32) | ((
    vals[11] as u128) << 5u32) | (vals[12] as u128);
    let y = x >> 1u32;
    let mut ip = String::new();
    push_decimal(&mut ip, (y >> 56u32) & 0xFFu128);
    push_char(&mut ip, '.');
    push_decimal(&mut ip, (y >> 48u32) & 0xFFu128);
    push_char(&mut ip, '.');
    push_decimal(&mut ip, (y >> 40u32) & 0xFFu128);
    push_char(&mut ip, '.');
    push_decimal(&mut ip, (y >> 32u32) & 0xFFu128);
    let mut room = String::new();
    push_char(&mut room, (((y >> 24u32) & 0xFFu128) as u8) as char);
    push_char(&mut room, (((y >> 16u32) & 0xFFu128) as u8) as char);
    push_char(&mut room, (((y >> 8u32) & 0xFFu128) as u8) as char);
    push_char(&mut room, ((y & 0xFFu128) as u8) as char);
    proof {
        assert(y >> 0u32 == y) by (bit_vector);
        assert(((y >> 56u32) & 0xFFu128) < 256) by (bit_vector);
        assert(((y >> 48u32) & 0xFFu128) < 256) by (bit_vector);
        assert(((y >> 40u32) & 0xFFu128) < 256) by (bit_vector);
        assert(((y >> 32u32) & 0xFFu128) < 256) by (bit_vector);
        assert(ip@ =~= ip_text(y));
        assert(room@ =~= room_text(y));
    }
    Ok((ip, room))
}

// ---------------------------------------------------------------------------
// Decoding undoes encoding
// ---------------------------------------------------------------------------

/// Text with no dot in it.
pub open spec fn no_dots(q: Seq<char>) -> bool {
    forall|i: int| 0 <= i < q.len() ==> q[i] != '.'
}

proof fn lemma_split_dots_append(p: Seq<char>, q: Seq<char>)
    requires
        no_dots(q),
    ensures
        split_dots(p + q) == split_dots(p).update(
            split_dots(p).len() - 1,
            split_dots(p).last() + q,
        ),
    decreases q.len(),
{
    lemma_split_dots_nonempty(p);
    if q.len() == 0 {
        assert(p + q =~= p);
        assert(split_dots(p).last() + q =~= split_dots(p).last());
        assert(split_dots(p).update(split_dots(p).len() - 1, split_dots(p).last())
            =~= split_dots(p));
    } else {
        let q0 = q.drop_last();
        assert(no_dots(q0)) by {
            assert forall|i: int| 0 <= i < q0.len() implies q0[i] != '.' by {
                assert(q0[i] == q[i]);
            }
        }
        lemma_split_dots_append(p, q0);
        assert((p + q).drop_last() =~= p + q0);
        assert((p + q).last() == q.last());
        assert(q.last() == q[q.len() - 1]);
        assert(q.last() != '.');
        let r = split_dots(p + q0);
        assert(split_dots(p + q) == r.update(r.len() - 1, r.last().push(q.last())));
        let sp = split_dots(p);
        assert(r.len() == sp.len());
        assert(r.last() == sp.last() + q0);
        assert((sp.last() + q0).push(q.last()) =~= sp.last() + q);
        assert(split_dots(p).last() + q0 + seq![q.last()] =~= split_dots(p).last() + q);
        assert(split_dots(p + q) =~= split_dots(p).update(
            split_dots(p).len() - 1,
            split_dots(p).last() + q,
        ));
    }
}

proof fn lemma_split_dots_piece(p: Seq<char>, q: Seq<char>)
    requires
        no_dots(q),
    ensures
        split_dots(p + seq!['.'] + q) == split_dots(p).push(q),
{
    let p1 = p + seq!['.'];
    assert(p1.drop_last() =~= p);
    assert(split_dots(p1) == split_dots(p).push(Seq::<char>::empty()));
    lemma_split_dots_append(p1, q);
    assert(Seq::<char>::empty() + q =~= q);
    assert(split_dots(p1).update(split_dots(p1).len() - 1, split_dots(p1).last() + q)
        =~= split_dots(p).push(q));
}

proof fn lemma_decimal_digits(n: nat)
    ensures
        forall|i: int| 0 <= i < decimal(n).len() ==> '0' <= #[trigger] decimal(n)[i] <= '9',
        decimal(n).len() >= 1,
    decreases n,
{
    if n >= 10 {
        lemma_decimal_digits(n / 10);
    }
}

proof fn lemma_digit_char(d: int)
    requires
        0 <= d < 10,
    ensures
        is_ascii_digit(digit_char(d)),
        digit_char(d) as int - '0' as int == d,
{
}

/// Reading the decimal form of a byte gives the byte back.
proof fn lemma_parse_decimal(n: u8)
    ensures
        parse_octet(decimal(n as nat)) == Ok::<u8, IntErrorKind>(n),
{
    let m = n as nat;
    lemma_decimal_digits(m);
    if m < 10 {
        let s = decimal(m);
        assert(s =~= seq![digit_char(m as int)]);
        lemma_digit_char(m as int);
        assert(s.drop_first() =~= Seq::<char>::empty());
        assert(digits_value(m as int, Seq::<char>::empty()) == Ok::<int, IntErrorKind>(m as int));
        assert(digits_value(0, s) == Ok::<int, IntErrorKind>(m as int));
    } else if m < 100 {
        let a = (m / 10) as int;
        let b = (m % 10) as int;
        assert(decimal(m / 10) =~= seq![digit_char(a)]);
        let s = decimal(m);
        assert(s =~= seq![digit_char(a), digit_char(b)]);
        lemma_digit_char(a);
        lemma_digit_char(b);
        let s1 = s.drop_first();
        assert(s1 =~= seq![digit_char(b)]);
        assert(s1.drop_first() =~= Seq::<char>::empty());
        assert(digits_value(a * 10 + b, Seq::<char>::empty()) == Ok::<int, IntErrorKind>(m as int));
        assert(digits_value(a, s1) == Ok::<int, IntErrorKind>(m as int));
        assert(digits_value(0, s) == Ok::<int, IntErrorKind>(m as int));
    } else {
        let a = (m / 100) as int;
        let b = ((m / 10) % 10) as int;
        let c = (m % 10) as int;
        assert(m / 10 / 10 == a);
        assert(decimal((m / 10) / 10) =~= seq![digit_char(a)]);
        assert(decimal(m / 10) =~= seq![digit_char(a), digit_char(b)]);
        let s = decimal(m);
        assert(s =~= seq![digit_char(a), digit_char(b), digit_char(c)]);
        lemma_digit_char(a);
        lemma_digit_char(b);
        lemma_digit_char(c);
        let s1 = s.drop_first();
        let s2 = s1.drop_first();
        assert(s1 =~= seq![digit_char(b), digit_char(c)]);
        assert(s2 =~= seq![digit_char(c)]);
        assert(s2.drop_first() =~= Seq::<char>::empty());
        assert((a * 10 + b) * 10 + c == m);
        assert(digits_value(m as int, Seq::<char>::empty()) == Ok::<int, IntErrorKind>(m as int));
        assert(digits_value(a * 10 + b, s2) == Ok::<int, IntErrorKind>(m as int));
        assert(digits_value(a, s1) == Ok::<int, IntErrorKind>(m as int));
        assert(digits_value(0, s) == Ok::<int, IntErrorKind>(m as int));
    }
}

proof fn lemma_dotted_pieces(o: Seq<u8>)
    requires
        o.len() == 4,
    ensures
        split_dots(dotted(o)) == seq![
            decimal(o[0] as nat),
            decimal(o[1] as nat),
            decimal(o[2] as nat),
            decimal(o[3] as nat),
        ],
{
    let d0 = decimal(o[0] as nat);
    let d1 = decimal(o[1] as nat);
    let d2 = decimal(o[2] as nat);
    let d3 = decimal(o[3] as nat);
    lemma_decimal_digits(o[0] as nat);
    lemma_decimal_digits(o[1] as nat);
    lemma_decimal_digits(o[2] as nat);
    lemma_decimal_digits(o[3] as nat);
    assert(no_dots(d0));
    assert(no_dots(d1));
    assert(no_dots(d2));
    assert(no_dots(d3));
    lemma_split_dots_append(Seq::<char>::empty(), d0);
    assert(Seq::<char>::empty() + d0 =~= d0);
    assert(split_dots(Seq::<char>::empty()).last() + d0 =~= d0);
    assert(split_dots(d0) =~= seq![d0]);
    lemma_split_dots_piece(d0, d1);
    lemma_split_dots_piece(d0 + seq!['.'] + d1, d2);
    lemma_split_dots_piece(d0 + seq!['.'] + d1 + seq!['.'] + d2, d3);
    assert(split_dots(dotted(o)) =~= seq![d0, d1, d2, d3]);
}

proof fn lemma_code_char_value(v: int)
    requires
        0 <= v < 32,
    ensures
        code_value(code_char(v)) == Some::<u8>(v as u8),
        !is_whitespace(code_char(v)),
        '\0' <= code_char(v) <= '\u{7f}',
{
}

/// Splitting 65 bits into thirteen groups of five and joining them again
/// gives the same bits; the eight bytes sit one bit up.
proof fn lemma_pack_unpack(d0: u8, d1: u8, d2: u8, d3: u8, d4: u8, d5: u8, d6: u8, d7: u8, x: u128)
    by (bit_vector)
    requires
        x == ((d0 as u128) << 57u32) | ((d1 as u128) << 49u32) | ((d2 as u128) << 41u32) | ((
        d3 as u128) << 33u32) | ((d4 as u128) << 25u32) | ((d5 as u128) << 17u32) | ((
        d6 as u128) << 9u32) | ((d7 as u128) << 1u32),
    ensures
        ((((x >> 60u32) & 31u128) << 60u32) | (((x >> 55u32) & 31u128) << 55u32) | (((x
            >> 50u32) & 31u128) << 50u32) | (((x >> 45u32) & 31u128) << 45u32) | (((x >> 40u32)
            & 31u128) << 40u32) | (((x >> 35u32) & 31u128) << 35u32) | (((x >> 30u32) & 31u128)
            << 30u32) | (((x >> 25u32) & 31u128) << 25u32) | (((x >> 20u32) & 31u128) << 20u32)
            | (((x >> 15u32) & 31u128) << 15u32) | (((x >> 10u32) & 31u128) << 10u32) | (((x
            >> 5u32) & 31u128) << 5u32) | ((x >> 0u32) & 31u128)) == x,
        (((x >> 1u32) >> 56u32) & 0xFFu128) == d0 as u128,
        (((x >> 1u32) >> 48u32) & 0xFFu128) == d1 as u128,
        (((x >> 1u32) >> 40u32) & 0xFFu128) == d2 as u128,
        (((x >> 1u32) >> 32u32) & 0xFFu128) == d3 as u128,
        (((x >> 1u32) >> 24u32) & 0xFFu128) == d4 as u128,
        (((x >> 1u32) >> 16u32) & 0xFFu128) == d5 as u128,
        (((x >> 1u32) >> 8u32) & 0xFFu128) == d6 as u128,
        (((x >> 1u32) >> 0u32) & 0xFFu128) == d7 as u128,
{
}

/// Decoding the code made of an address in dotted decimal form and a room
/// code of four ASCII characters gives back that address and that room code.
pub proof fn lemma_room_code_roundtrip(octets: Seq<u8>, room_code: Seq<char>)
    requires
        octets.len() == 4,
        room_code.len() == 4,
        is_ascii_chars(room_code),
    ensures
        encode_result(dotted(octets), room_code) is Ok,
        decode_result(encode_result(dotted(octets), room_code)->Ok_0) == Ok::<
            (Seq<char>, Seq<char>),
            Seq<char>,
        >((dotted(octets), room_code)),
{
    let ip = dotted(octets);
    let segs = split_dots(ip);
    lemma_dotted_pieces(octets);
    lemma_parse_decimal(octets[0]);
    lemma_parse_decimal(octets[1]);
    lemma_parse_decimal(octets[2]);
    lemma_parse_decimal(octets[3]);
    assert forall|k: int| !is_first_bad_octet(segs, k) by {
        if 0 <= k < 4 {
            assert(parse_octet(segs[k]) == Ok::<u8, IntErrorKind>(octets[k]));
        }
    }
    is_ascii_chars_encode_utf8(room_code);
    let rb = encode_utf8(room_code);
    let oct = Seq::new(4, |k: int| parse_octet(segs[k])->Ok_0);
    assert(oct =~= octets);
    let data = oct + rb;
    let x = pack_bytes(data);
    let code = code_prefix() + code_chars(x);
    assert(encode_result(ip, room_code) == Ok::<Seq<char>, Seq<char>>(code));
    lemma_pack_unpack(
        data[0],
        data[1],
        data[2],
        data[3],
        data[4],
        data[5],
        data[6],
        data[7],
        x,
    );
    // The code has no white space at either end.
    assert(code[0] == 'T');
    assert(trim_start(code) == code);
    let rest = code_chars(x);
    assert forall|j: int| 0 <= j < 13 implies code_digit(x, j) < 32 by {
        let sh = (5 * (12 - j)) as u32;
        assert((x >> sh) & 31u128 < 32) by (bit_vector);
    }
    assert forall|j: int| 0 <= j < 13 implies code_value(#[trigger] rest[j]) == Some::<u8>(
        code_digit(x, j) as u8,
    ) && '\0' <= rest[j] <= '\u{7f}' by {
        lemma_code_char_value(code_digit(x, j) as int);
    }
    lemma_code_char_value(code_digit(x, 12) as int);
    assert(code.last() == rest[12]);
    assert(trim_end(code) == code);
    assert(code.take(3) =~= code_prefix());
    assert(code.skip(3) =~= rest);
    assert(is_ascii_chars(rest));
    is_ascii_chars_encode_utf8(rest);
    assert forall|k: int| !is_first_invalid(rest, k) by {
        if 0 <= k < 13 {
            assert(code_value(rest[k]) is Some);
        }
    }
    let vals = Seq::new(13, |j: int| code_value(rest[j])->Some_0);
    assert(unpack_values(vals) == x);
    let y = x >> 1u32;
    assert(y >> 0u32 == y) by (bit_vector);
    assert(ip_text(y) =~= ip);
    assert(room_text(y) =~= room_code);
}

// ---------------------------------------------------------------------------
// The public address service's reply
// ---------------------------------------------------------------------------

/// What follows the first line that holds only white space: the body of an
/// HTTP reply after its headers. `blank` says whether the current line has
/// held only white space so far. Without such a line there is no body.
pub open spec fn after_blank_line(s: Seq<char>, blank: bool) -> Seq<char>
    decreases s.len(),
{
    if s.len() == 0 {
        Seq::<char>::empty()
    } else {
        let c = s[0];
        let still_blank = blank && is_whitespace(c);
        if c == '\n' {
            if still_blank {
                s.drop_first()
            } else {
                after_blank_line(s.drop_first(), true)
            }
        } else {
            after_blank_line(s.drop_first(), still_blank)
        }
    }
}

/// The address in a reply of the public address service: its body with white
/// space trimmed, unless that is empty or holds a `<`, as an error page does.
pub open spec fn ip_reply_result(reply: Seq<char>) -> Result<Seq<char>, Seq<char>> {
    let ip = trim_end(trim_start(after_blank_line(reply, true)));
    if ip.len() == 0 || ip.contains('<') {
        Err("Invalid IP response"@)
    } else {
        Ok(ip)
    }
}

/// Reads the public address out of the service's whole reply, headers and
/// body.
pub fn parse_ip_reply(reply: &str) -> (r: Result<String, String>)
    ensures
        text_result(r) == ip_reply_result(reply@),
{
    let cs = chars_of(reply);
    let n = cs.len();
    let mut i: usize = 0;
    let mut blank = true;
    let mut found = false;
    assert(cs@.subrange(0, n as int) =~= cs@);
    while i < n && !found
        invariant
            0 <= i <= n == cs.len(),
            cs@ == reply@,
            !found ==> after_blank_line(reply@, true) == after_blank_line(
                cs@.subrange(i as int, n as int),
                blank,
            ),
            found ==> after_blank_line(reply@, true) == cs@.subrange(i as int, n as int),
        decreases n - i + (if found { 0int } else { 1int }),
    {
        let c = cs[i];
        let ghost t = cs@.subrange(i as int, n as int);
        assert(t[0] == c);
        assert(t.drop_first() =~= cs@.subrange(i + 1, n as int));
        let still_blank = blank && is_whitespace_char(c);
        if c == '\n' {
            if still_blank {
                found = true;
            } else {
                blank = true;
            }
        } else {
            blank = still_blank;
        }
        i += 1;
    }
    let mut body: Vec<char> = Vec::new();
    let ghost b = after_blank_line(reply@, true);
    if found {
        let mut k: usize = i;
        while k < n
            invariant
                i <= k <= n == cs.len(),
                body@ == cs@.subrange(i as int, k as int),
            decreases n - k,
        {
            body.push(cs[k]);
            assert(cs@.subrange(i as int, k + 1) =~= cs@.subrange(i as int, k as int).push(
                cs@[k as int],
            ));
            k += 1;
        }
    } else {
        assert(cs@.subrange(n as int, n as int).len() == 0);
    }
    assert(body@ =~= b);
    let (start, end) = trim_bounds(body.as_slice());
    let ghost ip = trim_end(trim_start(b));
    if start == end {
        return Err("Invalid IP response".to_owned());
    }
    let mut out = String::new();
    let mut k: usize = start;
    while k < end
        invariant
            start <= k <= end <= body.len(),
            body@.subrange(start as int, end as int) == ip,
            ip == trim_end(trim_start(after_blank_line(reply@, true))),
            ip.len() > 0,
            out@ == body@.subrange(start as int, k as int),
            forall|j: int| start <= j < k ==> body@[j] != '<',
        decreases end - k,
    {
        if body[k] == '<' {
            assert(ip[k - start] == '<');
            return Err("Invalid IP response".to_owned());
        }
        push_char(&mut out, body[k]);
        assert(body@.subrange(start as int, k + 1) =~= body@.subrange(start as int, k as int).push(
            body@[k as int],
        ));
        k += 1;
    }
    assert(!ip.contains('<')) by {
        if ip.contains('<') {
            let j = choose|j: int| 0 <= j < ip.len() && ip[j] == '<';
            assert(body@[start + j] == '<');
        }
    }
    Ok(out)
}

} // verus!
