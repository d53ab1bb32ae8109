//! The byte-level framing of the ADB host protocol: four hexadecimal digits
//! giving a payload length, followed by the payload; four-byte status words.
use vstd::prelude::*;
use vstd::string::*;
use vstd::utf8::*;

verus! {

broadcast use vstd::utf8::encode_utf8_decode_utf8;

/// Whether a byte is an ASCII hexadecimal digit (either case).
pub open spec fn is_hex_digit(b: u8) -> bool {
    (0x30 <= b <= 0x39) || (0x41 <= b <= 0x46) || (0x61 <= b <= 0x66)
}

/// The value of a hexadecimal digit.
pub open spec fn hex_value(b: u8) -> int {
    if 0x30 <= b <= 0x39 {
        b - 0x30
    } else if 0x41 <= b <= 0x46 {
        b - 0x41 + 10
    } else {
        b - 0x61 + 10
    }
}

/// The value of three hexadecimal digits, most significant first.
pub open spec fn hex3_value(s: Seq<u8>) -> int {
    (hex_value(s[0]) * 16 + hex_value(s[1])) * 16 + hex_value(s[2])
}

/// The value of four hexadecimal digits, most significant first.
pub open spec fn hex4_value(s: Seq<u8>) -> int {
    ((hex_value(s[0]) * 16 + hex_value(s[1])) * 16 + hex_value(s[2])) * 16 + hex_value(s[3])
}

/// The length a four-byte header announces, read the way `u16::from_str_radix(_, 16)`
/// reads the header's text: an optional `+` followed by hexadecimal digits only.
/// `None` when the header is not of that form.
pub open spec fn spec_parse_len(h: Seq<u8>) -> Option<u16> {
    if h.len() != 4 {
        None
    } else if is_hex_digit(h[0]) && is_hex_digit(h[1]) && is_hex_digit(h[2]) && is_hex_digit(h[3]) {
        Some(hex4_value(h) as u16)
    } else if h[0] == 0x2b && is_hex_digit(h[1]) && is_hex_digit(h[2]) && is_hex_digit(h[3]) {
        Some(hex3_value(h.skip(1)) as u16)
    } else {
        None
    }
}

/// The upper-case hexadecimal digit of a value below sixteen.
pub open spec fn hex_char(d: nat) -> u8 {
    if d < 10 {
        (0x30 + d) as u8
    } else {
        (0x41 + d - 10) as u8
    }
}

/// The upper-case hexadecimal digits of `n`, without leading zeros.
pub open spec fn hex_digits(n: nat) -> Seq<u8>
    decreases n,
{
    if n < 16 {
        seq![hex_char(n)]
    } else {
        hex_digits(n / 16).push(hex_char(n % 16))
    }
}

/// `n` in upper-case hexadecimal, padded with zeros to at least four digits
/// (what `format!("{:04X}", n)` writes).
pub open spec fn len_prefix(n: nat) -> Seq<u8> {
    let d = hex_digits(n);
    if d.len() < 4 {
        Seq::new((4 - d.len()) as nat, |i: int| 0x30u8) + d
    } else {
        d
    }
}

/// A request as it goes on the wire: its length prefix, then its bytes.
pub open spec fn frame(payload: Seq<u8>) -> Seq<u8> {
    len_prefix(payload.len()) + payload
}

/// The status word of a successful reply.
pub open spec fn okay_word() -> Seq<u8> {
    seq![0x4fu8, 0x4bu8, 0x41u8, 0x59u8]
}

/// The status word of a refused request.
pub open spec fn fail_word() -> Seq<u8> {
    seq![0x46u8, 0x41u8, 0x49u8, 0x4cu8]
}

/// The three kinds of status word a reply can start with.
#[derive(Debug, Clone, Copy, PartialEq, Eq)]
pub enum Status {
    Okay,
    Fail,
    Other,
}

/// Which status a four-byte word is.
pub open spec fn spec_status(w: Seq<u8>) -> Status {
    if w == okay_word() {
        Status::Okay
    } else if w == fail_word() {
        Status::Fail
    } else {
        Status::Other
    }
}

/// Whether `b` is a hexadecimal digit.
pub fn is_hex(b: u8) -> (r: bool)
    ensures
        r == is_hex_digit(b),
{
    (0x30 <= b && b <= 0x39) || (0x41 <= b && b <= 0x46) || (0x61 <= b && b <= 0x66)
}

/// The value of a hexadecimal digit.
pub fn hex_digit_value(b: u8) -> (r: u16)
    requires
        is_hex_digit(b),
    ensures
        r == hex_value(b),
        r < 16,
{
    if b <= 0x39 {
        (b - 0x30) as u16
    } else if b <= 0x46 {
        (b - 0x41 + 10) as u16
    } else {
        (b - 0x61 + 10) as u16
    }
}

/// Reads the length announced by a four-byte header; `None` exactly when the
/// header is not an optional `+` followed by hexadecimal digits.
pub fn parse_len(h: [u8; 4]) -> (r: Option<u16>)
    ensures
        r == spec_parse_len(h@),
{
    if is_hex(h[0]) && is_hex(h[1]) && is_hex(h[2]) && is_hex(h[3]) {
        let v = ((hex_digit_value(h[0]) * 16 + hex_digit_value(h[1])) * 16 + hex_digit_value(h[2]))
            * 16 + hex_digit_value(h[3]);
        Some(v)
    } else if h[0] == 0x2b && is_hex(h[1]) && is_hex(h[2]) && is_hex(h[3]) {
        let v = (hex_digit_value(h[1]) * 16 + hex_digit_value(h[2])) * 16 + hex_digit_value(h[3]);
        assert(h@.skip(1)[0] == h@[1] && h@.skip(1)[1] == h@[2] && h@.skip(1)[2] == h@[3]);
        Some(v)
    } else {
        None
    }
}

/// The upper-case hexadecimal digit for a value below sixteen.
pub fn hex_char_of(d: u8) -> (r: u8)
    requires
        d < 16,
    ensures
        r == hex_char(d as nat),
{
    if d < 10 {
        0x30 + d
    } else {
        0x41 + d - 10
    }
}

/// Appends the hexadecimal digits of `n` to `out`.
fn push_hex_digits(n: usize, out: &mut Vec<u8>)
    ensures
        final(out)@ == old(out)@ + hex_digits(n as nat),
    decreases n,
{
    if n < 16 {
        out.push(hex_char_of(n as u8));
    } else {
        push_hex_digits(n / 16, out);
        out.push(hex_char_of((n % 16) as u8));
    }
}

/// Writes `n` as `format!("{:04X}", n)` does.
pub fn encode_len(n: usize) -> (r: Vec<u8>)
    ensures
        r@ == len_prefix(n as nat),
{
    let mut digits: Vec<u8> = Vec::new();
    push_hex_digits(n, &mut digits);
    assert(digits@ == hex_digits(n as nat));
    let mut r: Vec<u8> = Vec::new();
    if digits.len() < 4 {
        let pad = 4 - digits.len();
        let mut i: usize = 0;
        while i < pad
            invariant
                i <= pad,
                r@ == Seq::new(i as nat, |j: int| 0x30u8),
            decreases pad - i,
        {
            r.push(0x30);
            i = i + 1;
        }
    }
    let ghost pre = r@;
    let mut k: usize = 0;
    while k < digits.len()
        invariant
            k <= digits.len(),
            r@ == pre + digits@.take(k as int),
        decreases digits.len() - k,
    {
        r.push(digits[k]);
        k = k + 1;
        assert(digits@.take(k as int) == digits@.take(k - 1).push(digits@[k - 1]));
    }
    assert(digits@.take(digits.len() as int) == digits@);
    assert(r@ == len_prefix(n as nat));
    r
}

/// Frames a payload for the wire: its length prefix, then the payload.
pub fn frame_bytes(payload: &[u8]) -> (r: Vec<u8>)
    ensures
        r@ == frame(payload@),
{
    let mut r = encode_len(payload.len());
    let ghost pre = r@;
    let mut k: usize = 0;
    while k < payload.len()
        invariant
            k <= payload.len(),
            r@ == pre + payload@.take(k as int),
        decreases payload.len() - k,
    {
        r.push(payload[k]);
        k = k + 1;
        assert(payload@.take(k as int) == payload@.take(k - 1).push(payload@[k - 1]));
    }
    assert(payload@.take(payload.len() as int) == payload@);
    r
}

/// Classifies a four-byte status word.
pub fn status_of(w: [u8; 4]) -> (r: Status)
    ensures
        r == spec_status(w@),
{
    if w[0] == 0x4f && w[1] == 0x4b && w[2] == 0x41 && w[3] == 0x59 {
        assert(w@ == okay_word());
        Status::Okay
    } else if w[0] == 0x46 && w[1] == 0x41 && w[2] == 0x49 && w[3] == 0x4c {
        assert(w@ == fail_word());
        Status::Fail
    } else {
        assert(w@ != okay_word()) by {
            if w@ == okay_word() {
                assert(w@[0] == 0x4f && w@[1] == 0x4b && w@[2] == 0x41 && w@[3] == 0x59);
            }
        }
        assert(w@ != fail_word()) by {
            if w@ == fail_word() {
                assert(w@[0] == 0x46 && w@[1] == 0x41 && w@[2] == 0x49 && w@[3] == 0x4c);
            }
        }
        Status::Other
    }
}

/// `std::str::from_utf8`: it succeeds exactly on valid UTF-8, and the text it
/// gives back is encoded by exactly the given bytes.
#[verifier::external_body]
fn str_from_utf8(bytes: &[u8]) -> (r: Option<&str>)
    ensures
        r is Some <==> valid_utf8(bytes@),
        r matches Some(s) ==> s.spec_bytes() == bytes@,
{
    std::str::from_utf8(bytes).ok()
}

/// The text `String::from_utf8_lossy` makes of any bytes: each invalid
/// sequence replaced by U+FFFD.
pub uninterp spec fn lossy_utf8(bytes: Seq<u8>) -> Seq<char>;

/// `String::from_utf8_lossy`, made into an owned `String`: the text is
/// `lossy_utf8` of the bytes, and for valid UTF-8 it is exactly the text the
/// bytes encode. Nothing more is stated of the replacement of invalid bytes.
#[verifier::external_body]
fn string_from_utf8_lossy(bytes: &[u8]) -> (r: String)
    ensures
        r@ == lossy_utf8(bytes@),
        valid_utf8(bytes@) ==> r@ == decode_utf8(bytes@),
{
    String::from_utf8_lossy(bytes).into_owned()
}

/// The text of any bytes, with invalid UTF-8 replaced.
pub fn lossy_text(bytes: &[u8]) -> (r: String)
    ensures
        r@ == lossy_utf8(bytes@),
        valid_utf8(bytes@) ==> r@ == decode_utf8(bytes@),
{
    string_from_utf8_lossy(bytes)
}

/// Whether bytes are valid UTF-8.
pub fn is_utf8(bytes: &[u8]) -> (r: bool)
    ensures
        r == valid_utf8(bytes@),
{
    str_from_utf8(bytes).is_some()
}

/// The text that valid UTF-8 bytes encode.
pub fn decode_text(bytes: &[u8]) -> (r: String)
    requires
        valid_utf8(bytes@),
    ensures
        r@ == decode_utf8(bytes@),
        encode_utf8(r@) == bytes@,
{
    match str_from_utf8(bytes) {
        Some(s) => {
            let r = s.to_owned();
            assert(decode_utf8(encode_utf8(s@)) == s@);
            r
        },
        None => String::new(),
    }
}

/// The UTF-8 bytes of a text.
pub fn text_bytes(s: &str) -> (r: Vec<u8>)
    ensures
        r@ == s.spec_bytes(),
        r@ == encode_utf8(s@),
{
    let b = s.as_bytes();
    let mut r: Vec<u8> = Vec::new();
    let mut k: usize = 0;
    while k < b.len()
        invariant
            k <= b@.len(),
            r@ == b@.take(k as int),
        decreases b@.len() - k,
    {
        r.push(b[k]);
        k = k + 1;
        assert(b@.take(k as int) == b@.take(k - 1).push(b@[k - 1]));
    }
    assert(b@.take(b@.len() as int) == b@);
    r
}

/// A digit written by the encoder is read back by the header reader.
proof fn lemma_hex_char(d: nat)
    requires
        d < 16,
    ensures
        is_hex_digit(hex_char(d)),
        hex_value(hex_char(d)) == d,
{
}

/// The byte of a hexadecimal digit below sixteen, in lower or upper case.
pub open spec fn digit_byte(x: nat, lower: bool) -> u8 {
    if x < 10 {
        (0x30 + x) as u8
    } else if lower {
        (0x61 + x - 10) as u8
    } else {
        (0x41 + x - 10) as u8
    }
}

/// Status law: `OKAY` and `FAIL` are told apart from each other and from
/// every other word.
pub proof fn lemma_status_words(w: Seq<u8>)
    ensures
        spec_status(seq![0x4fu8, 0x4bu8, 0x41u8, 0x59u8]) == Status::Okay,
        spec_status(seq![0x46u8, 0x41u8, 0x49u8, 0x4cu8]) == Status::Fail,
        w != seq![0x4fu8, 0x4bu8, 0x41u8, 0x59u8] && w != seq![0x46u8, 0x41u8, 0x49u8, 0x4cu8]
            ==> spec_status(w) == Status::Other,
{
    assert(okay_word() != fail_word()) by {
        assert(okay_word()[0] != fail_word()[0]);
    }
}

/// Header law: four hexadecimal digits, each in either case, are read as the
/// number they write.
pub proof fn lemma_parse_len_digits(
    a: nat,
    b: nat,
    c: nat,
    d: nat,
    la: bool,
    lb: bool,
    lc: bool,
    ld: bool,
)
    requires
        a < 16,
        b < 16,
        c < 16,
        d < 16,
    ensures
        spec_parse_len(seq![digit_byte(a, la), digit_byte(b, lb), digit_byte(c, lc), digit_byte(d, ld)])
            == Some((a * 4096 + b * 256 + c * 16 + d) as u16),
{
    let h = seq![digit_byte(a, la), digit_byte(b, lb), digit_byte(c, lc), digit_byte(d, ld)];
    assert(h[0] == digit_byte(a, la) && h[1] == digit_byte(b, lb) && h[2] == digit_byte(c, lc)
        && h[3] == digit_byte(d, ld));
}

/// Header law: a `+` and three hexadecimal digits, each in either case, are
/// read as the number the digits write.
pub proof fn lemma_parse_len_plus(b: nat, c: nat, d: nat, lb: bool, lc: bool, ld: bool)
    requires
        b < 16,
        c < 16,
        d < 16,
    ensures
        spec_parse_len(seq![0x2bu8, digit_byte(b, lb), digit_byte(c, lc), digit_byte(d, ld)])
            == Some((b * 256 + c * 16 + d) as u16),
{
    let h = seq![0x2bu8, digit_byte(b, lb), digit_byte(c, lc), digit_byte(d, ld)];
    assert(h.skip(1) =~= seq![digit_byte(b, lb), digit_byte(c, lc), digit_byte(d, ld)]);
}

/// Whether a byte is `0`-`9`, `a`-`f` or `A`-`F`.
pub open spec fn hex_byte(x: u8) -> bool {
    (0x30 <= x && x <= 0x39) || (0x61 <= x && x <= 0x66) || (0x41 <= x && x <= 0x46)
}

/// Header law: a header is refused when any of its last three bytes is not a
/// hexadecimal digit, or its first byte is neither a digit nor `+`.
pub proof fn lemma_parse_len_refused(h: Seq<u8>)
    requires
        h.len() == 4,
        !hex_byte(h[1]) || !hex_byte(h[2]) || !hex_byte(h[3]) || (!hex_byte(h[0]) && h[0] != 0x2b),
    ensures
        spec_parse_len(h) is None,
{
}

/// Framing law: the length prefix the client writes is read back, by the
/// header reader, as the length it announces, whenever that length fits in
/// four hexadecimal digits.
pub proof fn lemma_len_prefix_roundtrip(n: nat)
    requires
        n <= 0xFFFF,
    ensures
        len_prefix(n).len() == 4,
        spec_parse_len(len_prefix(n)) == Some(n as u16),
        len_prefix(n) == seq![
            digit_byte(n / 4096, false),
            digit_byte((n / 256) % 16, false),
            digit_byte((n / 16) % 16, false),
            digit_byte(n % 16, false),
        ],
{
    reveal_with_fuel(hex_digits, 5);
    let p = len_prefix(n);
    let a = n / 4096;
    let b = (n / 256) % 16;
    let c = (n / 16) % 16;
    let d = n % 16;
    assert(n == 16 * (n / 16) + d) by { vstd::arithmetic::div_mod::lemma_fundamental_div_mod(n as int, 16); }
    assert(n / 16 == 16 * (n / 16 / 16) + c) by { vstd::arithmetic::div_mod::lemma_fundamental_div_mod((n / 16) as int, 16); }
    assert(n / 16 / 16 == n / 256) by { vstd::arithmetic::div_mod::lemma_div_denominator(n as int, 16, 16); }
    assert(n / 256 == 16 * (n / 256 / 16) + b) by { vstd::arithmetic::div_mod::lemma_fundamental_div_mod((n / 256) as int, 16); }
    assert(n / 256 / 16 == a) by { vstd::arithmetic::div_mod::lemma_div_denominator(n as int, 256, 16); }
    assert(a < 16 && b < 16 && c < 16 && d < 16);
    lemma_hex_char(a);
    lemma_hex_char(b);
    lemma_hex_char(c);
    lemma_hex_char(d);
    lemma_hex_char(0);
    if n < 16 {
        assert(p =~= seq![0x30u8, 0x30u8, 0x30u8, hex_char(d)]);
    } else if n < 256 {
        assert(p =~= seq![0x30u8, 0x30u8, hex_char(c), hex_char(d)]);
    } else if n < 4096 {
        assert(p =~= seq![0x30u8, hex_char(b), hex_char(c), hex_char(d)]);
    } else {
        assert(p =~= seq![hex_char(a), hex_char(b), hex_char(c), hex_char(d)]);
    }
}

/// Framing law: a request framed by the client is read back, header then
/// body, as exactly the payload it carries, whenever the payload is at most
/// 0xFFFF bytes long.
pub proof fn lemma_frame_roundtrip(payload: Seq<u8>)
    requires
        payload.len() <= 0xFFFF,
    ensures
        spec_parse_len(frame(payload).take(4)) == Some(payload.len() as u16),
        frame(payload).skip(4) == payload,
{
    lemma_len_prefix_roundtrip(payload.len());
    let f = frame(payload);
    assert(f.take(4) =~= len_prefix(payload.len()));
    assert(f.skip(4) =~= payload);
}

} // verus!

verus! {

/// The position of the first `b` in `s`, if any.
pub open spec fn find_byte(s: Seq<u8>, b: u8) -> Option<int>
    decreases s.len(),
{
    if s.len() == 0 {
        None
    } else if s[0] == b {
        Some(0)
    } else {
        match find_byte(s.drop_first(), b) {
            Some(i) => Some(i + 1),
            None => None,
        }
    }
}

/// `find_byte` gives the first occurrence, or says there is none.
pub proof fn lemma_find_byte(s: Seq<u8>, b: u8)
    ensures
        find_byte(s, b) matches Some(i) ==> 0 <= i < s.len() && s[i] == b && forall|j: int|
            0 <= j < i ==> s[j] != b,
        find_byte(s, b) is None ==> forall|j: int| 0 <= j < s.len() ==> s[j] != b,
    decreases s.len(),
{
    if s.len() > 0 && s[0] != b {
        lemma_find_byte(s.drop_first(), b);
        if let Some(i) = find_byte(s.drop_first(), b) {
            assert forall|j: int| 0 <= j < i + 1 implies s[j] != b by {
                if j > 0 {
                    assert(s[j] == s.drop_first()[j - 1]);
                }
            }
        } else {
            assert forall|j: int| 0 <= j < s.len() implies s[j] != b by {
                if j > 0 {
                    assert(s[j] == s.drop_first()[j - 1]);
                }
            }
        }
    }
}

/// A first occurrence found by other means is the one `find_byte` gives.
pub proof fn lemma_find_byte_unique(s: Seq<u8>, b: u8, i: int)
    requires
        0 <= i <= s.len(),
        forall|j: int| 0 <= j < i ==> s[j] != b,
        i == s.len() || s[i] == b,
    ensures
        find_byte(s, b) == (if i == s.len() { None } else { Some(i) }),
{
    lemma_find_byte(s, b);
    match find_byte(s, b) {
        Some(k) => {
            if k < i {
                assert(s[k] != b);
            } else if k > i {
                assert(s[i] != b);
            }
        },
        None => {
            if i < s.len() {
                assert(s[i] != b);
            }
        },
    }
}

/// The first `b` in `s[lo..hi]`, as a position in `s`.
pub fn find_in(s: &[u8], lo: usize, hi: usize, b: u8) -> (r: Option<usize>)
    requires
        lo <= hi <= s@.len(),
    ensures
        r matches Some(k) ==> lo <= k < hi && s@[k as int] == b && find_byte(
            s@.subrange(lo as int, hi as int),
            b,
        ) == Some(k - lo),
        r is None ==> find_byte(s@.subrange(lo as int, hi as int), b) is None,
{
    let mut k = lo;
    while k < hi
        invariant
            lo <= k <= hi <= s@.len(),
            forall|j: int| lo <= j < k ==> s@[j] != b,
        decreases hi - k,
    {
        if s[k] == b {
            proof {
                let t = s@.subrange(lo as int, hi as int);
                lemma_find_byte_unique(t, b, k - lo);
            }
            return Some(k);
        }
        k = k + 1;
    }
    proof {
        let t = s@.subrange(lo as int, hi as int);
        lemma_find_byte_unique(t, b, hi - lo);
    }
    None
}

/// A position where valid UTF-8 bytes may be cut: the end, or the start of
/// a character.
pub open spec fn cut_ok(s: Seq<u8>, k: int) -> bool {
    k == s.len() || (0 <= k < s.len() && !is_continuation_byte(s[k]))
}

/// Valid UTF-8 stays valid between two places where it may be cut.
pub proof fn lemma_valid_between(s: Seq<u8>, a: int, b: int)
    requires
        valid_utf8(s),
        a <= b,
        cut_ok(s, a),
        cut_ok(s, b),
    ensures
        valid_utf8(s.subrange(a, b)),
{
    if a == s.len() {
        assert(s.subrange(a, b) =~= Seq::<u8>::empty());
    } else {
        is_char_boundary_iff_not_is_continuation_byte(s, a);
        valid_utf8_split(s, a);
        let t = s.subrange(a, s.len() as int);
        if b == s.len() {
            assert(t =~= s.subrange(a, b));
        } else {
            assert(t[b - a] == s[b]);
            is_char_boundary_iff_not_is_continuation_byte(t, b - a);
            valid_utf8_split(t, b - a);
            assert(t.subrange(0, b - a) =~= s.subrange(a, b));
        }
    }
}

/// An ASCII byte in valid UTF-8 is a character of its own: the bytes may be
/// cut before it and after it.
pub proof fn lemma_ascii_cut(s: Seq<u8>, k: int)
    requires
        valid_utf8(s),
        0 <= k < s.len(),
        s[k] < 0x80,
    ensures
        cut_ok(s, k),
        cut_ok(s, k + 1),
{
    if k + 1 < s.len() {
        is_char_boundary_iff_not_is_continuation_byte(s, k);
        valid_utf8_split(s, k);
        let t = s.subrange(k, s.len() as int);
        assert(t[0] == s[k]);
        assert(valid_first_scalar(t) && valid_utf8(pop_first_scalar(t)));
        let p = pop_first_scalar(t);
        assert(p.len() > 0);
        assert(p[0] == s[k + 1]);
        assert(valid_first_scalar(p));
    }
}

} // verus!
