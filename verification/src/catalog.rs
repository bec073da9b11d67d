//! The stress harness's catalogues of adversarial inputs and the samples
//! its vectors report.

use vstd::prelude::*;
use vstd::utf8::{
    decode_utf8, encode_scalar, encode_utf8, is_char_boundary, is_continuation_byte,
    is_ascii_chars, valid_utf8,
};
use crate::preview::{
    bytes_preview, bytes_previewable, escaped, preview_bytes, preview_string, preview_text,
    previewable, sanitize, PREVIEW_BYTES,
};
use crate::stress::{pair_views, text_pair, GrpcVectorKind};
use crate::textual::{chars_to_string, decimal, decimal_chars, str_to_chars};

verus! {

/// How many adversarial strings there are.
pub const ADVERSARIAL_STRING_COUNT: usize = 21;

/// Adversarial string `i`: empties, whitespace and NULs, replacement and
/// bidirectional marks, a byte-order mark, astral and combining
/// characters, long runs, callsigns and numeric edge cases.
pub open spec fn adversarial_text(i: int) -> Seq<char> {
    if i == 0 {
        seq![]
    } else if i == 1 {
        seq![' ']
    } else if i == 2 {
        seq!['\u{0}']
    } else if i == 3 {
        Seq::new(8, |j: int| '\u{0}')
    } else if i == 4 {
        seq!['\u{9}', '\u{A}', '\u{D}']
    } else if i == 5 {
        seq!['\u{FFFD}', '\u{FFFD}']
    } else if i == 6 {
        seq!['\u{200F}', '\u{202E}']
    } else if i == 7 {
        seq!['\u{FEFF}']
    } else if i == 8 {
        seq!['\u{1F4A9}', '\u{1F4A9}']
    } else if i == 9 {
        seq!['A', '\u{301}']
    } else if i == 10 {
        Seq::new(2048, |j: int| 'X')
    } else if i == 11 {
        Seq::new(512, |j: int| '\u{FC}')
    } else if i == 12 {
        seq!['W', '1', 'A', 'W']
    } else if i == 13 {
        seq!['K', '7', 'D', 'B', 'G', '/', 'P']
    } else if i == 14 {
        seq!['V', 'E', '3', '/', 'W', '1', 'A', 'W', '/', 'Q', 'R', 'P']
    } else if i == 15 {
        seq!['-', '1']
    } else if i == 16 {
        seq!['N', 'a', 'N']
    } else if i == 17 {
        seq!['I', 'n', 'f', 'i', 'n', 'i', 't', 'y']
    } else if i == 18 {
        seq!['-', 'I', 'n', 'f', 'i', 'n', 'i', 't', 'y']
    } else if i == 19 {
        seq!['2', '0', '2', '5', '0', '2', '3', '0']
    } else if i == 20 {
        seq!['9', '9', '9', '9', '1', '3', '9', '9']
    } else {
        seq![]
    }
}

/// `n` copies of `c`.
fn repeated(c: char, n: usize) -> (r: String)
    ensures
        r@ == Seq::new(n as nat, |j: int| c),
{
    let mut r = String::new();
    let mut k: usize = 0;
    while k < n
        invariant
            k <= n,
            r@ == Seq::new(k as nat, |j: int| c),
        decreases n - k,
    {
        r.push(c);
        assert(r@ =~= Seq::new((k + 1) as nat, |j: int| c));
        k = k + 1;
    }
    r
}

/// The adversarial strings, in catalogue order.
pub fn adversarial_strings() -> (r: Vec<String>)
    ensures
        r@.len() == ADVERSARIAL_STRING_COUNT,
        forall|i: int| 0 <= i < ADVERSARIAL_STRING_COUNT ==> (#[trigger] r@[i])@ == adversarial_text(i),
{
    proof {
        reveal_strlit(" ");
        reveal_strlit("\0");
        reveal_strlit("\t\n\r");
        reveal_strlit("\u{FFFD}\u{FFFD}");
        reveal_strlit("\u{200F}\u{202E}");
        reveal_strlit("\u{FEFF}");
        reveal_strlit("\u{1F4A9}\u{1F4A9}");
        reveal_strlit("A\u{301}");
        reveal_strlit("W1AW");
        reveal_strlit("K7DBG/P");
        reveal_strlit("VE3/W1AW/QRP");
        reveal_strlit("-1");
        reveal_strlit("NaN");
        reveal_strlit("Infinity");
        reveal_strlit("-Infinity");
        reveal_strlit("20250230");
        reveal_strlit("99991399");
    }
    let r = vec![
        String::new(),
        " ".to_owned(),
        "\0".to_owned(),
        repeated('\0', 8),
        "\t\n\r".to_owned(),
        "\u{FFFD}\u{FFFD}".to_owned(),
        "\u{200F}\u{202E}".to_owned(),
        "\u{FEFF}".to_owned(),
        "\u{1F4A9}\u{1F4A9}".to_owned(),
        "A\u{301}".to_owned(),
        repeated('X', 2048),
        repeated('\u{FC}', 512),
        "W1AW".to_owned(),
        "K7DBG/P".to_owned(),
        "VE3/W1AW/QRP".to_owned(),
        "-1".to_owned(),
        "NaN".to_owned(),
        "Infinity".to_owned(),
        "-Infinity".to_owned(),
        "20250230".to_owned(),
        "99991399".to_owned(),
    ];
    assert forall|i: int| 0 <= i < ADVERSARIAL_STRING_COUNT implies (#[trigger] r@[i])@ == adversarial_text(i) by {
        assert(r@[i]@ =~= adversarial_text(i));
    }
    r
}

proof fn lemma_sanitize_plain(s: Seq<char>)
    requires
        forall|i: int| 0 <= i < s.len() ==> s[i] != '\0' && s[i] != '\n',
    ensures
        sanitize(s) == s,
    decreases s.len(),
{
    if s.len() > 0 {
        lemma_sanitize_plain(s.drop_last());
        assert(sanitize(s) =~= s);
    }
}

proof fn lemma_sanitize_ascii(s: Seq<char>)
    requires
        is_ascii_chars(s),
    ensures
        is_ascii_chars(sanitize(s)),
    decreases s.len(),
{
    if s.len() > 0 {
        lemma_sanitize_ascii(s.drop_last());
        let a = sanitize(s.drop_last());
        let b = escaped(s.last());
        assert(sanitize(s) == a + b);
        assert forall|i: int| 0 <= i < (a + b).len() implies '\0' <= #[trigger] (a + b)[i]
            <= '\u{7f}' by {
            if i < a.len() {
                assert((a + b)[i] == a[i]);
            } else {
                assert((a + b)[i] == b[i - a.len()]);
            }
        }
    }
}

/// Text made only of ASCII characters can always be previewed: every byte
/// of its UTF-8 form starts a character.
proof fn lemma_ascii_previewable(s: Seq<char>)
    requires
        is_ascii_chars(s),
    ensures
        previewable(s),
{
    let t = sanitize(s);
    lemma_sanitize_ascii(s);
    vstd::utf8::is_ascii_chars_encode_utf8(t);
    vstd::utf8::encode_utf8_valid_utf8(t);
    let bytes = encode_utf8(t);
    if bytes.len() > PREVIEW_BYTES {
        assert(bytes[PREVIEW_BYTES as int] == t[PREVIEW_BYTES as int] as u8);
        assert(!is_continuation_byte(bytes[PREVIEW_BYTES as int]));
        vstd::utf8::is_char_boundary_iff_not_is_continuation_byte(bytes, PREVIEW_BYTES as int);
    }
}

proof fn lemma_encode_len_bound(s: Seq<char>)
    ensures
        encode_utf8(s).len() <= 4 * s.len(),
    decreases s.len(),
{
    if s.len() > 0 {
        lemma_encode_len_bound(s.drop_first());
    }
}

/// Text of at most 20 characters, none of them NUL or newline, fits in a
/// preview whole.
proof fn lemma_short_previewable(s: Seq<char>)
    requires
        4 * s.len() <= PREVIEW_BYTES,
        forall|i: int| 0 <= i < s.len() ==> s[i] != '\0' && s[i] != '\n',
    ensures
        previewable(s),
{
    lemma_sanitize_plain(s);
    lemma_encode_len_bound(s);
}

proof fn lemma_umlaut_run(n: nat)
    ensures
        encode_utf8(Seq::new(n, |j: int| '\u{FC}')) == Seq::new(
            2 * n,
            |j: int|
                if j % 2 == 0 {
                    0xC3u8
                } else {
                    0xBCu8
                },
        ),
    decreases n,
{
    let run = Seq::new(n, |j: int| '\u{FC}');
    let pattern = Seq::new(
        2 * n,
        |j: int|
            if j % 2 == 0 {
                0xC3u8
            } else {
                0xBCu8
            },
    );
    if n == 0 {
        assert(encode_utf8(run) =~= pattern);
    } else {
        let shorter = Seq::new((n - 1) as nat, |j: int| '\u{FC}');
        lemma_umlaut_run((n - 1) as nat);
        assert(run =~= shorter.push('\u{FC}'));
        crate::preview::lemma_encode_push(shorter, '\u{FC}');
        let c: u32 = '\u{FC}' as u32;
        assert(c == 0xFC);
        assert((0xC0u8 | (((0xFCu32 >> 6u32) & 0x1Fu32) as u8)) == 0xC3u8) by (bit_vector);
        assert((0x80u8 | ((0xFCu32 & 0x3Fu32) as u8)) == 0xBCu8) by (bit_vector);
        assert(encode_scalar(c) =~= seq![0xC3u8, 0xBCu8]);
        assert(encode_utf8(run) =~= pattern);
    }
}

/// A run of 512 `ü` can be previewed: each takes two bytes, so byte 80
/// starts the 41st.
proof fn lemma_umlauts_previewable()
    ensures
        previewable(Seq::new(512, |j: int| '\u{FC}')),
{
    let s = Seq::new(512, |j: int| '\u{FC}');
    lemma_sanitize_plain(s);
    lemma_umlaut_run(512);
    vstd::utf8::encode_utf8_valid_utf8(s);
    let bytes = encode_utf8(s);
    assert(bytes[PREVIEW_BYTES as int] == 0xC3u8);
    vstd::utf8::is_char_boundary_iff_not_is_continuation_byte(bytes, PREVIEW_BYTES as int);
}

/// Every adversarial string can be previewed.
pub proof fn lemma_adversarial_previewable(i: int)
    requires
        0 <= i < ADVERSARIAL_STRING_COUNT,
    ensures
        previewable(adversarial_text(i)),
{
    let s = adversarial_text(i);
    if 5 <= i <= 9 {
        lemma_short_previewable(s);
    } else if i == 11 {
        lemma_umlauts_previewable();
    } else {
        assert(is_ascii_chars(s));
        lemma_ascii_previewable(s);
    }
}

/// How many adversarial ADIF payloads there are.
pub const ADIF_PAYLOAD_COUNT: usize = 9;

/// Adversarial ADIF payload `i`: nothing, bytes that are not UTF-8, every
/// byte value in order, a well-formed record, one with a non-ASCII date,
/// negative and huge field lengths, a long run of `A`, and an emoji value.
pub open spec fn adif_payload(i: int) -> Seq<u8> {
    if i == 0 {
        seq![]
    } else if i == 1 {
        seq![0xFFu8, 0xFFu8, 0xFFu8]
    } else if i == 2 {
        Seq::new(256, |j: int| j as u8)
    } else if i == 3 {
        // `<CALL:4>W1AW<BAND:3>20M<MODE:2>CW<QSO_DATE:8>20250115<TIME_ON:4>1200<STATION_CALLSIGN:4>TEST<eor>`
        seq![60u8, 67u8, 65u8, 76u8, 76u8, 58u8, 52u8, 62u8, 87u8, 49u8, 65u8, 87u8, 60u8, 66u8, 65u8, 78u8, 68u8, 58u8, 51u8, 62u8, 50u8, 48u8, 77u8, 60u8, 77u8, 79u8, 68u8, 69u8, 58u8, 50u8, 62u8, 67u8, 87u8, 60u8, 81u8, 83u8, 79u8, 95u8, 68u8, 65u8, 84u8, 69u8, 58u8, 56u8, 62u8, 50u8, 48u8, 50u8, 53u8, 48u8, 49u8, 49u8, 53u8, 60u8, 84u8, 73u8, 77u8, 69u8, 95u8, 79u8, 78u8, 58u8, 52u8, 62u8, 49u8, 50u8, 48u8, 48u8, 60u8, 83u8, 84u8, 65u8, 84u8, 73u8, 79u8, 78u8, 95u8, 67u8, 65u8, 76u8, 76u8, 83u8, 73u8, 71u8, 78u8, 58u8, 52u8, 62u8, 84u8, 69u8, 83u8, 84u8, 60u8, 101u8, 111u8, 114u8, 62u8]
    } else if i == 4 {
        // `<CALL:4>W1AW<QSO_DATE:8>202\u{FC}123<TIME_ON:4>1200<BAND:3>20M<MODE:2>CW<STATION_CALLSIGN:4>TEST<eor>`
        seq![60u8, 67u8, 65u8, 76u8, 76u8, 58u8, 52u8, 62u8, 87u8, 49u8, 65u8, 87u8, 60u8, 81u8, 83u8, 79u8, 95u8, 68u8, 65u8, 84u8, 69u8, 58u8, 56u8, 62u8, 50u8, 48u8, 50u8, 195u8, 188u8, 49u8, 50u8, 51u8, 60u8, 84u8, 73u8, 77u8, 69u8, 95u8, 79u8, 78u8, 58u8, 52u8, 62u8, 49u8, 50u8, 48u8, 48u8, 60u8, 66u8, 65u8, 78u8, 68u8, 58u8, 51u8, 62u8, 50u8, 48u8, 77u8, 60u8, 77u8, 79u8, 68u8, 69u8, 58u8, 50u8, 62u8, 67u8, 87u8, 60u8, 83u8, 84u8, 65u8, 84u8, 73u8, 79u8, 78u8, 95u8, 67u8, 65u8, 76u8, 76u8, 83u8, 73u8, 71u8, 78u8, 58u8, 52u8, 62u8, 84u8, 69u8, 83u8, 84u8, 60u8, 101u8, 111u8, 114u8, 62u8]
    } else if i == 5 {
        // `<CALL:-1>W1AW<eor>`
        seq![60u8, 67u8, 65u8, 76u8, 76u8, 58u8, 45u8, 49u8, 62u8, 87u8, 49u8, 65u8, 87u8, 60u8, 101u8, 111u8, 114u8, 62u8]
    } else if i == 6 {
        // `<CALL:999999999>W1AW<eor>`
        seq![60u8, 67u8, 65u8, 76u8, 76u8, 58u8, 57u8, 57u8, 57u8, 57u8, 57u8, 57u8, 57u8, 57u8, 57u8, 62u8, 87u8, 49u8, 65u8, 87u8, 60u8, 101u8, 111u8, 114u8, 62u8]
    } else if i == 7 {
        Seq::new(16384, |j: int| 0x41u8)
    } else if i == 8 {
        // `<CALL:4>\u{1F4A9}<eor>`
        seq![60u8, 67u8, 65u8, 76u8, 76u8, 58u8, 52u8, 62u8, 240u8, 159u8, 146u8, 169u8, 60u8, 101u8, 111u8, 114u8, 62u8]
    } else {
        seq![]
    }
}

/// `n` copies of byte `b`.
fn repeated_byte(b: u8, n: usize) -> (r: Vec<u8>)
    ensures
        r@ == Seq::new(n as nat, |j: int| b),
{
    let mut r: Vec<u8> = Vec::new();
    let mut k: usize = 0;
    while k < n
        invariant
            k <= n,
            r@ == Seq::new(k as nat, |j: int| b),
        decreases n - k,
    {
        r.push(b);
        assert(r@ =~= Seq::new((k + 1) as nat, |j: int| b));
        k = k + 1;
    }
    r
}

/// Every byte value, from 0 to 255.
fn byte_ramp() -> (r: Vec<u8>)
    ensures
        r@ == Seq::new(256, |j: int| j as u8),
{
    let mut r: Vec<u8> = Vec::new();
    let mut k: u32 = 0;
    while k < 256
        invariant
            k <= 256,
            r@ == Seq::new(k as nat, |j: int| j as u8),
        decreases 256 - k,
    {
        r.push(k as u8);
        assert(r@ =~= Seq::new((k + 1) as nat, |j: int| j as u8));
        k = k + 1;
    }
    r
}

/// The adversarial ADIF payloads, in catalogue order.
pub fn adversarial_adif_payloads() -> (r: Vec<Vec<u8>>)
    ensures
        r@.len() == ADIF_PAYLOAD_COUNT,
        forall|i: int| 0 <= i < ADIF_PAYLOAD_COUNT ==> (#[trigger] r@[i])@ == adif_payload(i),
{
    let r = vec![
        Vec::new(),
        repeated_byte(0xFF, 3),
        byte_ramp(),
        vec![60u8, 67u8, 65u8, 76u8, 76u8, 58u8, 52u8, 62u8, 87u8, 49u8, 65u8, 87u8, 60u8, 66u8, 65u8, 78u8, 68u8, 58u8, 51u8, 62u8, 50u8, 48u8, 77u8, 60u8, 77u8, 79u8, 68u8, 69u8, 58u8, 50u8, 62u8, 67u8, 87u8, 60u8, 81u8, 83u8, 79u8, 95u8, 68u8, 65u8, 84u8, 69u8, 58u8, 56u8, 62u8, 50u8, 48u8, 50u8, 53u8, 48u8, 49u8, 49u8, 53u8, 60u8, 84u8, 73u8, 77u8, 69u8, 95u8, 79u8, 78u8, 58u8, 52u8, 62u8, 49u8, 50u8, 48u8, 48u8, 60u8, 83u8, 84u8, 65u8, 84u8, 73u8, 79u8, 78u8, 95u8, 67u8, 65u8, 76u8, 76u8, 83u8, 73u8, 71u8, 78u8, 58u8, 52u8, 62u8, 84u8, 69u8, 83u8, 84u8, 60u8, 101u8, 111u8, 114u8, 62u8],
        vec![60u8, 67u8, 65u8, 76u8, 76u8, 58u8, 52u8, 62u8, 87u8, 49u8, 65u8, 87u8, 60u8, 81u8, 83u8, 79u8, 95u8, 68u8, 65u8, 84u8, 69u8, 58u8, 56u8, 62u8, 50u8, 48u8, 50u8, 195u8, 188u8, 49u8, 50u8, 51u8, 60u8, 84u8, 73u8, 77u8, 69u8, 95u8, 79u8, 78u8, 58u8, 52u8, 62u8, 49u8, 50u8, 48u8, 48u8, 60u8, 66u8, 65u8, 78u8, 68u8, 58u8, 51u8, 62u8, 50u8, 48u8, 77u8, 60u8, 77u8, 79u8, 68u8, 69u8, 58u8, 50u8, 62u8, 67u8, 87u8, 60u8, 83u8, 84u8, 65u8, 84u8, 73u8, 79u8, 78u8, 95u8, 67u8, 65u8, 76u8, 76u8, 83u8, 73u8, 71u8, 78u8, 58u8, 52u8, 62u8, 84u8, 69u8, 83u8, 84u8, 60u8, 101u8, 111u8, 114u8, 62u8],
        vec![60u8, 67u8, 65u8, 76u8, 76u8, 58u8, 45u8, 49u8, 62u8, 87u8, 49u8, 65u8, 87u8, 60u8, 101u8, 111u8, 114u8, 62u8],
        vec![60u8, 67u8, 65u8, 76u8, 76u8, 58u8, 57u8, 57u8, 57u8, 57u8, 57u8, 57u8, 57u8, 57u8, 57u8, 62u8, 87u8, 49u8, 65u8, 87u8, 60u8, 101u8, 111u8, 114u8, 62u8],
        repeated_byte(0x41, 16384),
        vec![60u8, 67u8, 65u8, 76u8, 76u8, 58u8, 52u8, 62u8, 240u8, 159u8, 146u8, 169u8, 60u8, 101u8, 111u8, 114u8, 62u8],
    ];
    assert forall|i: int| 0 <= i < ADIF_PAYLOAD_COUNT implies (#[trigger] r@[i])@ == adif_payload(i) by {
        assert(r@[i]@ =~= adif_payload(i));
    }
    r
}

proof fn lemma_decoded_plain(b: Seq<u8>)
    requires
        valid_utf8(b),
        forall|j: int| 0 <= j < b.len() ==> b[j] != 0 && b[j] != 10,
    ensures
        forall|i: int|
            0 <= i < decode_utf8(b).len() ==> decode_utf8(b)[i] != '\0' && decode_utf8(b)[i]
                != '\n',
    decreases b.len(),
{
    if b.len() > 0 {
        let first = vstd::utf8::decode_first_scalar(b) as char;
        let rest = vstd::utf8::pop_first_scalar(b);
        vstd::utf8::decode_utf8_first_scalar(b);
        assert(vstd::utf8::take_first_scalar(b)[0] == b[0]);
        assert(first != '\0') by {
            if first == '\0' {
                assert((0u32 & 0x7Fu32) as u8 == 0u8) by (bit_vector);
                assert(encode_scalar(first as u32) =~= seq![0u8]);
            }
        }
        assert(first != '\n') by {
            if first == '\n' {
                assert((10u32 & 0x7Fu32) as u8 == 10u8) by (bit_vector);
                assert(encode_scalar(first as u32) =~= seq![10u8]);
            }
        }
        assert forall|j: int| 0 <= j < rest.len() implies rest[j] != 0 && rest[j] != 10 by {
            assert(rest[j] == b[j + vstd::utf8::length_of_first_scalar(b)]);
        }
        lemma_decoded_plain(rest);
        assert(decode_utf8(b) == seq![first] + decode_utf8(rest));
    }
}

/// Valid UTF-8 with no NUL or newline byte, whose byte 80 (if any) starts a
/// character, can be previewed.
proof fn lemma_plain_bytes_previewable(b: Seq<u8>)
    requires
        valid_utf8(b),
        forall|j: int| 0 <= j < b.len() ==> b[j] != 0 && b[j] != 10,
        b.len() <= PREVIEW_BYTES || !is_continuation_byte(b[PREVIEW_BYTES as int]),
    ensures
        previewable(decode_utf8(b)),
{
    let c = decode_utf8(b);
    lemma_decoded_plain(b);
    lemma_sanitize_plain(c);
    vstd::utf8::decode_utf8_encode_utf8(b);
    if b.len() > PREVIEW_BYTES {
        vstd::utf8::is_char_boundary_iff_not_is_continuation_byte(b, PREVIEW_BYTES as int);
    }
}

/// In valid UTF-8, the end of a run of ASCII bytes from the start is a
/// character boundary.
proof fn lemma_ascii_prefix_boundary(b: Seq<u8>, k: int)
    requires
        valid_utf8(b),
        0 <= k <= b.len(),
        forall|j: int| 0 <= j < k ==> b[j] <= 0x7f,
    ensures
        is_char_boundary(b, k),
    decreases k,
{
    if k > 0 {
        let rest = vstd::utf8::pop_first_scalar(b);
        assert(vstd::utf8::length_of_first_scalar(b) == 1);
        assert forall|j: int| 0 <= j < k - 1 implies rest[j] <= 0x7f by {
            assert(rest[j] == b[j + 1]);
        }
        lemma_ascii_prefix_boundary(rest, k - 1);
    }
}

/// Every adversarial payload can be previewed: the two that are not UTF-8
/// are reported by size, and the text of the others can be cut.
pub proof fn lemma_payload_previewable(i: int)
    requires
        0 <= i < ADIF_PAYLOAD_COUNT,
    ensures
        bytes_previewable(adif_payload(i)),
{
    let b = adif_payload(i);
    if i == 1 {
        assert(!valid_utf8(b));
    } else if i == 2 {
        if valid_utf8(b) {
            lemma_ascii_prefix_boundary(b, 128);
            vstd::utf8::is_char_boundary_iff_not_is_continuation_byte(b, 128);
            assert(b[128] == 0x80u8);
        }
    } else if valid_utf8(b) {
        assert(forall|j: int| 0 <= j < b.len() ==> b[j] != 0 && b[j] != 10);
        assert(b.len() <= PREVIEW_BYTES || !is_continuation_byte(b[PREVIEW_BYTES as int]));
        lemma_plain_bytes_previewable(b);
    }
}

/// How many ADIF mapper cases there are.
pub const MAPPER_CASE_COUNT: usize = 4;

/// The name of ADIF mapper case `i`.
pub open spec fn mapper_case_name(i: int) -> Seq<char> {
    if i == 0 {
        "empty record"@
    } else if i == 1 {
        "call only"@
    } else if i == 2 {
        "non-ascii date"@
    } else {
        "adversarial fields"@
    }
}

/// The fields (name and value) of ADIF mapper case `i`.
pub open spec fn mapper_case_fields(i: int) -> Seq<(Seq<char>, Seq<char>)> {
    if i == 0 {
        seq![]
    } else if i == 1 {
        seq![("CALL"@, "W1AW"@)]
    } else if i == 2 {
        seq![("CALL"@, "W1AW"@), ("QSO_DATE"@, "202\u{FC}123"@)]
    } else {
        seq![
            ("CALL"@, "\u{200F}\u{202E}"@),
            ("TIME_ON"@, "ZZZZ"@),
            ("BAND"@, "999ZZZ"@),
            ("MODE"@, "\t\n\r"@),
            ("FREQ"@, "-0.0"@),
        ]
    }
}

/// The ADIF mapper cases: a name and the record fields to map.
pub fn mapper_field_cases() -> (r: Vec<(String, Vec<(String, String)>)>)
    ensures
        r@.len() == MAPPER_CASE_COUNT,
        forall|i: int|
            0 <= i < MAPPER_CASE_COUNT ==> (#[trigger] r@[i]).0@ == mapper_case_name(i)
                && pair_views(r@[i].1@) == mapper_case_fields(i),
{
    let r = vec![
        ("empty record".to_owned(), Vec::new()),
        ("call only".to_owned(), vec![text_pair("CALL", "W1AW")]),
        ("non-ascii date".to_owned(), vec![text_pair("CALL", "W1AW"), text_pair("QSO_DATE", "202\u{FC}123")]),
        (
            "adversarial fields".to_owned(),
            vec![
                text_pair("CALL", "\u{200F}\u{202E}"),
                text_pair("TIME_ON", "ZZZZ"),
                text_pair("BAND", "999ZZZ"),
                text_pair("MODE", "\t\n\r"),
                text_pair("FREQ", "-0.0"),
            ],
        ),
    ];
    assert forall|i: int| 0 <= i < MAPPER_CASE_COUNT implies (#[trigger] r@[i]).0@
        == mapper_case_name(i) && pair_views(r@[i].1@) == mapper_case_fields(i) by {
        assert(pair_views(r@[i].1@) =~= mapper_case_fields(i));
    }
    r
}

/// `a * b`, or `usize::MAX` when that does not fit.
pub open spec fn saturating_product(a: nat, b: nat) -> nat {
    if a * b > usize::MAX {
        usize::MAX as nat
    } else {
        a * b
    }
}

/// What vector `kind` reports as its input on iteration `iteration`: a
/// preview of the adversarial string or payload it sends, a fixed note,
/// or the export cut-off it asks for.
pub open spec fn vector_sample(kind: GrpcVectorKind, iteration: nat) -> Seq<char> {
    let value = adversarial_text((iteration % ADVERSARIAL_STRING_COUNT as nat) as int);
    match kind {
        GrpcVectorKind::LogQsoAdversarial => "QSO "@ + preview_text(value),
        GrpcVectorKind::LogQsoMissingFields => "default QsoRecord"@,
        GrpcVectorKind::ImportAdifGarbage => bytes_preview(
            adif_payload((iteration % ADIF_PAYLOAD_COUNT as nat) as int),
        ),
        GrpcVectorKind::ExportAdifChaos => "after-seconds="@ + decimal(
            saturating_product(iteration, 97),
        ),
        _ => preview_text(value),
    }
}

pub(crate) fn prefixed(prefix: &str, rest: &[char]) -> (r: String)
    ensures
        r@ == prefix@ + rest@,
{
    let mut v = str_to_chars(prefix);
    let mut i: usize = 0;
    while i < rest.len()
        invariant
            i <= rest@.len(),
            v@ == prefix@ + rest@.take(i as int),
        decreases rest@.len() - i,
    {
        v.push(rest[i]);
        assert(rest@.take(i + 1) =~= rest@.take(i as int).push(rest@[i as int]));
        i = i + 1;
    }
    assert(rest@.take(rest@.len() as int) =~= rest@);
    chars_to_string(v.as_slice())
}

impl GrpcVectorKind {
    /// The input this vector reports on iteration `iteration`.
    pub fn sample(self, iteration: usize) -> (r: String)
        ensures
            r@ == vector_sample(self, iteration as nat),
    {
        let strings = adversarial_strings();
        let k = iteration % strings.len();
        proof {
            lemma_adversarial_previewable(k as int);
        }
        let value = strings[k].clone();
        match self {
            GrpcVectorKind::LogQsoAdversarial => {
                let p = preview_string(value.as_str());
                let pc = str_to_chars(p.as_str());
                prefixed("QSO ", pc.as_slice())
            },
            GrpcVectorKind::LogQsoMissingFields => "default QsoRecord".to_owned(),
            GrpcVectorKind::ImportAdifGarbage => {
                let payloads = adversarial_adif_payloads();
                let j = iteration % payloads.len();
                proof {
                    lemma_payload_previewable(j as int);
                }
                preview_bytes(payloads[j].as_slice())
            },
            GrpcVectorKind::ExportAdifChaos => {
                let n: usize = match iteration.checked_mul(97) {
                    Some(v) => v,
                    None => usize::MAX,
                };
                let d = decimal_chars(n as u64);
                prefixed("after-seconds=", d.as_slice())
            },
            _ => preview_string(value.as_str()),
        }
    }
}

} // verus!
