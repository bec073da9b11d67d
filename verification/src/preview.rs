//! One-line previews of stress inputs, cut by UTF-8 length.

use vstd::prelude::*;
use vstd::string::StringSliceAdditionalSpecFns;
use vstd::utf8::{decode_utf8, encode_utf8, is_char_boundary, valid_utf8};
use crate::textual::{chars_to_string, decimal, decimal_chars, str_to_chars};

verus! {

/// How many bytes of a preview are kept before it is cut.
pub const PREVIEW_BYTES: usize = 80;

/// `c` as it appears in a preview: NUL and newline are spelled `\0`, `\n`.
pub open spec fn escaped(c: char) -> Seq<char> {
    if c == '\0' {
        seq!['\\', '0']
    } else if c == '\n' {
        seq!['\\', 'n']
    } else {
        seq![c]
    }
}

/// `s` with every NUL and newline spelled out.
pub open spec fn sanitize(s: Seq<char>) -> Seq<char>
    decreases s.len(),
{
    if s.len() == 0 {
        seq![]
    } else {
        sanitize(s.drop_last()) + escaped(s.last())
    }
}

/// A preview of `value` can be cut: its sanitized UTF-8 form is at most 80
/// bytes long, or byte 80 starts a character.
pub open spec fn previewable(value: Seq<char>) -> bool {
    let bytes = encode_utf8(sanitize(value));
    bytes.len() <= PREVIEW_BYTES || is_char_boundary(bytes, PREVIEW_BYTES as int)
}

/// The preview of `value`: sanitized, and when longer than 80 bytes, its
/// first 80 bytes followed by `...`.
pub open spec fn preview_text(value: Seq<char>) -> Seq<char> {
    let t = sanitize(value);
    let bytes = encode_utf8(t);
    if bytes.len() > PREVIEW_BYTES {
        decode_utf8(bytes.take(PREVIEW_BYTES as int)) + seq!['.', '.', '.']
    } else {
        t
    }
}

/// What is shown for input bytes that are not UTF-8 text.
pub open spec fn binary_note(len: nat) -> Seq<char> {
    decimal(len) + " bytes of binary ADIF input"@
}

/// The preview of input bytes: of their text when they are UTF-8, else a
/// note of how many bytes there are.
pub open spec fn bytes_preview(bytes: Seq<u8>) -> Seq<char> {
    if valid_utf8(bytes) {
        preview_text(decode_utf8(bytes))
    } else {
        binary_note(bytes.len())
    }
}

/// The byte previews of which can be cut.
pub open spec fn bytes_previewable(bytes: Seq<u8>) -> bool {
    valid_utf8(bytes) ==> previewable(decode_utf8(bytes))
}

/// `String::from_utf8`: the text that `bytes` encode, when they are valid
/// UTF-8 (no overlong forms, no surrogates, nothing above U+10FFFF), else
/// `None`.
#[verifier::external_body]
fn text_from_utf8(bytes: &[u8]) -> (r: Option<String>)
    ensures
        r is Some <==> valid_utf8(bytes@),
        r matches Some(s) ==> s@ == decode_utf8(bytes@),
{
    String::from_utf8(bytes.to_vec()).ok()
}

fn sanitize_chars(s: &[char]) -> (r: Vec<char>)
    ensures
        r@ == sanitize(s@),
{
    let mut r: Vec<char> = Vec::new();
    let mut i: usize = 0;
    while i < s.len()
        invariant
            i <= s@.len(),
            r@ == sanitize(s@.take(i as int)),
        decreases s@.len() - i,
    {
        let c = s[i];
        if c == '\0' {
            r.push('\\');
            r.push('0');
        } else if c == '\n' {
            r.push('\\');
            r.push('n');
        } else {
            r.push(c);
        }
        assert(s@.take(i + 1).drop_last() =~= s@.take(i as int));
        i = i + 1;
    }
    assert(s@.take(s@.len() as int) =~= s@);
    r
}

/// The UTF-8 bytes of a text with one more character are those of the
/// text followed by the bytes of that character.
pub proof fn lemma_encode_push(s: Seq<char>, c: char)
    ensures
        encode_utf8(s.push(c)) == encode_utf8(s) + vstd::utf8::encode_scalar(c as u32),
    decreases s.len(),
{
    if s.len() == 0 {
        assert(s.push(c).drop_first() =~= Seq::<char>::empty());
        assert(encode_utf8(Seq::<char>::empty()) =~= Seq::<u8>::empty());
        assert(encode_utf8(s.push(c)) =~= vstd::utf8::encode_scalar(c as u32));
    } else {
        assert(s.push(c).drop_first() =~= s.drop_first().push(c));
        lemma_encode_push(s.drop_first(), c);
        assert(encode_utf8(s.push(c)) =~= encode_utf8(s) + vstd::utf8::encode_scalar(c as u32));
    }
}

/// The number of bytes in the UTF-8 encoding of `c`.
fn utf8_width(c: char) -> (w: usize)
    ensures
        w == vstd::utf8::encode_scalar(c as u32).len(),
        1 <= w <= 4,
{
    proof {
        vstd::utf8::char_is_scalar(c);
    }
    let u = c as u32;
    if u < 0x80 {
        1
    } else if u < 0x800 {
        2
    } else if u < 0x10000 {
        3
    } else {
        4
    }
}

/// The UTF-8 encoding of `t` is longer than `limit` bytes.
fn utf8_longer_than(t: &[char], limit: usize) -> (r: bool)
    requires
        limit < usize::MAX - 4,
    ensures
        r == (encode_utf8(t@).len() > limit),
{
    let mut acc: usize = 0;
    let mut i: usize = 0;
    while i < t.len() && acc <= limit
        invariant
            i <= t@.len(),
            limit < usize::MAX - 4,
            acc <= limit + 4,
            acc == encode_utf8(t@.take(i as int)).len(),
        decreases t@.len() - i,
    {
        let w = utf8_width(t[i]);
        proof {
            assert(t@.take(i + 1) =~= t@.take(i as int).push(t@[i as int]));
            lemma_encode_push(t@.take(i as int), t@[i as int]);
        }
        acc = acc + w;
        i = i + 1;
    }
    proof {
        if acc <= limit {
            assert(t@.take(i as int) =~= t@);
        } else {
            lemma_encode_prefix_len(t@, i as int);
        }
    }
    acc > limit
}

proof fn lemma_encode_prefix_len(s: Seq<char>, k: int)
    requires
        0 <= k <= s.len(),
    ensures
        encode_utf8(s.take(k)).len() <= encode_utf8(s).len(),
    decreases s.len() - k,
{
    if k < s.len() {
        lemma_encode_prefix_len(s, k + 1);
        assert(s.take(k + 1) =~= s.take(k).push(s[k]));
        lemma_encode_push(s.take(k), s[k]);
    } else {
        assert(s.take(k) =~= s);
    }
}

/// A one-line preview of `value`: NUL and newline spelled out, and cut to
/// its first 80 bytes, followed by `...`, when longer.
pub fn preview_string(value: &str) -> (r: String)
    requires
        previewable(value@),
    ensures
        r@ == preview_text(value@),
{
    let chars = str_to_chars(value);
    let t = sanitize_chars(chars.as_slice());
    let s = chars_to_string(t.as_slice());
    let text = s.as_str();
    if utf8_longer_than(t.as_slice(), PREVIEW_BYTES) {
        let (head, _tail) = text.split_at(PREVIEW_BYTES);
        proof {
            vstd::utf8::encode_utf8_decode_utf8(head@);
            assert(head.spec_bytes() =~= encode_utf8(t@).take(PREVIEW_BYTES as int));
        }
        let mut out = head.to_owned();
        out.push('.');
        out.push('.');
        out.push('.');
        proof {
            assert(decode_utf8(encode_utf8(head@)) == head@);
            assert(head@ == decode_utf8(encode_utf8(t@).take(PREVIEW_BYTES as int)));
            assert(out@ =~= head@ + seq!['.', '.', '.']);
            assert(t@ == sanitize(value@));
            assert(encode_utf8(t@).len() > PREVIEW_BYTES);
            assert(out@ == preview_text(value@));
        }
        out
    } else {
        assert(text@ == t@);
        assert(encode_utf8(t@).len() <= PREVIEW_BYTES);
        assert(s@ == preview_text(value@));
        s
    }
}

/// A one-line preview of input bytes: of their text when they are valid
/// UTF-8, else `<n> bytes of binary ADIF input`.
pub fn preview_bytes(value: &[u8]) -> (r: String)
    requires
        bytes_previewable(value@),
    ensures
        r@ == bytes_preview(value@),
{
    match text_from_utf8(value) {
        Some(text) => preview_string(text.as_str()),
        None => {
            let mut v = decimal_chars(value.len() as u64);
            let note = str_to_chars(" bytes of binary ADIF input");
            let mut i: usize = 0;
            while i < note.len()
                invariant
                    i <= note@.len(),
                    v@ == decimal(value@.len()) + note@.take(i as int),
                decreases note@.len() - i,
            {
                v.push(note[i]);
                assert(note@.take(i + 1) =~= note@.take(i as int).push(note@[i as int]));
                i = i + 1;
            }
            assert(note@.take(note@.len() as int) =~= note@);
            chars_to_string(v.as_slice())
        },
    }
}

/// A preview is at most 83 bytes of UTF-8: 80 bytes of text and `...`.
pub proof fn lemma_preview_is_short(value: Seq<char>)
    requires
        previewable(value),
    ensures
        encode_utf8(preview_text(value)).len() <= PREVIEW_BYTES + 3,
{
    let t = sanitize(value);
    let bytes = encode_utf8(t);
    if bytes.len() > PREVIEW_BYTES {
        let head = bytes.take(PREVIEW_BYTES as int);
        vstd::utf8::encode_utf8_valid_utf8(t);
        vstd::utf8::valid_utf8_split(bytes, PREVIEW_BYTES as int);
        assert(head =~= bytes.subrange(0, PREVIEW_BYTES as int));
        vstd::utf8::decode_utf8_encode_utf8(head);
        let d = decode_utf8(head);
        lemma_encode_push(d, '.');
        lemma_encode_push(d.push('.'), '.');
        lemma_encode_push(d.push('.').push('.'), '.');
        assert(d + seq!['.', '.', '.'] =~= d.push('.').push('.').push('.'));
        assert(vstd::utf8::encode_scalar('.' as u32).len() == 1);
    }
}

} // verus!
