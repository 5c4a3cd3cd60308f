//! From the bytes of a file to lines of text.

use vstd::prelude::*;

verus! {

/// The text that bytes stand for when every ill-formed part is replaced by U+FFFD.
pub uninterp spec fn lossy_text(bytes: Seq<u8>) -> Seq<char>;

/// `String::from_utf8_lossy` gives the text that `lossy_text` names; where the bytes are UTF-8, it
/// is the text that they encode.
#[verifier::external_body]
fn decode_lossy(bytes: &[u8]) -> (res: String)
    ensures
        res@ == lossy_text(bytes@),
        vstd::utf8::valid_utf8(bytes@) ==> res@ == vstd::utf8::decode_utf8(bytes@),
{
    String::from_utf8_lossy(bytes).into_owned()
}

/// The text that bytes stand for: what they encode where they are UTF-8; otherwise every ill-formed
/// part is replaced.
pub open spec fn decoded(bytes: Seq<u8>) -> Seq<char> {
    if vstd::utf8::valid_utf8(bytes) {
        vstd::utf8::decode_utf8(bytes)
    } else {
        lossy_text(bytes)
    }
}

/// The number of bytes that a text takes up in UTF-8.
pub open spec fn byte_len(s: Seq<char>) -> nat {
    vstd::utf8::encode_utf8(s).len()
}

/// The longest prefix of `s` that takes up at most `max` bytes.
pub open spec fn clipped(s: Seq<char>, max: nat) -> Seq<char>
    decreases s.len(),
{
    if s.len() == 0 || byte_len(s) <= max {
        s
    } else {
        clipped(s.drop_last(), max)
    }
}

/// `s` without what goes beyond `max` bytes; a character is kept whole or not at all.
pub fn clip(s: String, max: usize) -> (res: String)
    ensures
        res@ == clipped(s@, max as nat),
{
    let mut res: String = s;
    while res.as_str().as_bytes().len() > max
        invariant
            clipped(res@, max as nat) == clipped(s@, max as nat),
        decreases res@.len(),
    {
        assert(res@.len() > 0) by {
            if res@.len() == 0 {
                assert(byte_len(res@) == 0);
            }
        }
        let _ = res.pop();
    }
    res
}

/// The bytes of each complete line, without its line feed, and the bytes behind the last line feed.
pub open spec fn cut(bytes: Seq<u8>) -> (Seq<Seq<u8>>, Seq<u8>)
    decreases bytes.len(),
{
    if bytes.len() == 0 {
        (seq![], seq![])
    } else {
        let (lines, rest) = cut(bytes.drop_last());
        if bytes.last() == 0x0A {
            (lines.push(rest), seq![])
        } else {
            (lines, rest.push(bytes.last()))
        }
    }
}

/// A line without the carriage return at its end.
pub open spec fn without_return(line: Seq<u8>) -> Seq<u8> {
    if line.len() > 0 && line.last() == 0x0D {
        line.drop_last()
    } else {
        line
    }
}

/// The text of a line, clipped to `max` bytes.
pub open spec fn line_text(line: Seq<u8>, max: nat) -> Seq<char> {
    clipped(decoded(without_return(line)), max)
}

/// The texts of the complete lines.
pub open spec fn line_texts(bytes: Seq<u8>, max: nat) -> Seq<Seq<char>> {
    cut(bytes).0.map_values(|line: Seq<u8>| line_text(line, max))
}

/// The text of a line, clipped to `max` bytes.
pub fn decode_line(line: &[u8], max: usize) -> (res: String)
    ensures
        res@ == line_text(line@, max as nat),
{
    let len: usize = line.len();
    if len > 0 && line[len - 1] == 0x0D {
        let kept: &[u8] = vstd::slice::slice_subrange(line, 0, len - 1);
        assert(kept@ =~= line@.drop_last());
        clip(decode_lossy(kept), max)
    } else {
        clip(decode_lossy(line), max)
    }
}

/// A byte below 0x80 in the encoding of a character is the character itself.
proof fn low_byte_is_the_character(c: char, j: int)
    requires
        0 <= j < vstd::utf8::encode_scalar(c as u32).len(),
        vstd::utf8::encode_scalar(c as u32)[j] < 0x80,
    ensures
        vstd::utf8::encode_scalar(c as u32).len() == 1,
        vstd::utf8::encode_scalar(c as u32)[j] as char == c,
{
    let v = c as u32;
    assert(0x80u8 | ((v & 0x3F) as u8) >= 0x80) by (bit_vector);
    assert(0x80u8 | (((v >> 6) & 0x3F) as u8) >= 0x80) by (bit_vector);
    assert(0x80u8 | (((v >> 12) & 0x3F) as u8) >= 0x80) by (bit_vector);
    assert(0xC0u8 | (((v >> 6) & 0x1F) as u8) >= 0x80) by (bit_vector);
    assert(0xE0u8 | (((v >> 12) & 0x0F) as u8) >= 0x80) by (bit_vector);
    assert(0xF0u8 | (((v >> 18) & 0x07) as u8) >= 0x80) by (bit_vector);
    assert(v <= 0x7F ==> (v & 0x7F) as u8 as u32 == v) by (bit_vector);
    vstd::utf8::char_u32_cast(c, v);
}

/// A byte below 0x80 in the encoding of a text is one of its characters, and the last byte the last
/// character.
proof fn low_bytes_are_characters(s: Seq<char>, j: int)
    requires
        0 <= j < vstd::utf8::encode_utf8(s).len(),
        vstd::utf8::encode_utf8(s)[j] < 0x80,
    ensures
        s.contains(vstd::utf8::encode_utf8(s)[j] as char),
        j == vstd::utf8::encode_utf8(s).len() - 1 ==> s.last() == vstd::utf8::encode_utf8(
            s,
        )[j] as char,
    decreases s.len(),
{
    let first = vstd::utf8::encode_scalar(s[0] as u32);
    let rest = s.drop_first();
    let bytes = vstd::utf8::encode_utf8(s);
    assert(bytes == first + vstd::utf8::encode_utf8(rest));
    if j < first.len() {
        low_byte_is_the_character(s[0], j);
        assert(s.contains(s[0]));
        if j == bytes.len() - 1 && rest.len() > 0 {
            encoding_is_not_empty(rest);
        }
    } else {
        let k = j - first.len();
        low_bytes_are_characters(rest, k);
        let m = choose|m: int| 0 <= m < rest.len() && rest[m] == bytes[j] as char;
        assert(s[m + 1] == bytes[j] as char);
    }
}

proof fn encoding_is_not_empty(s: Seq<char>)
    requires
        s.len() > 0,
    ensures
        vstd::utf8::encode_utf8(s).len() > 0,
{
    assert(vstd::utf8::encode_scalar(s[0] as u32).len() > 0);
}

/// A line that was written in UTF-8 and fits is shown as it was written.
pub proof fn written_line_is_shown(s: Seq<char>, max: nat)
    requires
        s.len() > 0 ==> s.last() != '\r',
        byte_len(s) <= max,
    ensures
        line_text(vstd::utf8::encode_utf8(s), max) == s,
{
    let bytes = vstd::utf8::encode_utf8(s);
    vstd::utf8::encode_utf8_valid_utf8(s);
    vstd::utf8::encode_utf8_decode_utf8(s);
    if bytes.len() > 0 && bytes.last() == 0x0D {
        low_bytes_are_characters(s, bytes.len() - 1);
    }
    clipped_text_fits(s, max);
}

/// Text without a line feed, written in UTF-8 with a line feed behind it, is one line, which is
/// shown as it was written.
pub proof fn written_line_is_one_line(s: Seq<char>, max: nat)
    requires
        !s.contains('\n'),
        s.len() > 0 ==> s.last() != '\r',
        byte_len(s) <= max,
    ensures
        line_texts(vstd::utf8::encode_utf8(s).push(0x0A), max) == seq![s],
{
    let bytes = vstd::utf8::encode_utf8(s);
    let all = bytes.push(0x0A);
    assert forall|j: int| 0 <= j < bytes.len() implies #[trigger] bytes[j] != 0x0A by {
        if bytes[j] == 0x0A {
            low_bytes_are_characters(s, j);
        }
    }
    one_unfinished_line(bytes);
    assert(all.drop_last() =~= bytes);
    written_line_is_shown(s, max);
    assert(cut(all).0 =~= seq![bytes]);
    assert(line_texts(all, max) =~= seq![s]);
}

/// Bytes that are cut where they arrive give the same lines as all of them cut at once: the rest of
/// the first part is put before the second.
pub proof fn cutting_in_parts(a: Seq<u8>, b: Seq<u8>)
    ensures
        cut(a + b).0 == cut(a).0 + cut(cut(a).1 + b).0,
        cut(a + b).1 == cut(cut(a).1 + b).1,
    decreases b.len(),
{
    let rest = cut(a).1;
    if b.len() == 0 {
        assert(a + b =~= a);
        assert(rest + b =~= rest);
        rest_holds_no_line(a);
        one_unfinished_line(rest);
        assert(cut(a).0 + cut(rest).0 =~= cut(a).0);
    } else {
        let front = b.drop_last();
        assert((a + b).drop_last() =~= a + front);
        assert((rest + b).drop_last() =~= rest + front);
        cutting_in_parts(a, front);
        assert((a + b).last() == b.last());
        assert((rest + b).last() == b.last());
        if b.last() == 0x0A {
            let whole = cut(a + front);
            let part = cut(rest + front);
            assert(cut(a).0 + part.0.push(part.1) =~= (cut(a).0 + part.0).push(part.1));
        }
    }
}

/// What stands behind the last line feed holds none.
proof fn rest_holds_no_line(bytes: Seq<u8>)
    ensures
        forall|i: int| 0 <= i < cut(bytes).1.len() ==> #[trigger] cut(bytes).1[i] != 0x0A,
    decreases bytes.len(),
{
    if bytes.len() > 0 {
        let front = bytes.drop_last();
        rest_holds_no_line(front);
        assert forall|i: int| 0 <= i < cut(bytes).1.len() implies #[trigger] cut(bytes).1[i]
            != 0x0A by {
            if i < cut(front).1.len() {
                assert(cut(bytes).1[i] == cut(front).1[i]);
            }
        }
    }
}

/// Bytes without a line feed are an unfinished line.
proof fn one_unfinished_line(bytes: Seq<u8>)
    requires
        forall|i: int| 0 <= i < bytes.len() ==> #[trigger] bytes[i] != 0x0A,
    ensures
        cut(bytes).0 == Seq::<Seq<u8>>::empty(),
        cut(bytes).1 == bytes,
    decreases bytes.len(),
{
    if bytes.len() > 0 {
        let front = bytes.drop_last();
        assert forall|i: int| 0 <= i < front.len() implies #[trigger] front[i] != 0x0A by {
            assert(bytes[i] == front[i]);
        }
        one_unfinished_line(front);
        assert(bytes.last() == bytes[bytes.len() - 1]);
        assert(front.push(bytes.last()) =~= bytes);
    } else {
        assert(bytes =~= seq![]);
    }
}

/// A clipped text is a prefix of the text and takes up at most `max` bytes; a text that fits is
/// kept.
pub proof fn clipped_text_fits(s: Seq<char>, max: nat)
    ensures
        clipped(s, max).is_prefix_of(s),
        byte_len(clipped(s, max)) <= max,
        byte_len(s) <= max ==> clipped(s, max) == s,
    decreases s.len(),
{
    if s.len() == 0 {
        assert(byte_len(s) == 0);
    } else if byte_len(s) > max {
        clipped_text_fits(s.drop_last(), max);
    }
}

/// No longer prefix than the clipped text fits.
pub proof fn clipped_text_is_longest(s: Seq<char>, max: nat, n: int)
    requires
        0 <= n <= s.len(),
        byte_len(s.take(n)) <= max,
    ensures
        n <= clipped(s, max).len(),
    decreases s.len(),
{
    if s.len() > 0 && byte_len(s) > max {
        if n == s.len() {
            assert(s.take(n) =~= s);
        } else {
            assert(s.drop_last().take(n) =~= s.take(n));
            clipped_text_is_longest(s.drop_last(), max, n);
        }
    }
}

} // verus!
