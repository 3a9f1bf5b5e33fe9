//! MLT collections: several AA texts stored in one file, separated by the
//! marker `[SPLIT]`.

use vstd::prelude::*;
use crate::text::{chars_of, string_of, views};
use vstd::utf8::{decode_utf8, encode_utf8, valid_utf8};

verus! {

/// The separator written between two texts of an MLT file.
pub open spec fn split_marker() -> Seq<char> {
    seq!['[', 'S', 'P', 'L', 'I', 'T', ']']
}

/// The marker occurs in `s` starting at index `i`.
pub open spec fn marker_at(s: Seq<char>, i: int) -> bool {
    0 <= i && i + 7 <= s.len() && s.subrange(i, i + 7) == split_marker()
}

/// The marker occurs somewhere inside `s`.
pub open spec fn contains_marker(s: Seq<char>) -> bool {
    exists|i: int| #[trigger] marker_at(s, i)
}

/// The texts joined into one, with the marker between each two neighbours.
pub open spec fn join_texts(texts: Seq<Seq<char>>) -> Seq<char>
    decreases texts.len(),
{
    if texts.len() == 0 {
        seq![]
    } else if texts.len() == 1 {
        texts[0]
    } else {
        texts[0] + split_marker() + join_texts(texts.drop_first())
    }
}

/// A split of `s` at every marker: the pieces join back to `s`, there is at
/// least one piece, and no piece holds a marker.
pub open spec fn is_split_of(pieces: Seq<Seq<char>>, s: Seq<char>) -> bool {
    &&& pieces.len() >= 1
    &&& join_texts(pieces) == s
    &&& forall|k: int| 0 <= k < pieces.len() ==> !contains_marker(#[trigger] pieces[k])
}

proof fn lemma_join_push(texts: Seq<Seq<char>>, t: Seq<char>)
    requires
        texts.len() >= 1,
    ensures
        join_texts(texts.push(t)) == join_texts(texts) + split_marker() + t,
    decreases texts.len(),
{
    if texts.len() == 1 {
        assert(texts.push(t).drop_first() =~= seq![t]);
        assert(join_texts(seq![t]) == t);
        assert(texts.push(t)[0] == texts[0]);
    } else {
        lemma_join_push(texts.drop_first(), t);
        assert(texts.push(t).drop_first() =~= texts.drop_first().push(t));
        assert(texts.push(t)[0] == texts[0]);
        assert(join_texts(texts.push(t)) =~= join_texts(texts) + split_marker() + t);
    }
}

/// Splits `text` at every `[SPLIT]` marker, from left to right. Only one
/// list of pieces meets the contract (see `lemma_split_unique`).
pub fn split_mlt(text: &str) -> (pieces: Vec<String>)
    ensures
        is_split_of(views(pieces@), text@),
{
    let cs = chars_of(text);
    let n = cs.len();
    let mut pieces: Vec<String> = Vec::new();
    let mut start: usize = 0;
    let mut i: usize = 0;
    while n - i >= 7
        invariant
            n == cs.len(),
            cs@ == text@,
            start <= i,
            i <= n,
            forall|j: int| start <= j < i ==> !marker_at(cs@, j),
            pieces.len() == 0 ==> start == 0,
            pieces.len() >= 1 ==> start >= 7 && join_texts(views(pieces@)) + split_marker()
                == cs@.subrange(0, start as int),
            forall|k: int| 0 <= k < pieces.len() ==> !contains_marker(#[trigger] views(pieces@)[k]),
        decreases n - i,
    {
        if cs[i] == '[' && cs[i + 1] == 'S' && cs[i + 2] == 'P' && cs[i + 3] == 'L' && cs[i + 4] == 'I'
            && cs[i + 5] == 'T' && cs[i + 6] == ']' {
            assert(marker_at(cs@, i as int)) by {
                assert(cs@.subrange(i as int, i + 7) =~= split_marker());
            }
            let piece = string_of(&cs, start, i);
            proof {
                let p = cs@.subrange(start as int, i as int);
                assert forall|j: int| !marker_at(p, j) by {
                    if marker_at(p, j) {
                        assert(cs@.subrange(start + j, start + j + 7) =~= p.subrange(j, j + 7));
                        assert(marker_at(cs@, start + j));
                    }
                }
                let old_views = views(pieces@);
                if pieces.len() >= 1 {
                    lemma_join_push(old_views, p);
                }
            }
            let ghost before = pieces@;
            pieces.push(piece);
            proof {
                assert(views(pieces@) =~= views(before).push(piece@));
            }
            start = i + 7;
            i = i + 7;
        } else {
            assert(!marker_at(cs@, i as int)) by {
                if marker_at(cs@, i as int) {
                    let m = cs@.subrange(i as int, i + 7);
                    assert(m[0] == cs@[i as int]);
                    assert(m[1] == cs@[i + 1]);
                    assert(m[2] == cs@[i + 2]);
                    assert(m[3] == cs@[i + 3]);
                    assert(m[4] == cs@[i + 4]);
                    assert(m[5] == cs@[i + 5]);
                    assert(m[6] == cs@[i + 6]);
                }
            }
            i = i + 1;
        }
    }
    let last = string_of(&cs, start, n);
    proof {
        let p = cs@.subrange(start as int, n as int);
        assert forall|j: int| !marker_at(p, j) by {
            if marker_at(p, j) {
                assert(cs@.subrange(start + j, start + j + 7) =~= p.subrange(j, j + 7));
                assert(marker_at(cs@, start + j));
            }
        }
        if pieces.len() >= 1 {
            lemma_join_push(views(pieces@), p);
        }
        assert(cs@.subrange(0, start as int) + p =~= cs@);
    }
    let ghost before = pieces@;
    pieces.push(last);
    proof {
        assert(views(pieces@) =~= views(before).push(last@));
        if before.len() == 0 {
            assert(cs@.subrange(0, 0 as int) =~= seq![]);
            assert(cs@.subrange(0, n as int) =~= cs@);
        }
    }
    pieces
}

/// Joins the texts into one, with `[SPLIT]` between each two neighbours.
pub fn join_mlt(texts: &Vec<String>) -> (res: String)
    ensures
        res@ == join_texts(views(texts@)),
{
    let mut res = String::new();
    let marker = "[SPLIT]";
    proof {
        reveal_strlit("[SPLIT]");
        assert(marker@ =~= split_marker());
    }
    let mut i: usize = 0;
    while i < texts.len()
        invariant
            i <= texts.len(),
            marker@ == split_marker(),
            i == 0 ==> res@ == Seq::<char>::empty(),
            i > 0 ==> res@ == join_texts(views(texts@).take(i as int)),
        decreases texts.len() - i,
    {
        let ghost prev = res@;
        if i > 0 {
            res.append(marker);
        }
        res.append(texts[i].as_str());
        proof {
            let v = views(texts@);
            if i == 0 {
                assert(v.take(1) =~= seq![v[0]]);
                assert(join_texts(seq![v[0]]) == v[0]);
            } else {
                lemma_join_push(v.take(i as int), v[i as int]);
                assert(v.take(i as int).push(v[i as int]) =~= v.take(i + 1));
            }
        }
        i += 1;
    }
    proof {
        let v = views(texts@);
        assert(v.take(texts.len() as int) =~= v);
        if texts.len() == 0 {
            assert(v =~= Seq::<Seq<char>>::empty());
        }
    }
    res
}

/// Two markers never overlap: `[SPLIT]` has no border.
proof fn lemma_markers_apart(s: Seq<char>, x: int, y: int)
    requires
        marker_at(s, x),
        marker_at(s, y),
        x < y,
    ensures
        x + 7 <= y,
{
    if y < x + 7 {
        assert(s.subrange(x, x + 7)[6] == ']');
        assert(s[x + 6] == ']');
        let k = x + 6 - y;
        assert(s.subrange(y, y + 7)[k] == s[x + 6]);
        assert(split_marker()[k] != ']');
    }
}

proof fn lemma_join_parts(a: Seq<Seq<char>>)
    requires
        a.len() > 1,
    ensures
        ({
            let s = join_texts(a);
            let x = a[0].len() as int;
            &&& s.subrange(0, x) == a[0]
            &&& marker_at(s, x)
            &&& s.subrange(x + 7, s.len() as int) == join_texts(a.drop_first())
        }),
{
    let s = join_texts(a);
    let x = a[0].len() as int;
    assert(s.subrange(0, x) =~= a[0]);
    assert(s.subrange(x, x + 7) =~= split_marker());
    assert(s.subrange(x + 7, s.len() as int) =~= join_texts(a.drop_first()));
}

proof fn lemma_marker_in_prefix(s: Seq<char>, p: Seq<char>, x: int)
    requires
        s.subrange(0, p.len() as int) == p,
        p.len() <= s.len(),
        marker_at(s, x),
        x + 7 <= p.len(),
    ensures
        contains_marker(p),
{
    assert(p.subrange(x, x + 7) =~= s.subrange(x, x + 7));
    assert(marker_at(p, x));
}

/// There is only one way to split a text at its markers: any two lists of
/// marker-free texts that join to the same text are equal.
pub proof fn lemma_split_unique(a: Seq<Seq<char>>, b: Seq<Seq<char>>, s: Seq<char>)
    requires
        is_split_of(a, s),
        is_split_of(b, s),
    ensures
        a == b,
    decreases a.len(),
{
    if a.len() == 1 && b.len() == 1 {
        assert(a =~= b);
    } else if a.len() == 1 {
        lemma_join_parts(b);
        lemma_marker_in_prefix(s, s, b[0].len() as int);
        assert(s.subrange(0, s.len() as int) =~= s);
        assert(!contains_marker(a[0]));
    } else if b.len() == 1 {
        lemma_join_parts(a);
        assert(s.subrange(0, s.len() as int) =~= s);
        lemma_marker_in_prefix(s, s, a[0].len() as int);
        assert(!contains_marker(b[0]));
    } else {
        lemma_join_parts(a);
        lemma_join_parts(b);
        let x = a[0].len() as int;
        let y = b[0].len() as int;
        if x < y {
            lemma_markers_apart(s, x, y);
            lemma_marker_in_prefix(s, b[0], x);
            assert(!contains_marker(b[0]));
        } else if y < x {
            lemma_markers_apart(s, y, x);
            lemma_marker_in_prefix(s, a[0], y);
            assert(!contains_marker(a[0]));
        } else {
            let rest = s.subrange(x + 7, s.len() as int);
            assert forall|k: int| 0 <= k < a.drop_first().len() implies !contains_marker(
                #[trigger] a.drop_first()[k],
            ) by {
                assert(a.drop_first()[k] == a[k + 1]);
            }
            assert forall|k: int| 0 <= k < b.drop_first().len() implies !contains_marker(
                #[trigger] b.drop_first()[k],
            ) by {
                assert(b.drop_first()[k] == b[k + 1]);
            }
            lemma_split_unique(a.drop_first(), b.drop_first(), rest);
            assert(a =~= b) by {
                assert forall|k: int| 0 <= k < a.len() implies a[k] == b[k] by {
                    if k > 0 {
                        assert(a[k] == a.drop_first()[k - 1]);
                        assert(b[k] == b.drop_first()[k - 1]);
                    }
                }
            }
        }
    }
}

/// Splitting the joined texts gives the texts back, as long as there is at
/// least one text and none of them holds a marker.
pub proof fn lemma_split_join(texts: Seq<Seq<char>>, pieces: Seq<Seq<char>>)
    requires
        texts.len() >= 1,
        forall|k: int| 0 <= k < texts.len() ==> !contains_marker(#[trigger] texts[k]),
        is_split_of(pieces, join_texts(texts)),
    ensures
        pieces == texts,
{
    lemma_split_unique(pieces, texts, join_texts(texts));
}

/// Texts written out as an MLT file in UTF-8 and read back are the same
/// texts, as long as there is at least one and none holds a marker.
pub proof fn lemma_export_then_import(texts: Seq<Seq<char>>, pieces: Seq<Seq<char>>)
    requires
        texts.len() >= 1,
        forall|k: int| 0 <= k < texts.len() ==> !contains_marker(#[trigger] texts[k]),
        is_split_of(pieces, mlt_text_of(encode_utf8(join_texts(texts)))),
    ensures
        pieces == texts,
{
    let joined = join_texts(texts);
    vstd::utf8::encode_utf8_valid_utf8(joined);
    vstd::utf8::encode_utf8_decode_utf8(joined);
    lemma_split_unique(pieces, texts, joined);
}

/// Joining the pieces of a split gives the text back.
pub proof fn lemma_join_split(s: Seq<char>, pieces: Seq<Seq<char>>)
    requires
        is_split_of(pieces, s),
    ensures
        join_texts(pieces) == s,
{
}

/// What `encoding_rs::SHIFT_JIS.decode` makes of the given bytes.
pub uninterp spec fn shift_jis_decoded(bytes: Seq<u8>) -> Seq<char>;

/// The bytes begin with a byte-order mark that `encoding_rs` honours:
/// EF BB BF (UTF-8), FF FE (UTF-16LE) or FE FF (UTF-16BE).
pub open spec fn starts_with_bom(bytes: Seq<u8>) -> bool {
    ||| (bytes.len() >= 3 && bytes[0] == 0xEF && bytes[1] == 0xBB && bytes[2] == 0xBF)
    ||| (bytes.len() >= 2 && bytes[0] == 0xFF && bytes[1] == 0xFE)
    ||| (bytes.len() >= 2 && bytes[0] == 0xFE && bytes[1] == 0xFF)
}

/// The character that a byte stands for alone in Shift_JIS, outside a
/// two-byte sequence: an ASCII byte and 0x80 the code point of the same
/// value, 0xA1 to 0xDF the half-width katakana U+FF61 to U+FF9F.
pub open spec fn shift_jis_single(b: u8) -> Option<char> {
    if b <= 0x80 {
        Some(b as char)
    } else if 0xA1 <= b && b <= 0xDF {
        Some((0xFF61 + (b - 0xA1)) as char)
    } else {
        None
    }
}

/// The text of bytes decoded as Shift_JIS. No bytes give no text. A byte
/// in front that stands alone for a character gives that character, ahead
/// of the text of the other bytes, unless those begin with a byte-order
/// mark. A byte below 0x40 at the end stands for its own character, after
/// the text of the other bytes, unless the bytes begin with a byte-order
/// mark. The rest is what `encoding_rs::SHIFT_JIS.decode` gives.
pub open spec fn shift_jis_text(bytes: Seq<u8>) -> Seq<char>
    decreases bytes.len(),
{
    if bytes.len() == 0 {
        seq![]
    } else if shift_jis_single(bytes[0]) is Some && !starts_with_bom(bytes.drop_first()) {
        seq![shift_jis_single(bytes[0])->0] + shift_jis_text(bytes.drop_first())
    } else if bytes.last() < 0x40 && !starts_with_bom(bytes) {
        shift_jis_text(bytes.drop_last()) + seq![bytes.last() as char]
    } else {
        shift_jis_decoded(bytes)
    }
}

/// The text of an MLT file's bytes: UTF-8 when the bytes are valid UTF-8,
/// Shift_JIS otherwise.
pub open spec fn mlt_text_of(bytes: Seq<u8>) -> Seq<char> {
    if valid_utf8(bytes) {
        decode_utf8(bytes)
    } else {
        shift_jis_text(bytes)
    }
}

/// One ASCII byte alone is valid UTF-8 for its own character, and in front
/// of other bytes it changes neither their validity nor their text.
proof fn lemma_utf8_leading_ascii(b: u8, bytes: Seq<u8>)
    requires
        b < 0x80,
    ensures
        valid_utf8(seq![b] + bytes) == valid_utf8(bytes),
        valid_utf8(bytes) ==> decode_utf8(seq![b] + bytes) == seq![b as char] + decode_utf8(bytes),
{
    let whole = seq![b] + bytes;
    assert(whole[0] == b);
    assert(b & 0x7f == b) by (bit_vector)
        requires
            b < 0x80,
    ;
    assert(vstd::utf8::valid_first_scalar(whole));
    assert(vstd::utf8::pop_first_scalar(whole) =~= bytes);
}

/// An ASCII byte after other bytes changes neither their validity as UTF-8
/// nor their text, and adds its own character.
proof fn lemma_utf8_trailing_ascii(bytes: Seq<u8>, b: u8)
    requires
        b < 0x80,
    ensures
        valid_utf8(bytes + seq![b]) == valid_utf8(bytes),
        valid_utf8(bytes) ==> decode_utf8(bytes + seq![b]) == decode_utf8(bytes) + seq![b as char],
{
    let whole = bytes + seq![b];
    let n = bytes.len() as int;
    lemma_utf8_leading_ascii(b, seq![]);
    assert(seq![b] + Seq::<u8>::empty() =~= seq![b]);
    assert(whole.subrange(0, n) =~= bytes);
    assert(whole.subrange(n, whole.len() as int) =~= seq![b]);
    if valid_utf8(bytes) {
        vstd::utf8::valid_utf8_concat(bytes, seq![b]);
    }
    if valid_utf8(whole) {
        vstd::utf8::is_char_boundary_iff_not_is_continuation_byte(whole, n);
        vstd::utf8::valid_utf8_split(whole, n);
        vstd::utf8::decode_utf8_split(whole, n);
    }
}

proof fn lemma_bom_of_prefix(bytes: Seq<u8>, b: u8)
    requires
        b < 0x40,
    ensures
        starts_with_bom(bytes + seq![b]) == starts_with_bom(bytes),
{
    let whole = bytes + seq![b];
    assert(forall|k: int| 0 <= k < bytes.len() ==> whole[k] == bytes[k]);
    assert(whole[bytes.len() as int] == b);
}

proof fn lemma_shift_jis_trailing(bytes: Seq<u8>, b: u8)
    requires
        b < 0x40,
        !starts_with_bom(bytes + seq![b]),
    ensures
        shift_jis_text(bytes + seq![b]) == shift_jis_text(bytes) + seq![b as char],
    decreases bytes.len(),
{
    let whole = bytes + seq![b];
    if bytes.len() == 0 {
        assert(whole =~= seq![b]);
        assert(whole.drop_first() =~= Seq::<u8>::empty());
        assert(shift_jis_text(whole) =~= seq![b as char] + shift_jis_text(Seq::<u8>::empty()));
        assert(shift_jis_text(bytes) =~= Seq::<char>::empty());
    } else {
        lemma_bom_of_prefix(bytes, b);
        assert(whole[0] == bytes[0]);
        assert(whole.drop_first() =~= bytes.drop_first() + seq![b]);
        lemma_bom_of_prefix(bytes.drop_first(), b);
        if shift_jis_single(bytes[0]) is Some && !starts_with_bom(bytes.drop_first()) {
            lemma_shift_jis_trailing(bytes.drop_first(), b);
            assert(shift_jis_text(whole) =~= seq![shift_jis_single(bytes[0])->0] + shift_jis_text(
                bytes.drop_first() + seq![b],
            ));
        } else {
            assert(whole.last() == b);
            assert(whole.drop_last() =~= bytes);
        }
    }
}

/// An ASCII byte in front of an MLT file's bytes puts its character in
/// front of the file's text, whether the file reads as UTF-8 or as
/// Shift_JIS, unless the other bytes begin with a byte-order mark: leading
/// spaces and line breaks are kept.
pub proof fn lemma_mlt_text_keeps_leading_ascii(b: u8, bytes: Seq<u8>)
    requires
        b < 0x80,
        !starts_with_bom(bytes),
    ensures
        mlt_text_of(seq![b] + bytes) == seq![b as char] + mlt_text_of(bytes),
{
    let whole = seq![b] + bytes;
    lemma_utf8_leading_ascii(b, bytes);
    assert(whole.len() > 0 && whole[0] == b);
    assert(whole.drop_first() =~= bytes);
}

/// Bytes that are not UTF-8 and begin with a byte that stands alone for a
/// character in Shift_JIS (ASCII, or a half-width katakana as AA often use)
/// read as that character ahead of the Shift_JIS text of the other bytes,
/// unless those begin with a byte-order mark.
pub proof fn lemma_mlt_text_single_byte_lead(b: u8, bytes: Seq<u8>)
    requires
        !valid_utf8(seq![b] + bytes),
        shift_jis_single(b) is Some,
        !starts_with_bom(bytes),
    ensures
        mlt_text_of(seq![b] + bytes) == seq![shift_jis_single(b)->0] + shift_jis_text(bytes),
{
    let whole = seq![b] + bytes;
    assert(whole.len() > 0 && whole[0] == b);
    assert(whole.drop_first() =~= bytes);
}

/// A byte below 0x40 (a space, a line break, a digit, most punctuation)
/// after an MLT file's bytes puts its character after the file's text,
/// whether the file reads as UTF-8 or as Shift_JIS, unless the bytes begin
/// with a byte-order mark: trailing spaces and line breaks are kept.
pub proof fn lemma_mlt_text_keeps_trailing_byte(bytes: Seq<u8>, b: u8)
    requires
        b < 0x40,
        !starts_with_bom(bytes + seq![b]),
    ensures
        mlt_text_of(bytes + seq![b]) == mlt_text_of(bytes) + seq![b as char],
{
    lemma_utf8_trailing_ascii(bytes, b);
    lemma_shift_jis_trailing(bytes, b);
}

/// Calls `std::str::from_utf8`, which accepts exactly the valid UTF-8 byte
/// sequences and then holds the characters they encode.
#[verifier::external_body]
fn utf8_str(bytes: &[u8]) -> (res: Option<&str>)
    ensures
        res is Some <==> valid_utf8(bytes@),
        res matches Some(s) ==> s@ == decode_utf8(bytes@),
{
    std::str::from_utf8(bytes).ok()
}

/// Calls `encoding_rs::SHIFT_JIS.decode`. The result is a function of the
/// bytes alone; it is only named here, but for single-byte characters in
/// front and low bytes at the end. The crate honours a leading byte-order
/// mark (`Encoding::for_bom`), then decodes byte by byte: outside a
/// two-byte sequence an ASCII byte or 0x80 is its own code point and 0xA1
/// to 0xDF a half-width katakana, each leaving the decoder as it was at the
/// start, and a byte below 0x40 never completes a two-byte sequence (after
/// a lead byte it is reported as malformed and read again as ASCII, just as
/// a lead byte left at the end is reported as malformed). Malformed
/// sequences become U+FFFD. The crate panics when the size of its output buffer overflows,
/// which the bound on the length rules out.
#[verifier::external_body]
fn shift_jis_str(bytes: &[u8]) -> (res: String)
    requires
        bytes@.len() <= usize::MAX / 8,
    ensures
        res@ == shift_jis_decoded(bytes@),
        res@ == shift_jis_text(bytes@),
{
    let (text, _, _) = encoding_rs::SHIFT_JIS.decode(bytes);
    text.into_owned()
}

/// Decodes the bytes of an MLT file: as UTF-8 when they are valid UTF-8,
/// else as Shift_JIS.
pub fn decode_mlt_text(bytes: Vec<u8>) -> (text: String)
    requires
        !valid_utf8(bytes@) ==> bytes@.len() <= usize::MAX / 8,
    ensures
        text@ == mlt_text_of(bytes@),
{
    match utf8_str(bytes.as_slice()) {
        Some(s) => String::from_str(s),
        None => shift_jis_str(bytes.as_slice()),
    }
}

/// The texts of an MLT file, from its bytes.
pub fn mlt_texts_from_bytes(bytes: Vec<u8>) -> (texts: Vec<String>)
    requires
        !valid_utf8(bytes@) ==> bytes@.len() <= usize::MAX / 8,
    ensures
        is_split_of(views(texts@), mlt_text_of(bytes@)),
{
    let text = decode_mlt_text(bytes);
    split_mlt(text.as_str())
}

} // verus!
