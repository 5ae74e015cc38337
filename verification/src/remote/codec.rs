//! Frames: one message is one line of JSON.
use vstd::prelude::*;
use vstd::string::*;
use vstd::utf8::*;

use crate::remote::protocol::{RemoteError, RemoteErrorView};
use crate::session::log;
use crate::text;

verus! {

/// Whether a character is white space, by the property `White_Space` of Unicode.
pub open spec fn white_space(c: char) -> bool {
    let n = c as u32;
    ||| 0x9 <= n <= 0xd
    ||| n == 0x20 || n == 0x85 || n == 0xa0 || n == 0x1680
    ||| 0x2000 <= n <= 0x200a
    ||| n == 0x2028 || n == 0x2029 || n == 0x202f || n == 0x205f || n == 0x3000
}

/// Whether a character is white space.
fn is_white_space(c: char) -> (r: bool)
    ensures
        r == white_space(c),
{
    let n: u32 = c as u32;
    match n {
        0x9..=0xd => true,
        0x20 | 0x85 | 0xa0 | 0x1680 => true,
        0x2000..=0x200a => true,
        0x2028 | 0x2029 | 0x202f | 0x205f | 0x3000 => true,
        _ => false,
    }
}

/// Whether `r` is `text` without the white space at its two ends.
pub open spec fn is_trimmed(text: Seq<char>, r: Seq<char>) -> bool {
    exists|from: int, to: int| #[trigger]
        cuts(text, from, to) && r == text.subrange(from, to) && (from < to ==> !white_space(
            text[from],
        ) && !white_space(text[to - 1]))
}

/// Whether all characters of `text` before `from` and from `to` on are white space.
pub open spec fn cuts(text: Seq<char>, from: int, to: int) -> bool {
    &&& 0 <= from <= to <= text.len()
    &&& forall|i: int| 0 <= i < from ==> white_space(#[trigger] text[i])
    &&& forall|i: int| to <= i < text.len() ==> white_space(#[trigger] text[i])
}

/// Whether `line` is the frame of `json`, which begins and ends with something else than white
/// space.
pub open spec fn is_frame(line: Seq<char>, json: Seq<char>) -> bool {
    &&& json.len() > 0
    &&& !white_space(json[0])
    &&& !white_space(json.last())
    &&& line == json.push('\n')
}

/// The frame of a message that was written as JSON: the line, and its end.
pub fn encode_line(json: Vec<u8>) -> (r: Vec<u8>)
    ensures
        r@ == json@.push(10u8),
        r@ == log::framed(seq![json@]),
{
    let ghost line = json@;
    let mut bytes = json;
    bytes.push(10u8);
    proof {
        reveal_with_fuel(log::framed, 2);
        assert(seq![line].drop_last() =~= Seq::<Seq<u8>>::empty());
        assert(log::framed(seq![line]) =~= line.push(10u8));
    }
    bytes
}

/// The JSON in a line that was read, without the white space around it; `None` for a line that
/// holds nothing else, which is passed over. Of a frame it is what the frame was made of.
pub fn frame_text(line: &str) -> (r: Option<&str>)
    ensures
        match r {
            Some(s) => is_trimmed(line@, s@) && s@.len() > 0,
            None => is_blank(line@),
        },
        forall|json: Seq<char>| #[trigger]
            is_frame(line@, json) ==> (r matches Some(s) && s@ == json),
{
    let chars = text::chars_of(line);
    let n = chars.len();
    let mut from: usize = 0;
    while from < n && is_white_space(chars[from])
        invariant
            from <= n,
            n == chars@.len(),
            chars@ == line@,
            forall|i: int| 0 <= i < from ==> white_space(#[trigger] line@[i]),
        decreases n - from,
    {
        from += 1;
    }
    if from == n {
        proof {
            assert forall|json: Seq<char>| #[trigger] is_frame(line@, json) implies false by {
                assert(line@[0] == json[0]);
            }
        }
        return None;
    }
    assert(!white_space(line@[from as int]));
    let mut to: usize = n;
    while is_white_space(chars[to - 1])
        invariant
            from < to <= n,
            n == chars@.len(),
            chars@ == line@,
            !white_space(line@[from as int]),
            forall|i: int| to <= i < n ==> white_space(#[trigger] line@[i]),
        decreases to,
    {
        to -= 1;
    }
    assert(cuts(line@, from as int, to as int));
    proof {
        assert forall|json: Seq<char>| #[trigger] is_frame(line@, json) implies from == 0 && to == n
            - 1 && line@.subrange(from as int, to as int) == json by {
            assert(line@[0] == json[0]);
            assert(line@[n - 1] == '\n');
            assert(line@[n - 2] == json.last());
            assert(line@.subrange(0, n - 1) =~= json);
        }
    }
    Some(line.substring_char(from, to))
}

/// What a line decodes to, given what its JSON is read as.
pub open spec fn decodes_to<T>(
    parsed: Result<T, String>,
    r: Result<Option<T>, RemoteError>,
) -> bool {
    match parsed {
        Ok(v) => r == Ok::<Option<T>, RemoteError>(Some(v)),
        Err(e) => r matches Err(f) && f@ == RemoteErrorView::Protocol("invalid frame: "@ + e@),
    }
}

/// Whether `parse` reads the text `json` as `v`, whenever it is asked.
pub open spec fn reads<T, F: Fn(&str) -> Result<T, String>>(
    parse: F,
    json: Seq<char>,
    v: T,
) -> bool {
    forall|s: &str, p: Result<T, String>|
        s@ == json && #[trigger] call_ensures(parse, (s,), p) ==> p == Ok::<T, String>(v)
}

/// Whether a line holds nothing but white space.
pub open spec fn is_blank(line: Seq<char>) -> bool {
    forall|i: int| 0 <= i < line.len() ==> white_space(#[trigger] line[i])
}

/// The message of a line, whose JSON `parse` reads: nothing for a line that holds nothing but white
/// space; otherwise what `parse` makes of the line without the white space around it, and an error
/// where it is not read. A message comes back from its frame if `parse` reads its JSON as it was;
/// that it does is up to the one who hands it in.
pub fn decode_line<T, F: Fn(&str) -> Result<T, String>>(line: &str, parse: F) -> (r: Result<
    Option<T>,
    RemoteError,
>)
    requires
        forall|s: &str| #[trigger] call_requires(parse, (s,)),
    ensures
        is_blank(line@) <==> r == Ok::<Option<T>, RemoteError>(None),
        !is_blank(line@) ==> exists|s: &str, p: Result<T, String>|
            {
                &&& is_trimmed(line@, s@)
                &&& s@.len() > 0
                &&& #[trigger] call_ensures(parse, (s,), p)
                &&& decodes_to(p, r)
            },
        forall|json: Seq<char>, v: T|
            #[trigger] is_frame(line@, json) && #[trigger] reads(parse, json, v) ==> r == Ok::<
                Option<T>,
                RemoteError,
            >(Some(v)),
{
    match frame_text(line) {
        None => Ok(None),
        Some(s) => {
            proof {
                lemma_trimmed_is_not_blank(line@, s@);
            }
            match parse(s) {
                Ok(v) => Ok(Some(v)),
                Err(e) => Err(
                    RemoteError::Protocol("invalid frame: ".to_owned().concat(e.as_str())),
                ),
            }
        },
    }
}

proof fn lemma_trimmed_is_not_blank(line: Seq<char>, s: Seq<char>)
    requires
        is_trimmed(line, s),
        s.len() > 0,
    ensures
        !is_blank(line),
{
    let (from, to) = choose|from: int, to: int| #[trigger]
        cuts(line, from, to) && s == line.subrange(from, to) && (from < to ==> !white_space(
            line[from],
        ) && !white_space(line[to - 1]));
    assert(!white_space(line[from]));
}

/// The frame of a message whose JSON holds no line end is one line: its only line end is its last
/// byte.
pub proof fn law_frame_is_one_line(json: Seq<u8>, frame: Seq<u8>)
    requires
        log::one_line(json),
        frame == log::framed(seq![json]),
    ensures
        frame.len() == json.len() + 1,
        forall|i: int| 0 <= i < frame.len() ==> ((#[trigger] frame[i]) == log::NEWLINE <==> i
            == frame.len() - 1),
{
    reveal_with_fuel(log::framed, 2);
    assert(seq![json].drop_last() =~= Seq::<Seq<u8>>::empty());
    assert(frame =~= json.push(log::NEWLINE));
}

/// The bytes of a frame, read as text, are the text of the JSON and the end of the line. So they
/// are a frame that `decode_line` reads.
pub proof fn law_frames_are_read_back(json: Seq<char>, frame: Seq<u8>)
    requires
        json.len() > 0,
        !white_space(json[0]),
        !white_space(json.last()),
        frame == log::framed(seq![encode_utf8(json)]),
    ensures
        valid_utf8(frame),
        is_frame(decode_utf8(frame), json),
{
    let bytes = encode_utf8(json);
    reveal_with_fuel(log::framed, 2);
    assert(seq![bytes].drop_last() =~= Seq::<Seq<u8>>::empty());
    assert(frame =~= bytes.push(log::NEWLINE));
    lemma_encoded_push(json);
    encode_utf8_valid_utf8(json.push('\n'));
    encode_utf8_decode_utf8(json.push('\n'));
}

/// A line end behind a text is one byte behind its bytes.
proof fn lemma_encoded_push(text: Seq<char>)
    ensures
        encode_utf8(text.push('\n')) == encode_utf8(text).push(log::NEWLINE),
    decreases text.len(),
{
    let longer = text.push('\n');
    if text.len() == 0 {
        reveal_with_fuel(encode_utf8, 2);
        assert(has_width_1_encoding(10u32) && leading_byte_width_1(10u32) == 10u8)
            by (bit_vector);
        assert(longer[0] as u32 == 10u32);
        assert(longer.drop_first() =~= Seq::<char>::empty());
        assert(encode_utf8(longer) =~= seq![log::NEWLINE]);
    } else {
        assert(longer.drop_first() =~= text.drop_first().push('\n'));
        lemma_encoded_push(text.drop_first());
        assert(encode_utf8(longer) =~= encode_utf8(text).push(log::NEWLINE));
    }
}

/// Spaces, tabs and the ends of lines are white space; no letter, digit or sign of ASCII is.
pub proof fn law_signs_are_no_white_space(c: char)
    ensures
        c == ' ' || c == '\t' || c == '\n' || c == '\r' ==> white_space(c),
        '!' <= c <= '~' ==> !white_space(c),
{
}

/// What is cut off a text is white space, and what is left neither begins nor ends with it: it is the
/// same whoever cuts it.
pub proof fn law_trimming_cuts_white_space_only(text: Seq<char>, a: Seq<char>, b: Seq<char>)
    requires
        is_trimmed(text, a),
        is_trimmed(text, b),
        a.len() > 0,
    ensures
        a == b,
        !white_space(a[0]),
        !white_space(a.last()),
        exists|i: int| 0 <= i <= text.len() - a.len() && a == #[trigger] text.subrange(
            i,
            i + a.len(),
        ),
{
    let (f, t) = choose|from: int, to: int| #[trigger]
        cuts(text, from, to) && a == text.subrange(from, to) && (from < to ==> !white_space(
            text[from],
        ) && !white_space(text[to - 1]));
    let (g, u) = choose|from: int, to: int| #[trigger]
        cuts(text, from, to) && b == text.subrange(from, to) && (from < to ==> !white_space(
            text[from],
        ) && !white_space(text[to - 1]));
    assert(f < t);
    assert(!white_space(text[f]) && !white_space(text[t - 1]));
    assert(g <= f && t <= u);
    assert(!white_space(text[g]) && !white_space(text[u - 1]));
    assert(a == text.subrange(f, f + a.len()));
}

} // verus!
