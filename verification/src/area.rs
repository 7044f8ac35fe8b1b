//! The text of a karg embed area: the kargs, a line feed, and `#` to the end.

use crate::text;
use vstd::prelude::*;
use vstd::string::*;
use vstd::utf8::*;

verus! {

/// The kargs that an area holds, or `None` if it is not valid UTF-8.
pub open spec fn area_kargs(contents: Seq<u8>) -> Option<Seq<char>> {
    if valid_utf8(contents) {
        Some(text::trimmed(text::without_trailing(decode_utf8(contents), '#')))
    } else {
        None
    }
}

/// The byte `#`.
pub const FILLER: u8 = 35;

/// The byte of a line feed.
pub const LINE_FEED: u8 = 10;

/// The bytes of an area of the given length that holds the given kargs.
pub open spec fn area_bytes(kargs: Seq<char>, length: nat) -> Seq<u8> {
    let line = encode_utf8(kargs).push(LINE_FEED);
    line + Seq::new((length - line.len()) as nat, |i: int| FILLER)
}

/// The number of bytes that kargs need in an area, with their line feed.
pub open spec fn area_need(kargs: Seq<char>) -> usize {
    if encode_utf8(kargs).len() + 1 > usize::MAX {
        usize::MAX
    } else {
        (encode_utf8(kargs).len() + 1) as usize
    }
}

/// Whether kargs fit in an area of the given length.
pub open spec fn area_fits(kargs: Seq<char>, length: nat) -> bool {
    encode_utf8(kargs).len() + 1 <= length
}

proof fn lemma_without_trailing(s: Seq<char>, n: nat, c: char)
    requires
        s.len() > 0,
        s.last() != c,
    ensures
        text::without_trailing(s + Seq::new(n, |i: int| c), c) == s,
    decreases n,
{
    let t = s + Seq::new(n, |i: int| c);
    if n == 0 {
        assert(t =~= s);
    } else {
        assert(t.drop_last() =~= s + Seq::new((n - 1) as nat, |i: int| c));
        lemma_without_trailing(s, (n - 1) as nat, c);
    }
}

/// Kargs that are written to an area are read back, without the white space at
/// their ends.
pub proof fn law_area_round_trip(kargs: Seq<char>, length: nat)
    requires
        area_fits(text::trimmed(kargs), length),
    ensures
        area_bytes(text::trimmed(kargs), length).len() == length,
        area_kargs(area_bytes(text::trimmed(kargs), length)) == Some(text::trimmed(kargs)),
{
    let k = text::trimmed(kargs);
    let n = (length - encode_utf8(k).len() - 1) as nat;
    let line = k.push('\n');
    let fill = Seq::new(n, |i: int| '#');
    let end = seq!['\n'] + fill;
    assert(is_ascii_chars(end)) by {
        assert forall|i: int| 0 <= i < end.len() implies '\0' <= #[trigger] end[i] <= '\u{7f}' by {
            if i > 0 {
                assert(end[i] == fill[i - 1]);
            }
        }
    }
    is_ascii_chars_encode_utf8(end);
    text::lemma_encode_concat(k, end);
    assert(k + end =~= line + fill);
    assert(encode_utf8(end) =~= seq![LINE_FEED] + Seq::new(n, |i: int| FILLER)) by {
        let e = encode_utf8(end);
        assert forall|i: int| 0 <= i < e.len() implies e[i] == (seq![LINE_FEED] + Seq::new(
            n,
            |i: int| FILLER,
        ))[i] by {
            assert(e[i] == end[i] as u8);
            if i > 0 {
                assert(end[i] == fill[i - 1]);
            }
        }
    }
    assert(area_bytes(k, length) =~= encode_utf8(line + fill));
    encode_utf8_valid_utf8(line + fill);
    encode_utf8_decode_utf8(line + fill);
    lemma_without_trailing(line, n, '#');
    text::lemma_trimmed(kargs);
    let ws = |c: char| text::is_white_space(c);
    assert(line.drop_last() =~= k);
    assert(ws('\n'));
    assert(text::trim_end_by(line, ws) == text::trim_end_by(k, ws));
    assert(text::trimmed(line) == text::trimmed(k));
    text::lemma_trimmed_twice(kargs);
}

/// The kargs that an area holds.
pub fn parse_area(contents: &Vec<u8>) -> (r: Option<String>)
    ensures
        match r {
            Some(kargs) => area_kargs(contents@) == Some(kargs@),
            None => area_kargs(contents@) is None,
        },
{
    let bytes = contents.clone();
    assert(bytes@ =~= contents@);
    match text::string_from_utf8(bytes) {
        Some(s) => Some(text::trim(text::trim_end_matches(s.as_str(), '#')).to_owned()),
        None => None,
    }
}

/// The bytes of an area of the given length that holds the given kargs, which
/// must fit.
pub fn format_area(kargs: &str, length: usize) -> (r: Vec<u8>)
    requires
        area_fits(kargs@, length as nat),
    ensures
        r@ == area_bytes(kargs@, length as nat),
        r@.len() == length,
{
    let mut r: Vec<u8> = Vec::new();
    r.extend_from_slice(kargs.as_bytes());
    assert(r@ =~= encode_utf8(kargs@));
    r.push(LINE_FEED);
    let ghost line = r@;
    while r.len() < length
        invariant
            line.len() <= r@.len() <= length,
            r@ == line + Seq::new((r@.len() - line.len()) as nat, |i: int| FILLER),
        decreases length - r.len(),
    {
        r.push(FILLER);
        assert(r@ =~= line + Seq::new((r@.len() - line.len()) as nat, |i: int| FILLER));
    }
    r
}

} // verus!
