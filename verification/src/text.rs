//! Text handling: trimming, splitting into words, path names, decimal numbers.

use vstd::prelude::*;
use vstd::string::*;
use vstd::utf8::*;

verus! {

/// The characters with the Unicode property `White_Space`.
pub open spec fn is_white_space(c: char) -> bool {
    ||| '\u{9}' <= c <= '\u{d}'
    ||| c == '\u{20}'
    ||| c == '\u{85}'
    ||| c == '\u{a0}'
    ||| c == '\u{1680}'
    ||| '\u{2000}' <= c <= '\u{200a}'
    ||| c == '\u{2028}'
    ||| c == '\u{2029}'
    ||| c == '\u{202f}'
    ||| c == '\u{205f}'
    ||| c == '\u{3000}'
}

/// The characters that separate words: the ASCII white space.
pub open spec fn is_ascii_white_space(c: char) -> bool {
    c == ' ' || c == '\t' || c == '\n' || c == '\u{c}' || c == '\r'
}

/// `s` without the run of characters satisfying `p` at its end.
pub open spec fn trim_end_by(s: Seq<char>, p: spec_fn(char) -> bool) -> Seq<char>
    decreases s.len(),
{
    if s.len() > 0 && p(s.last()) {
        trim_end_by(s.drop_last(), p)
    } else {
        s
    }
}

/// `s` without the run of characters satisfying `p` at its start.
pub open spec fn trim_start_by(s: Seq<char>, p: spec_fn(char) -> bool) -> Seq<char>
    decreases s.len(),
{
    if s.len() > 0 && p(s.first()) {
        trim_start_by(s.drop_first(), p)
    } else {
        s
    }
}

/// `s` without the white space at both ends.
pub open spec fn trimmed(s: Seq<char>) -> Seq<char> {
    trim_start_by(trim_end_by(s, |c: char| is_white_space(c)), |c: char| is_white_space(c))
}

/// `s` without the run of `c` at its end.
pub open spec fn without_trailing(s: Seq<char>, c: char) -> Seq<char>
    decreases s.len(),
{
    if s.len() > 0 && s.last() == c {
        without_trailing(s.drop_last(), c)
    } else {
        s
    }
}

/// Whether `c` is white space.
pub fn white_space(c: char) -> (r: bool)
    ensures
        r == is_white_space(c),
{
    ('\u{9}' <= c && c <= '\u{d}') || c == '\u{20}' || c == '\u{85}' || c == '\u{a0}' || c
        == '\u{1680}' || ('\u{2000}' <= c && c <= '\u{200a}') || c == '\u{2028}' || c == '\u{2029}'
        || c == '\u{202f}' || c == '\u{205f}' || c == '\u{3000}'
}

/// The characters of `s`.
pub(crate) fn chars_of(s: &str) -> (v: Vec<char>)
    ensures
        v@ == s@,
{
    let mut v: Vec<char> = Vec::new();
    for c in it: s.chars()
        invariant
            v@ == it.seq().take(it.index()),
            it.seq() == s@,
    {
        v.push(c);
        assert(it.seq().take(it.index() + 1) =~= it.seq().take(it.index()).push(c));
    }
    assert(s@.take(s@.len() as int) =~= s@);
    v
}

/// `s` without the white space at both ends.
pub fn trim(s: &str) -> (r: &str)
    ensures
        r@ == trimmed(s@),
{
    let v = chars_of(s);
    let ghost ws = |c: char| is_white_space(c);
    let mut end: usize = v.len();
    assert(v@.take(end as int) =~= v@);
    while end > 0 && white_space(v[end - 1])
        invariant
            end <= v.len(),
            ws == (|c: char| is_white_space(c)),
            trim_end_by(v@, ws) == trim_end_by(v@.take(end as int), ws),
        decreases end,
    {
        assert(v@.take(end as int).drop_last() =~= v@.take(end - 1));
        end = end - 1;
    }
    assert(trim_end_by(v@, ws) == v@.take(end as int));
    let mut start: usize = 0;
    assert(v@.subrange(0, end as int) =~= v@.take(end as int));
    while start < end && white_space(v[start])
        invariant
            start <= end <= v.len(),
            ws == (|c: char| is_white_space(c)),
            trim_start_by(v@.take(end as int), ws) == trim_start_by(
                v@.subrange(start as int, end as int),
                ws,
            ),
        decreases end - start,
    {
        assert(v@.subrange(start as int, end as int).drop_first() =~= v@.subrange(
            start + 1,
            end as int,
        ));
        start = start + 1;
    }
    s.substring_char(start, end)
}

/// `s` without the run of `c` at its end.
pub fn trim_end_matches(s: &str, c: char) -> (r: &str)
    ensures
        r@ == without_trailing(s@, c),
{
    let v = chars_of(s);
    let mut end: usize = v.len();
    assert(v@.take(end as int) =~= v@);
    while end > 0 && v[end - 1] == c
        invariant
            end <= v.len(),
            without_trailing(v@, c) == without_trailing(v@.take(end as int), c),
        decreases end,
    {
        assert(v@.take(end as int).drop_last() =~= v@.take(end - 1));
        end = end - 1;
    }
    assert(v@.subrange(0, end as int) =~= v@.take(end as int));
    s.substring_char(0, end)
}

/// Whether `s` begins with `prefix`.
pub fn has_prefix(s: &str, prefix: &str) -> (r: bool)
    ensures
        r == prefix@.is_prefix_of(s@),
{
    let v = chars_of(s);
    let p = chars_of(prefix);
    if p.len() > v.len() {
        return false;
    }
    let mut i: usize = 0;
    while i < p.len()
        invariant
            i <= p.len() <= v.len(),
            v@ == s@,
            p@ == prefix@,
            forall|j: int| 0 <= j < i ==> v@[j] == p@[j],
        decreases p.len() - i,
    {
        if v[i] != p[i] {
            assert(s@.subrange(0, p.len() as int)[i as int] != prefix@[i as int]);
            return false;
        }
        i = i + 1;
    }
    assert(prefix@ =~= s@.subrange(0, prefix@.len() as int));
    true
}

/// Whether two strings hold the same characters.
pub fn same_text(a: &str, b: &str) -> (r: bool)
    ensures
        r == (a@ == b@),
{
    a.to_owned() == b.to_owned()
}

/// `a` followed by `b`.
pub fn joined(a: &str, b: &str) -> (r: String)
    ensures
        r@ == a@ + b@,
{
    let mut r = a.to_owned();
    r.append(b);
    r
}

/// The end of the word that begins at `i`: the first position from `i` on
/// that holds white space, or the end of `s`.
pub open spec fn word_end(s: Seq<char>, i: int) -> int
    decreases s.len() - i,
{
    if i < 0 || i >= s.len() {
        s.len() as int
    } else if is_ascii_white_space(s[i]) {
        i
    } else {
        word_end(s, i + 1)
    }
}

/// The words of `s` from position `i` on, in order.
pub open spec fn words_from(s: Seq<char>, i: int) -> Seq<Seq<char>>
    decreases s.len() - i,
{
    if i < 0 || i >= s.len() {
        Seq::empty()
    } else if is_ascii_white_space(s[i]) {
        words_from(s, i + 1)
    } else {
        proof {
            lemma_word_end(s, i);
        }
        seq![s.subrange(i, word_end(s, i))] + words_from(s, word_end(s, i))
    }
}

/// The maximal runs of characters in `s` that are not ASCII white space.
pub open spec fn words(s: Seq<char>) -> Seq<Seq<char>> {
    words_from(s, 0)
}

/// A word does not end before it begins.
pub proof fn lemma_word_end(s: Seq<char>, i: int)
    requires
        0 <= i <= s.len(),
    ensures
        i <= word_end(s, i) <= s.len(),
        i < s.len() && !is_ascii_white_space(s[i]) ==> i < word_end(s, i),
    decreases s.len() - i,
{
    if i < s.len() && !is_ascii_white_space(s[i]) {
        lemma_word_end(s, i + 1);
    }
}

/// The text of each string of a list.
pub open spec fn texts(v: Seq<String>) -> Seq<Seq<char>> {
    v.map_values(|s: String| s@)
}

/// The words of `s`, in order.
pub fn split_ascii_whitespace(s: &str) -> (r: Vec<String>)
    ensures
        texts(r@) == words(s@),
{
    let v = chars_of(s);
    let mut r: Vec<String> = Vec::new();
    let mut i: usize = 0;
    assert(texts(r@) + words_from(s@, 0) =~= words(s@));
    while i < v.len()
        invariant
            i <= v.len(),
            v@ == s@,
            texts(r@) + words_from(s@, i as int) == words(s@),
        decreases v.len() - i,
    {
        if ascii_white_space(v[i]) {
            i = i + 1;
        } else {
            let start: usize = i;
            let ghost before = r@;
            while i < v.len() && !ascii_white_space(v[i])
                invariant
                    start <= i <= v.len(),
                    v@ == s@,
                    word_end(s@, start as int) == word_end(s@, i as int),
                decreases v.len() - i,
            {
                i = i + 1;
            }
            proof {
                lemma_word_end(s@, start as int);
            }
            assert(i == word_end(s@, start as int));
            let w: &str = s.substring_char(start, i);
            r.push(w.to_owned());
            assert(texts(r@) =~= texts(before).push(s@.subrange(start as int, i as int)));
            assert(texts(r@) + words_from(s@, i as int) =~= texts(before) + (seq![
                s@.subrange(start as int, i as int),
            ] + words_from(s@, i as int)));
        }
    }
    assert(texts(r@) + words_from(s@, i as int) =~= texts(r@));
    r
}

/// Whether `c` is ASCII white space.
pub fn ascii_white_space(c: char) -> (r: bool)
    ensures
        r == is_ascii_white_space(c),
{
    c == ' ' || c == '\t' || c == '\n' || c == '\u{c}' || c == '\r'
}

/// The position behind the last `/` of `s`, or 0.
pub open spec fn last_component_start(s: Seq<char>) -> int
    decreases s.len(),
{
    if s.len() == 0 || s.last() == '/' {
        s.len() as int
    } else {
        last_component_start(s.drop_last())
    }
}

/// The last component lies within the path.
pub proof fn lemma_last_component_start(s: Seq<char>)
    ensures
        0 <= last_component_start(s) <= s.len(),
    decreases s.len(),
{
    if s.len() > 0 && s.last() != '/' {
        lemma_last_component_start(s.drop_last());
    }
}

/// The final component of a path: what follows the last separator, where empty
/// components and `.` are skipped. A path that has none, or that ends in `..`,
/// has no final component.
pub open spec fn file_name(s: Seq<char>) -> Option<Seq<char>>
    decreases s.len(),
{
    let start = last_component_start(s);
    let component = s.subrange(start, s.len() as int);
    if component == Seq::<char>::empty() || component == seq!['.'] {
        if start == 0 {
            None
        } else {
            proof {
                lemma_last_component_start(s);
            }
            file_name(s.take(start - 1))
        }
    } else if component == seq!['.', '.'] {
        None
    } else {
        Some(component)
    }
}

/// The final component of a path.
pub fn path_file_name(path: &str) -> (r: Option<String>)
    ensures
        match r {
            Some(name) => file_name(path@) == Some(name@),
            None => file_name(path@) is None,
        },
{
    let v = chars_of(path);
    let mut end: usize = v.len();
    assert(path@.take(end as int) =~= path@);
    loop
        invariant
            end <= v.len(),
            v@ == path@,
            file_name(path@) == file_name(path@.take(end as int)),
        decreases end,
    {
        let mut start: usize = end;
        let ghost s = path@.take(end as int);
        assert(s.take(end as int) =~= s);
        while start > 0 && v[start - 1] != '/'
            invariant
                start <= end <= v.len(),
                v@ == path@,
                s == path@.take(end as int),
                last_component_start(s) == last_component_start(s.take(start as int)),
            decreases start,
        {
            assert(s.take(start as int).drop_last() =~= s.take(start - 1));
            start = start - 1;
        }
        assert(last_component_start(s) == start);
        let ghost component = s.subrange(start as int, end as int);
        assert(component =~= path@.subrange(start as int, end as int));
        let dots: bool = (end - start == 1 && v[start] == '.');
        if start == end || dots {
            assert(component =~= Seq::<char>::empty() || component =~= seq!['.']);
            if start == 0 {
                return None;
            }
            assert(s.take(start - 1) =~= path@.take(start - 1));
            end = start - 1;
        } else if end - start == 2 && v[start] == '.' && v[start + 1] == '.' {
            assert(component =~= seq!['.', '.']);
            return None;
        } else {
            proof {
                if component == seq!['.'] {
                    assert(component[0] == '.');
                }
                if component == seq!['.', '.'] {
                    assert(component[0] == '.' && component[1] == '.');
                }
            }
            return Some(path.substring_char(start, end).to_owned());
        }
    }
}

/// The position of the last `.` of `s`, or -1.
pub open spec fn last_dot(s: Seq<char>) -> int
    decreases s.len(),
{
    if s.len() == 0 || s.last() == '.' {
        s.len() - 1
    } else {
        last_dot(s.drop_last())
    }
}

/// A file name without its extension: what precedes the last `.`, unless that
/// begins the name.
pub open spec fn file_stem(name: Seq<char>) -> Seq<char> {
    if last_dot(name) <= 0 {
        name
    } else {
        name.take(last_dot(name))
    }
}

/// A file name without its extension.
pub fn stem(name: &str) -> (r: String)
    ensures
        r@ == file_stem(name@),
{
    let v = chars_of(name);
    let mut end: usize = v.len();
    assert(v@.take(end as int) =~= v@);
    while end > 0 && v[end - 1] != '.'
        invariant
            end <= v.len(),
            v@ == name@,
            last_dot(name@) == last_dot(name@.take(end as int)),
        decreases end,
    {
        assert(name@.take(end as int).drop_last() =~= name@.take(end - 1));
        end = end - 1;
    }
    assert(last_dot(name@) == end - 1);
    if end <= 1 {
        return name.to_owned();
    }
    assert(name@.subrange(0, end - 1) =~= name@.take(end - 1));
    name.substring_char(0, end - 1).to_owned()
}

/// The position behind the last `/` of `s`, or 0.
pub fn component_start(s: &str) -> (r: usize)
    ensures
        r == last_component_start(s@),
{
    let v = chars_of(s);
    let mut start: usize = v.len();
    assert(v@.take(start as int) =~= v@);
    while start > 0 && v[start - 1] != '/'
        invariant
            start <= v.len(),
            v@ == s@,
            last_component_start(s@) == last_component_start(s@.take(start as int)),
        decreases start,
    {
        assert(s@.take(start as int).drop_last() =~= s@.take(start - 1));
        start = start - 1;
    }
    start
}

/// The decimal digit `d`.
pub open spec fn digit(d: int) -> char {
    ('0' as int + d) as char
}

/// `n` in decimal, without leading zeros.
pub open spec fn decimal(n: nat) -> Seq<char>
    decreases n,
{
    if n < 10 {
        seq![digit(n as int)]
    } else {
        decimal(n / 10).push(digit((n % 10) as int))
    }
}

/// `s` filled up with `0` on the left to at least `width` characters.
pub open spec fn zero_padded(s: Seq<char>, width: nat) -> Seq<char>
    decreases width - s.len(),
{
    if s.len() >= width {
        s
    } else {
        zero_padded(seq!['0'] + s, width)
    }
}

fn digit_text(d: u32) -> (r: &'static str)
    requires
        d < 10,
    ensures
        r@ == seq![digit(d as int)],
{
    proof {
        reveal_strlit("0");
        reveal_strlit("1");
        reveal_strlit("2");
        reveal_strlit("3");
        reveal_strlit("4");
        reveal_strlit("5");
        reveal_strlit("6");
        reveal_strlit("7");
        reveal_strlit("8");
        reveal_strlit("9");
    }
    let r: &'static str = match d {
        0 => "0",
        1 => "1",
        2 => "2",
        3 => "3",
        4 => "4",
        5 => "5",
        6 => "6",
        7 => "7",
        8 => "8",
        _ => "9",
    };
    assert(r@ =~= seq![digit(d as int)]);
    r
}

/// `n` in decimal.
pub fn decimal_text(n: u32) -> (r: String)
    ensures
        r@ == decimal(n as nat),
    decreases n,
{
    if n < 10 {
        digit_text(n).to_owned()
    } else {
        let mut r = decimal_text(n / 10);
        let ghost head = r@;
        r.append(digit_text(n % 10));
        assert(r@ =~= head.push(digit((n % 10) as int)));
        r
    }
}

/// `n` in decimal, filled up with zeros on the left to at least four digits.
pub fn four_digits(n: u32) -> (r: String)
    ensures
        r@ == zero_padded(decimal(n as nat), 4),
{
    let mut r = decimal_text(n);
    let ghost plain = r@;
    let mut len: usize = r.as_str().unicode_len();
    while len < 4
        invariant
            len == r@.len(),
            zero_padded(plain, 4) == zero_padded(r@, 4),
        decreases 4 - len,
    {
        let ghost before = r@;
        r = joined("0", r.as_str());
        proof {
            reveal_strlit("0");
            assert(r@ =~= seq!['0'] + before);
        }
        len = len + 1;
    }
    r
}

/// The text that `bytes` encode.
///
/// `String::from_utf8` gives the text if the bytes are valid UTF-8, and an
/// error otherwise.
#[verifier::external_body]
pub(crate) fn string_from_utf8(bytes: Vec<u8>) -> (r: Option<String>)
    ensures
        r is Some <==> valid_utf8(bytes@),
        r matches Some(s) ==> s@ == decode_utf8(bytes@),
{
    String::from_utf8(bytes).ok()
}

/// The upper-case form of a text, as Unicode has it.
pub uninterp spec fn uppercase(s: Seq<char>) -> Seq<char>;

/// The lower-case form of a text, as Unicode has it.
pub uninterp spec fn lowercase(s: Seq<char>) -> Seq<char>;

/// The upper-case form of a text.
///
/// `str::to_uppercase` maps each character as the Unicode tables say; the
/// result depends on the text alone.
#[verifier::external_body]
pub(crate) fn to_uppercase(s: &str) -> (r: String)
    ensures
        r@ == uppercase(s@),
{
    s.to_uppercase()
}

/// The lower-case form of a text.
///
/// `str::to_lowercase` maps each character as the Unicode tables say; the
/// result depends on the text alone.
#[verifier::external_body]
pub(crate) fn to_lowercase(s: &str) -> (r: String)
    ensures
        r@ == lowercase(s@),
{
    s.to_lowercase()
}

/// The encoding of a concatenation is the concatenation of the encodings.
pub proof fn lemma_encode_concat(a: Seq<char>, b: Seq<char>)
    ensures
        encode_utf8(a + b) == encode_utf8(a) + encode_utf8(b),
    decreases a.len(),
{
    if a.len() == 0 {
        assert(a + b =~= b);
        assert(encode_utf8(a) + encode_utf8(b) =~= encode_utf8(b));
    } else {
        assert((a + b).drop_first() =~= a.drop_first() + b);
        lemma_encode_concat(a.drop_first(), b);
        assert(encode_utf8(a + b) =~= encode_utf8(a) + encode_utf8(b));
    }
}

proof fn lemma_trim_end_by(s: Seq<char>, p: spec_fn(char) -> bool)
    ensures
        ({
            let r = trim_end_by(s, p);
            &&& r.len() <= s.len()
            &&& r == s.take(r.len() as int)
            &&& r.len() > 0 ==> !p(r.last())
        }),
    decreases s.len(),
{
    if s.len() > 0 && p(s.last()) {
        lemma_trim_end_by(s.drop_last(), p);
        let r = trim_end_by(s, p);
        assert(s.drop_last().take(r.len() as int) =~= s.take(r.len() as int));
    } else {
        assert(s.take(s.len() as int) =~= s);
    }
}

proof fn lemma_trim_start_by(s: Seq<char>, p: spec_fn(char) -> bool)
    ensures
        ({
            let r = trim_start_by(s, p);
            &&& r.len() <= s.len()
            &&& r == s.skip(s.len() - r.len())
            &&& r.len() > 0 ==> !p(r.first())
        }),
    decreases s.len(),
{
    if s.len() > 0 && p(s.first()) {
        lemma_trim_start_by(s.drop_first(), p);
        let r = trim_start_by(s, p);
        assert(s.drop_first().skip(s.len() - 1 - r.len()) =~= s.skip(s.len() - r.len()));
    } else {
        assert(s.skip(0) =~= s);
    }
}

/// A trimmed text neither begins nor ends with white space, and is part of
/// the whole text.
pub proof fn lemma_trimmed(s: Seq<char>)
    ensures
        ({
            let r = trimmed(s);
            &&& r.len() <= s.len()
            &&& r.len() > 0 ==> !is_white_space(r.first()) && !is_white_space(r.last())
            &&& encode_utf8(r).len() <= encode_utf8(s).len()
        }),
{
    let ws = |c: char| is_white_space(c);
    let t = trim_end_by(s, ws);
    let r = trim_start_by(t, ws);
    lemma_trim_end_by(s, ws);
    lemma_trim_start_by(t, ws);
    if r.len() > 0 {
        assert(r.last() == t.last());
    }
    assert(t =~= t.take(t.len() - r.len()) + r);
    assert(s =~= t + s.skip(t.len() as int));
    lemma_encode_concat(t.take(t.len() - r.len()), r);
    lemma_encode_concat(t, s.skip(t.len() as int));
}

/// Trimming leaves a text alone that neither begins nor ends with white space.
pub proof fn lemma_trimmed_fixpoint(s: Seq<char>)
    requires
        s.len() > 0 ==> !is_white_space(s.first()) && !is_white_space(s.last()),
    ensures
        trimmed(s) == s,
{
}

/// Trimming twice is trimming once.
pub proof fn lemma_trimmed_twice(s: Seq<char>)
    ensures
        trimmed(trimmed(s)) == trimmed(s),
{
    lemma_trimmed(s);
    lemma_trimmed_fixpoint(trimmed(s));
}

} // verus!
