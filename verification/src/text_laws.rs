//! What holds of the texts that are read, cut up and written.

use crate::area;
use crate::hook;
use crate::hook::Hook;
use crate::order;
use crate::text;
use vstd::prelude::*;
use vstd::string::*;
use vstd::utf8::*;

verus! {

proof fn lemma_end_trimmed(s: Seq<char>, p: spec_fn(char) -> bool) -> (b: int)
    ensures
        0 <= b <= s.len(),
        text::trim_end_by(s, p) == s.take(b),
        forall|i: int| b <= i < s.len() ==> p(#[trigger] s[i]),
        b > 0 ==> !p(s[b - 1]),
    decreases s.len(),
{
    if s.len() > 0 && p(s.last()) {
        let before = s.drop_last();
        let b = lemma_end_trimmed(before, p);
        assert(before.take(b) =~= s.take(b));
        assert forall|i: int| b <= i < s.len() implies p(#[trigger] s[i]) by {
            if i < before.len() {
                assert(before[i] == s[i]);
            }
        }
        b
    } else {
        assert(s.take(s.len() as int) =~= s);
        s.len() as int
    }
}

proof fn lemma_start_trimmed(s: Seq<char>, p: spec_fn(char) -> bool) -> (a: int)
    ensures
        0 <= a <= s.len(),
        text::trim_start_by(s, p) == s.skip(a),
        forall|i: int| 0 <= i < a ==> p(#[trigger] s[i]),
        a < s.len() ==> !p(s[a]),
    decreases s.len(),
{
    if s.len() > 0 && p(s.first()) {
        let rest = s.drop_first();
        let a = lemma_start_trimmed(rest, p);
        assert(rest.skip(a) =~= s.skip(a + 1));
        assert forall|i: int| 0 <= i < a + 1 implies p(#[trigger] s[i]) by {
            if i > 0 {
                assert(rest[i - 1] == s[i]);
            }
        }
        if a < rest.len() {
            assert(rest[a] == s[a + 1]);
        }
        a + 1
    } else {
        assert(s.skip(0) =~= s);
        0
    }
}

/// A text without the white space at its ends is a part of the text, which neither
/// begins nor ends with white space, and there is nothing but white space on either
/// side of it.
pub proof fn law_trimmed(s: Seq<char>) -> (part: (int, int))
    ensures
        0 <= part.0 <= part.1 <= s.len(),
        text::trimmed(s) == s.subrange(part.0, part.1),
        forall|i: int| 0 <= i < part.0 ==> text::is_white_space(#[trigger] s[i]),
        forall|i: int| part.1 <= i < s.len() ==> text::is_white_space(#[trigger] s[i]),
        part.0 < part.1 ==> !text::is_white_space(s[part.0]) && !text::is_white_space(
            s[part.1 - 1],
        ),
{
    let ws = |c: char| text::is_white_space(c);
    let b = lemma_end_trimmed(s, ws);
    let front = s.take(b);
    let a = lemma_start_trimmed(front, ws);
    assert(front.skip(a) =~= s.subrange(a, b));
    assert forall|i: int| 0 <= i < a implies text::is_white_space(#[trigger] s[i]) by {
        assert(ws(front[i]));
    }
    assert forall|i: int| b <= i < s.len() implies text::is_white_space(#[trigger] s[i]) by {
        assert(ws(s[i]));
    }
    if a < b {
        assert(!ws(front[a]));
        assert(!ws(s[b - 1]));
    }
    (a, b)
}

/// Where a word ends.
proof fn lemma_word(s: Seq<char>, i: int)
    requires
        0 <= i <= s.len(),
    ensures
        ({
            let e = text::word_end(s, i);
            &&& i <= e <= s.len()
            &&& forall|k: int| i <= k < e ==> !text::is_ascii_white_space(#[trigger] s[k])
            &&& e < s.len() ==> text::is_ascii_white_space(s[e])
        }),
    decreases s.len() - i,
{
    if i < s.len() && !text::is_ascii_white_space(s[i]) {
        lemma_word(s, i + 1);
    }
}

/// The words of a text from a position on.
proof fn lemma_words_from(s: Seq<char>, i: int) -> (spans: Seq<(int, int)>)
    requires
        0 <= i <= s.len(),
    ensures
        ({
            let words = text::words_from(s, i);
            &&& spans.len() == words.len()
            &&& forall|w: int|
                0 <= w < spans.len() ==> {
                    &&& i <= (#[trigger] spans[w]).0 < spans[w].1 <= s.len()
                    &&& words[w] == s.subrange(spans[w].0, spans[w].1)
                    &&& forall|k: int|
                        spans[w].0 <= k < spans[w].1 ==> !text::is_ascii_white_space(
                            #[trigger] s[k],
                        )
                    &&& spans[w].1 < s.len() ==> text::is_ascii_white_space(s[spans[w].1])
                }
            &&& forall|v: int, w: int|
                0 <= v < w < spans.len() ==> (#[trigger] spans[v]).1 < (#[trigger] spans[w]).0
            &&& forall|k: int|
                i <= k < s.len() && !text::is_ascii_white_space(#[trigger] s[k]) ==> in_span(
                    spans,
                    k,
                )
        }),
    decreases s.len() - i,
{
    if i >= s.len() {
        Seq::empty()
    } else if text::is_ascii_white_space(s[i]) {
        lemma_words_from(s, i + 1)
    } else {
        lemma_word(s, i);
        text::lemma_word_end(s, i);
        let e = text::word_end(s, i);
        let rest = lemma_words_from(s, e);
        let spans = seq![(i, e)] + rest;
        let words = text::words_from(s, i);
        let others = text::words_from(s, e);
        assert forall|w: int| 0 <= w < spans.len() implies {
            &&& i <= (#[trigger] spans[w]).0 < spans[w].1 <= s.len()
            &&& words[w] == s.subrange(spans[w].0, spans[w].1)
            &&& forall|k: int|
                spans[w].0 <= k < spans[w].1 ==> !text::is_ascii_white_space(#[trigger] s[k])
            &&& spans[w].1 < s.len() ==> text::is_ascii_white_space(s[spans[w].1])
        } by {
            if w > 0 {
                assert(spans[w] == rest[w - 1]);
                assert(words[w] == others[w - 1]);
            }
        }
        assert forall|v: int, w: int| 0 <= v < w < spans.len() implies (#[trigger] spans[v]).1 < (
        #[trigger] spans[w]).0 by {
            assert(spans[w] == rest[w - 1]);
            if v > 0 {
                assert(spans[v] == rest[v - 1]);
            } else {
                assert(!text::is_ascii_white_space(s[rest[w - 1].0]));
                assert(rest[w - 1].0 >= e);
            }
        }
        assert forall|k: int|
            i <= k < s.len() && !text::is_ascii_white_space(#[trigger] s[k]) implies in_span(
            spans,
            k,
        ) by {
            if k < e {
                assert(spans[0].0 <= k < spans[0].1);
            } else {
                assert(in_span(rest, k));
                let w = choose|w: int|
                    0 <= w < rest.len() && (#[trigger] rest[w]).0 <= k < rest[w].1;
                assert(spans[w + 1] == rest[w]);
            }
        }
        spans
    }
}

/// Whether a position lies in one of a list of spans.
pub open spec fn in_span(spans: Seq<(int, int)>, k: int) -> bool {
    exists|w: int| 0 <= w < spans.len() && (#[trigger] spans[w]).0 <= k < spans[w].1
}

/// The words of a text are its longest parts without ASCII white space, all of them,
/// in their order, with white space between them and around them.
pub proof fn law_words(s: Seq<char>) -> (spans: Seq<(int, int)>)
    ensures
        spans.len() == text::words(s).len(),
        forall|w: int|
            0 <= w < spans.len() ==> {
                &&& 0 <= (#[trigger] spans[w]).0 < spans[w].1 <= s.len()
                &&& text::words(s)[w] == s.subrange(spans[w].0, spans[w].1)
                &&& forall|k: int|
                    spans[w].0 <= k < spans[w].1 ==> !text::is_ascii_white_space(#[trigger] s[k])
            },
        forall|v: int, w: int|
            0 <= v < w < spans.len() ==> (#[trigger] spans[v]).1 < (#[trigger] spans[w]).0,
        forall|k: int|
            0 <= k < s.len() && !text::is_ascii_white_space(#[trigger] s[k]) ==> exists|w: int|
                0 <= w < spans.len() && (#[trigger] spans[w]).0 <= k < spans[w].1,
{
    let spans = lemma_words_from(s, 0);
    assert forall|k: int| 0 <= k < s.len() && !text::is_ascii_white_space(#[trigger] s[k]) implies
        exists|w: int| 0 <= w < spans.len() && (#[trigger] spans[w]).0 <= k < spans[w].1 by {
        assert(in_span(spans, k));
    }
    spans
}

/// What was appended behind a separator is the last component.
proof fn lemma_appended(dir: Seq<char>, name: Seq<char>)
    requires
        !name.contains('/'),
        dir.len() > 0 ==> dir.last() == '/',
    ensures
        text::last_component_start(dir + name) == dir.len(),
    decreases name.len(),
{
    let s = dir + name;
    if name.len() == 0 {
        assert(s =~= dir);
    } else {
        assert(s.last() == name.last());
        assert(name.contains(name[name.len() - 1]));
        assert(s.drop_last() =~= dir + name.drop_last());
        assert(!name.drop_last().contains('/')) by {
            if name.drop_last().contains('/') {
                let i = choose|i: int|
                    0 <= i < name.drop_last().len() && name.drop_last()[i] == '/';
                assert(name[i] == '/');
            }
        }
        lemma_appended(dir, name.drop_last());
    }
}

/// The final component of a path: a name is its own, alone or behind a separator; an
/// empty component and a `.` behind a separator are skipped; and there is none for an
/// empty path, a `.`, or a path that ends in `..`.
pub proof fn law_file_name(path: Seq<char>, name: Seq<char>)
    ensures
        !name.contains('/') && name.len() > 0 && name != seq!['.'] && name != seq!['.', '.'] ==> {
            &&& text::file_name(name) == Some(name)
            &&& text::file_name(path.push('/') + name) == Some(name)
        },
        text::file_name(path.push('/')) == text::file_name(path),
        text::file_name(path + seq!['/', '.']) == text::file_name(path),
        text::file_name(path + seq!['/', '.', '.']) is None,
        text::file_name(seq!['.', '.']) is None,
        text::file_name(seq!['.']) is None,
        text::file_name(Seq::<char>::empty()) is None,
{
    let none = Seq::<char>::empty();
    let dir = path.push('/');
    let dot = seq!['.'];
    let dots = seq!['.', '.'];
    assert(!dot.contains('/'));
    assert(!dots.contains('/'));
    assert(!none.contains('/'));
    // components behind a separator
    lemma_appended(dir, none);
    lemma_appended(dir, dot);
    lemma_appended(dir, dots);
    assert(dir + none =~= dir);
    assert(dir.subrange(dir.len() as int, dir.len() as int) =~= none);
    assert(dir.take(dir.len() - 1) =~= path);
    assert(dir + dot =~= path + seq!['/', '.']);
    assert((dir + dot).subrange(dir.len() as int, dir.len() as int + 1) =~= dot);
    assert((dir + dot).take(dir.len() - 1) =~= path);
    assert(dir + dots =~= path + seq!['/', '.', '.']);
    assert((dir + dots).subrange(dir.len() as int, dir.len() as int + 2) =~= dots);
    assert(dots[1] == '.');
    assert(dots != dot && dots != none) by {
        assert(dots.len() == 2);
    }
    // and alone
    lemma_appended(none, none);
    lemma_appended(none, dot);
    lemma_appended(none, dots);
    assert(none + none =~= none);
    assert(none + dot =~= dot);
    assert(none + dots =~= dots);
    assert(none.subrange(0, 0) =~= none);
    assert(dot.subrange(0, 1) =~= dot);
    assert(dots.subrange(0, 2) =~= dots);
    if !name.contains('/') && name.len() > 0 && name != dot && name != dots {
        lemma_appended(dir, name);
        lemma_appended(none, name);
        assert(none + name =~= name);
        assert(name.subrange(0, name.len() as int) =~= name);
        let s = dir + name;
        assert(s.subrange(dir.len() as int, s.len() as int) =~= name);
    }
}

proof fn lemma_last_dot(stem: Seq<char>, extension: Seq<char>)
    requires
        !extension.contains('.'),
    ensures
        text::last_dot(stem.push('.') + extension) == stem.len(),
    decreases extension.len(),
{
    let s = stem.push('.') + extension;
    if extension.len() == 0 {
        assert(s =~= stem.push('.'));
    } else {
        let before = extension.drop_last();
        assert(extension.contains(extension[extension.len() - 1]));
        assert(s.drop_last() =~= stem.push('.') + before);
        assert(!before.contains('.')) by {
            if before.contains('.') {
                let i = choose|i: int| 0 <= i < before.len() && before[i] == '.';
                assert(extension[i] == '.');
            }
        }
        lemma_last_dot(stem, before);
    }
}

proof fn lemma_no_dot(name: Seq<char>)
    requires
        !name.contains('.'),
    ensures
        text::last_dot(name) == -1,
    decreases name.len(),
{
    if name.len() > 0 {
        assert(name.contains(name[name.len() - 1]));
        let before = name.drop_last();
        assert(!before.contains('.')) by {
            if before.contains('.') {
                let i = choose|i: int| 0 <= i < before.len() && before[i] == '.';
                assert(name[i] == '.');
            }
        }
        lemma_no_dot(before);
    }
}

/// A file name without its extension is what stands in front of the last `.`, unless
/// nothing does; and the whole name, if it has no `.`.
pub proof fn law_file_stem(stem: Seq<char>, extension: Seq<char>)
    requires
        !extension.contains('.'),
    ensures
        stem.len() > 0 ==> text::file_stem(stem.push('.') + extension) == stem,
        text::file_stem(seq!['.'] + extension) == seq!['.'] + extension,
        text::file_stem(extension) == extension,
{
    lemma_last_dot(stem, extension);
    assert((stem.push('.') + extension).take(stem.len() as int) =~= stem);
    lemma_last_dot(Seq::empty(), extension);
    assert(Seq::<char>::empty().push('.') =~= seq!['.']);
    lemma_no_dot(extension);
}

/// The bytes of a karg embed area are the kargs, a line feed, and `#` to the end.
pub proof fn law_area_bytes(kargs: Seq<char>, length: nat)
    requires
        encode_utf8(kargs).len() < length,
    ensures
        area::area_fits(kargs, length),
        area::area_bytes(kargs, length).len() == length,
        forall|i: int|
            0 <= i < length ==> #[trigger] area::area_bytes(kargs, length)[i] == (if i
                < encode_utf8(kargs).len() {
                encode_utf8(kargs)[i]
            } else if i == encode_utf8(kargs).len() {
                10u8
            } else {
                35u8
            }),
{
}

proof fn lemma_trailing(s: Seq<char>, n: nat, c: char)
    ensures
        text::without_trailing(s + Seq::new(n, |i: int| c), c) == text::without_trailing(s, c),
    decreases n,
{
    let t = s + Seq::new(n, |i: int| c);
    if n == 0 {
        assert(t =~= s);
    } else {
        assert(t.drop_last() =~= s + Seq::new((n - 1) as nat, |i: int| c));
        lemma_trailing(s, (n - 1) as nat, c);
    }
}

/// The kargs of a karg embed area are its text without the white space at its ends; and
/// any number of `#` at the end of the text does not count.
pub proof fn law_area_kargs(s: Seq<char>, n: nat, contents: Seq<u8>)
    ensures
        area::area_kargs(contents) is Some <==> valid_utf8(contents),
        s.len() == 0 || s.last() != '#' ==> area::area_kargs(encode_utf8(s)) == Some(
            text::trimmed(s),
        ),
        area::area_kargs(encode_utf8(s + Seq::new(n, |i: int| '#'))) == area::area_kargs(
            encode_utf8(s),
        ),
{
    let t = s + Seq::new(n, |i: int| '#');
    encode_utf8_valid_utf8(s);
    encode_utf8_valid_utf8(t);
    encode_utf8_decode_utf8(s);
    encode_utf8_decode_utf8(t);
    lemma_trailing(s, n, '#');
}

/// Of two byte strings that differ first at a position the one with the smaller byte
/// there comes first; and one that begins another comes before it.
pub proof fn law_bytes_order(start: Seq<u8>, x: u8, a: Seq<u8>, y: u8, b: Seq<u8>)
    ensures
        x < y ==> order::bytes_le(start.push(x) + a, start.push(y) + b) && !order::bytes_le(
            start.push(y) + b,
            start.push(x) + a,
        ),
        order::bytes_le(start, start + a),
        a.len() > 0 ==> !order::bytes_le(start + a, start),
    decreases start.len(),
{
    let s = start.push(x) + a;
    let t = start.push(y) + b;
    if start.len() > 0 {
        let rest = start.drop_first();
        law_bytes_order(rest, x, a, y, b);
        assert(s.drop_first() =~= rest.push(x) + a);
        assert(t.drop_first() =~= rest.push(y) + b);
        assert((start + a).drop_first() =~= rest + a);
        assert(s[0] == start[0] && t[0] == start[0] && (start + a)[0] == start[0]);
    } else {
        assert(s[0] == x && t[0] == y);
        assert(start + a =~= a);
    }
}

/// The unit of a script that runs before an installation: it describes and starts the
/// script of that name, and the installer requires it and waits for it.
pub proof fn law_pre_unit(name: Seq<char>)
    ensures
        hook::hook_unit(Hook::Pre, name)
            == "# Generated by coreos-installer {iso|pxe} customize\n\n[Unit]\nDescription=Pre-Install Script ("@
            + name
            + ")\nDocumentation=https://coreos.github.io/coreos-installer/customizing-install/\nAfter=coreos-installer-pre.target\nBefore=coreos-installer.service\n\n[Service]\nType=oneshot\nExecStart=/usr/local/bin/pre-install-"@
            + name
            + "\nRemainAfterExit=true\nStandardOutput=kmsg+console\nStandardError=kmsg+console\n\n[Install]\nRequiredBy=coreos-installer.service"@,
{
    reveal_strlit("# Generated by coreos-installer {iso|pxe} customize\n\n[Unit]\nDescription=");
    reveal_strlit("-Install Script (");
    reveal_strlit(")\nDocumentation=https://coreos.github.io/coreos-installer/customizing-install/\n");
    reveal_strlit("\n\n[Service]\nType=oneshot\nExecStart=");
    reveal_strlit("\nRemainAfterExit=true\nStandardOutput=kmsg+console\nStandardError=kmsg+console\n\n[Install]\nRequiredBy=");
    reveal_strlit("/usr/local/bin/");
    reveal_strlit("-install-");
    reveal_strlit("Pre");
    reveal_strlit("After=coreos-installer-pre.target\nBefore=coreos-installer.service");
    reveal_strlit("coreos-installer.service");
    reveal_strlit("pre");
    reveal_strlit("# Generated by coreos-installer {iso|pxe} customize\n\n[Unit]\nDescription=Pre-Install Script (");
    reveal_strlit(")\nDocumentation=https://coreos.github.io/coreos-installer/customizing-install/\nAfter=coreos-installer-pre.target\nBefore=coreos-installer.service\n\n[Service]\nType=oneshot\nExecStart=/usr/local/bin/pre-install-");
    reveal_strlit("\nRemainAfterExit=true\nStandardOutput=kmsg+console\nStandardError=kmsg+console\n\n[Install]\nRequiredBy=coreos-installer.service");
    assert(hook::hook_unit(Hook::Pre, name)
        =~= "# Generated by coreos-installer {iso|pxe} customize\n\n[Unit]\nDescription=Pre-Install Script ("@
        + name
        + ")\nDocumentation=https://coreos.github.io/coreos-installer/customizing-install/\nAfter=coreos-installer-pre.target\nBefore=coreos-installer.service\n\n[Service]\nType=oneshot\nExecStart=/usr/local/bin/pre-install-"@
        + name
        + "\nRemainAfterExit=true\nStandardOutput=kmsg+console\nStandardError=kmsg+console\n\n[Install]\nRequiredBy=coreos-installer.service"@);
}

/// The unit of a script that runs after an installation: it describes and starts the
/// script of that name, waits for the installer, and is required by its target.
pub proof fn law_post_unit(name: Seq<char>)
    ensures
        hook::hook_unit(Hook::Post, name)
            == "# Generated by coreos-installer {iso|pxe} customize\n\n[Unit]\nDescription=Post-Install Script ("@
            + name
            + ")\nDocumentation=https://coreos.github.io/coreos-installer/customizing-install/\nAfter=coreos-installer.service\nBefore=coreos-installer.target\n\n[Service]\nType=oneshot\nExecStart=/usr/local/bin/post-install-"@
            + name
            + "\nRemainAfterExit=true\nStandardOutput=kmsg+console\nStandardError=kmsg+console\n\n[Install]\nRequiredBy=coreos-installer.target"@,
{
    reveal_strlit("# Generated by coreos-installer {iso|pxe} customize\n\n[Unit]\nDescription=");
    reveal_strlit("-Install Script (");
    reveal_strlit(")\nDocumentation=https://coreos.github.io/coreos-installer/customizing-install/\n");
    reveal_strlit("\n\n[Service]\nType=oneshot\nExecStart=");
    reveal_strlit("\nRemainAfterExit=true\nStandardOutput=kmsg+console\nStandardError=kmsg+console\n\n[Install]\nRequiredBy=");
    reveal_strlit("/usr/local/bin/");
    reveal_strlit("-install-");
    reveal_strlit("Post");
    reveal_strlit("After=coreos-installer.service\nBefore=coreos-installer.target");
    reveal_strlit("coreos-installer.target");
    reveal_strlit("post");
    reveal_strlit("# Generated by coreos-installer {iso|pxe} customize\n\n[Unit]\nDescription=Post-Install Script (");
    reveal_strlit(")\nDocumentation=https://coreos.github.io/coreos-installer/customizing-install/\nAfter=coreos-installer.service\nBefore=coreos-installer.target\n\n[Service]\nType=oneshot\nExecStart=/usr/local/bin/post-install-");
    reveal_strlit("\nRemainAfterExit=true\nStandardOutput=kmsg+console\nStandardError=kmsg+console\n\n[Install]\nRequiredBy=coreos-installer.target");
    assert(hook::hook_unit(Hook::Post, name)
        =~= "# Generated by coreos-installer {iso|pxe} customize\n\n[Unit]\nDescription=Post-Install Script ("@
        + name
        + ")\nDocumentation=https://coreos.github.io/coreos-installer/customizing-install/\nAfter=coreos-installer.service\nBefore=coreos-installer.target\n\n[Service]\nType=oneshot\nExecStart=/usr/local/bin/post-install-"@
        + name
        + "\nRemainAfterExit=true\nStandardOutput=kmsg+console\nStandardError=kmsg+console\n\n[Install]\nRequiredBy=coreos-installer.target"@);
}

/// The characters of white space: of the ASCII ones those that separate words and the
/// vertical tab, and of the others those that Unicode lists.
pub proof fn law_white_space(c: char)
    ensures
        text::is_ascii_white_space(c) <==> text::is_white_space(c) && c as u32 <= 0x7f && c as u32
            != 0xb,
        c as u32 <= 0x7f ==> (text::is_white_space(c) <==> 9 <= c as u32 <= 13 || c as u32 == 32),
        c as u32 > 0x7f ==> (text::is_white_space(c) <==> {
            let n = c as u32;
            n == 0x85 || n == 0xa0 || n == 0x1680 || 0x2000 <= n <= 0x200a || n == 0x2028 || n
                == 0x2029 || n == 0x202f || n == 0x205f || n == 0x3000
        }),
{
}

} // verus!
