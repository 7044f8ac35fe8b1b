//! Path patterns.

use crate::text;
use vstd::prelude::*;

verus! {

/// Whether a pattern matches a text: `*` stands for any sequence of
/// characters, also an empty one, and each other character for itself.
pub open spec fn glob_match(pattern: Seq<char>, s: Seq<char>) -> bool
    decreases pattern.len(), s.len(),
{
    if pattern.len() == 0 {
        s.len() == 0
    } else if pattern.first() == '*' {
        glob_match(pattern.drop_first(), s) || (s.len() > 0 && glob_match(pattern, s.drop_first()))
    } else {
        s.len() > 0 && s.first() == pattern.first() && glob_match(
            pattern.drop_first(),
            s.drop_first(),
        )
    }
}

/// A pattern that ends in its only `*` matches what begins with the rest of it.
pub proof fn lemma_glob_prefix(prefix: Seq<char>, s: Seq<char>)
    requires
        !prefix.contains('*'),
    ensures
        glob_match(prefix.push('*'), s) <==> prefix.is_prefix_of(s),
    decreases prefix.len() + s.len(),
{
    let pattern = prefix.push('*');
    if prefix.len() == 0 {
        reveal_with_fuel(glob_match, 2);
        assert(pattern.drop_first() =~= Seq::<char>::empty());
        assert(prefix.is_prefix_of(s)) by {
            assert(prefix =~= s.subrange(0, 0));
        }
        if s.len() > 0 {
            lemma_glob_prefix(prefix, s.drop_first());
            assert(prefix =~= s.drop_first().subrange(0, 0));
        }
    } else {
        assert(prefix.contains(prefix[0]));
        assert(pattern.drop_first() =~= prefix.drop_first().push('*'));
        assert(!prefix.drop_first().contains('*')) by {
            if prefix.drop_first().contains('*') {
                let i = choose|i: int|
                    0 <= i < prefix.drop_first().len() && prefix.drop_first()[i] == '*';
                assert(prefix[i + 1] == '*');
            }
        }
        if s.len() > 0 {
            lemma_glob_prefix(prefix.drop_first(), s.drop_first());
            if prefix.is_prefix_of(s) {
                assert(prefix[0] == s.subrange(0, prefix.len() as int)[0]);
                assert(prefix.drop_first() =~= s.drop_first().subrange(0, prefix.len() - 1));
            }
            if s[0] == prefix[0] && prefix.drop_first().is_prefix_of(s.drop_first()) {
                let n = prefix.len() as int;
                assert forall|i: int| 0 <= i < n implies prefix[i] == s.subrange(0, n)[i] by {
                    if i > 0 {
                        assert(prefix.drop_first()[i - 1] == s.drop_first().subrange(0, n - 1)[i
                            - 1]);
                    }
                }
                assert(prefix =~= s.subrange(0, n));
            }
        }
    }
}

/// A pattern without a `*` matches itself alone.
pub proof fn lemma_glob_literal(pattern: Seq<char>, s: Seq<char>)
    requires
        !pattern.contains('*'),
    ensures
        glob_match(pattern, s) <==> pattern == s,
    decreases pattern.len(),
{
    if pattern.len() == 0 {
        assert(s.len() == 0 ==> pattern =~= s);
    } else {
        assert(pattern.contains(pattern[0]));
        if s.len() > 0 {
            assert(!pattern.drop_first().contains('*')) by {
                if pattern.drop_first().contains('*') {
                    let i = choose|i: int|
                        0 <= i < pattern.drop_first().len() && pattern.drop_first()[i] == '*';
                    assert(pattern[i + 1] == '*');
                }
            }
            lemma_glob_literal(pattern.drop_first(), s.drop_first());
            assert(pattern =~= seq![pattern[0]] + pattern.drop_first());
            assert(s =~= seq![s[0]] + s.drop_first());
        }
    }
}

fn match_from(pattern: &Vec<char>, i: usize, s: &Vec<char>, j: usize) -> (r: bool)
    requires
        i <= pattern@.len(),
        j <= s@.len(),
    ensures
        r == glob_match(pattern@.skip(i as int), s@.skip(j as int)),
    decreases pattern.len() - i, s.len() - j,
{
    if i == pattern.len() {
        return j == s.len();
    }
    assert(pattern@.skip(i as int).drop_first() =~= pattern@.skip(i + 1));
    if j < s.len() {
        assert(s@.skip(j as int).drop_first() =~= s@.skip(j + 1));
    }
    if pattern[i] == '*' {
        match_from(pattern, i + 1, s, j) || (j < s.len() && match_from(pattern, i, s, j + 1))
    } else {
        j < s.len() && s[j] == pattern[i] && match_from(pattern, i + 1, s, j + 1)
    }
}

/// A set of path patterns.
#[derive(Debug)]
pub struct GlobMatcher {
    /// The patterns, of which a path is to match at least one.
    pub patterns: Vec<String>,
}

/// Whether a path matches one of the patterns.
pub open spec fn any_match(patterns: Seq<Seq<char>>, path: Seq<char>) -> bool {
    exists|i: int| 0 <= i < patterns.len() && glob_match(#[trigger] patterns[i], path)
}

impl View for GlobMatcher {
    type V = Seq<Seq<char>>;

    open spec fn view(&self) -> Seq<Seq<char>> {
        text::texts(self.patterns@)
    }
}

impl GlobMatcher {
    /// A matcher for the given patterns.
    pub fn new(patterns: Vec<String>) -> (r: GlobMatcher)
        ensures
            r@ == text::texts(patterns@),
    {
        GlobMatcher { patterns }
    }

    /// Whether `path` matches one of the patterns.
    pub fn matches(&self, path: &str) -> (r: bool)
        ensures
            r == any_match(self@, path@),
    {
        let s = text::chars_of(path);
        assert(s@.skip(0) =~= path@);
        let mut i: usize = 0;
        while i < self.patterns.len()
            invariant
                i <= self.patterns.len(),
                s@ == path@,
                s@.skip(0) == path@,
                forall|k: int| 0 <= k < i ==> !glob_match(#[trigger] self@[k], path@),
            decreases self.patterns.len() - i,
        {
            let pattern = text::chars_of(self.patterns[i].as_str());
            assert(pattern@.skip(0) =~= self@[i as int]);
            if match_from(&pattern, 0, &s, 0) {
                return true;
            }
            i = i + 1;
        }
        false
    }
}

} // verus!
