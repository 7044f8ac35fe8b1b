//! The files of an initramfs.

use crate::glob;
use crate::glob::GlobMatcher;
use crate::order;
use crate::text;
use vstd::prelude::*;
use vstd::string::*;
use vstd::utf8::*;

verus! {

/// One file of an initramfs.
#[derive(Debug)]
pub struct Member {
    /// Where the file lies, without a leading `/`.
    pub path: String,
    /// What the file holds.
    pub data: Vec<u8>,
}

impl Clone for Member {
    fn clone(&self) -> (r: Member)
        ensures
            r.path@ == self.path@,
            r.data@ == self.data@,
    {
        let data = self.data.clone();
        assert(data@ =~= self.data@);
        Member { path: self.path.clone(), data }
    }
}

/// The files of a list by path. Of two files with one path the later counts.
pub open spec fn files_by_path(members: Seq<Member>) -> Map<Seq<char>, Seq<u8>>
    decreases members.len(),
{
    if members.len() == 0 {
        Map::empty()
    } else {
        files_by_path(members.drop_last()).insert(members.last().path@, members.last().data@)
    }
}

/// The order of paths: that of their encodings.
pub open spec fn path_lt(a: Seq<char>, b: Seq<char>) -> bool {
    order::bytes_le(encode_utf8(a), encode_utf8(b)) && a != b
}

/// Whether the paths of a list increase.
pub open spec fn paths_increase(members: Seq<Member>) -> bool {
    forall|i: int, j: int|
        0 <= i < j < members.len() ==> path_lt(
            (#[trigger] members[i]).path@,
            (#[trigger] members[j]).path@,
        )
}

proof fn lemma_encoding_injective(a: Seq<char>, b: Seq<char>)
    requires
        encode_utf8(a) == encode_utf8(b),
    ensures
        a == b,
{
    encode_utf8_decode_utf8(a);
    encode_utf8_decode_utf8(b);
}

proof fn lemma_path_lt_transitive(a: Seq<char>, b: Seq<char>, c: Seq<char>)
    requires
        path_lt(a, b),
        path_lt(b, c),
    ensures
        path_lt(a, c),
{
    order::lemma_bytes_le_transitive(encode_utf8(a), encode_utf8(b), encode_utf8(c));
    if a == c {
        order::lemma_bytes_le_antisymmetric(encode_utf8(a), encode_utf8(b));
        lemma_encoding_injective(a, b);
    }
}

/// What a list with distinct paths holds at a path.
pub proof fn lemma_files_by_path(members: Seq<Member>, path: Seq<char>)
    requires
        paths_increase(members),
    ensures
        files_by_path(members).contains_key(path) <==> exists|i: int|
            0 <= i < members.len() && (#[trigger] members[i]).path@ == path,
        forall|i: int|
            0 <= i < members.len() && (#[trigger] members[i]).path@ == path ==> files_by_path(
                members,
            )[path] == members[i].data@,
    decreases members.len(),
{
    if members.len() > 0 {
        let before = members.drop_last();
        assert forall|i: int, j: int| 0 <= i < j < before.len() implies path_lt(
            (#[trigger] before[i]).path@,
            (#[trigger] before[j]).path@,
        ) by {
            assert(before[i] == members[i] && before[j] == members[j]);
        }
        lemma_files_by_path(before, path);
        let last = members.len() - 1;
        if files_by_path(members).contains_key(path) {
            if members[last].path@ != path {
                let i = choose|i: int| 0 <= i < before.len() && (#[trigger] before[i]).path@ == path;
                assert(members[i].path@ == path);
            }
        }
        assert forall|i: int| 0 <= i < members.len() && (#[trigger] members[i]).path@ == path implies
            files_by_path(members).contains_key(path) && files_by_path(members)[path]
            == members[i].data@ by {
            if i < last {
                assert(path_lt(members[i].path@, members[last].path@));
                assert(before[i].path@ == path);
            }
        }
    }
}

/// The files of an initramfs, one at each path.
#[derive(Debug)]
pub struct Initrd {
    members: Vec<Member>,
}

impl View for Initrd {
    type V = Map<Seq<char>, Seq<u8>>;

    closed spec fn view(&self) -> Map<Seq<char>, Seq<u8>> {
        files_by_path(self.members@)
    }
}

/// The files at paths that match one of the patterns.
pub open spec fn matching_files(files: Map<Seq<char>, Seq<u8>>, patterns: Seq<Seq<char>>) -> Map<
    Seq<char>,
    Seq<u8>,
> {
    files.restrict(Set::new(|path: Seq<char>| glob::any_match(patterns, path)))
}

impl Initrd {
    #[verifier::type_invariant]
    spec fn in_order(self) -> bool {
        paths_increase(self.members@)
    }

    /// An initramfs without files.
    pub fn empty() -> (r: Initrd)
        ensures
            r@ == Map::<Seq<char>, Seq<u8>>::empty(),
    {
        Initrd { members: Vec::new() }
    }

    /// The position of the first member whose path is not below `path`, and
    /// whether it is at `path`.
    fn position(&self, path: &str) -> (r: (usize, bool))
        ensures
            r.0 <= self.members@.len(),
            forall|i: int| 0 <= i < r.0 ==> path_lt((#[trigger] self.members@[i]).path@, path@),
            forall|i: int|
                r.0 <= i < self.members@.len() && !(r.1 && i == r.0) ==> path_lt(
                    path@,
                    (#[trigger] self.members@[i]).path@,
                ),
            r.1 ==> r.0 < self.members@.len() && self.members@[r.0 as int].path@ == path@,
    {
        proof {
            use_type_invariant(self);
        }
        let mut i: usize = 0;
        while i < self.members.len()
            invariant
                paths_increase(self.members@),
                i <= self.members.len(),
                forall|k: int| 0 <= k < i ==> path_lt((#[trigger] self.members@[k]).path@, path@),
            decreases self.members.len() - i,
        {
            let here: &str = self.members[i].path.as_str();
            if text::same_text(here, path) {
                assert forall|k: int| i < k < self.members@.len() implies path_lt(
                    path@,
                    (#[trigger] self.members@[k]).path@,
                ) by {
                    assert(path_lt(self.members@[i as int].path@, self.members@[k].path@));
                }
                return (i, true);
            }
            if order::bytes_at_most(path.as_bytes(), here.as_bytes()) {
                assert forall|k: int| i <= k < self.members@.len() implies path_lt(
                    path@,
                    (#[trigger] self.members@[k]).path@,
                ) by {
                    if k > i {
                        assert(path_lt(self.members@[i as int].path@, self.members@[k].path@));
                        lemma_path_lt_transitive(path@, here@, self.members@[k].path@);
                    }
                }
                return (i, false);
            }
            proof {
                order::lemma_bytes_le_total(encode_utf8(path@), encode_utf8(here@));
            }
            i = i + 1;
        }
        (i, false)
    }

    /// What the file at `path` holds.
    pub fn get(&self, path: &str) -> (r: Option<&[u8]>)
        ensures
            match r {
                Some(data) => self@.contains_key(path@) && data@ == self@[path@],
                None => !self@.contains_key(path@),
            },
    {
        proof {
            use_type_invariant(self);
            lemma_files_by_path(self.members@, path@);
        }
        let (i, found) = self.position(path);
        if found {
            assert(self.members@[i as int].path@ == path@);
            Some(self.members[i].data.as_slice())
        } else {
            None
        }
    }

    /// Whether there are no files.
    pub fn is_empty(&self) -> (r: bool)
        ensures
            r == (self@ == Map::<Seq<char>, Seq<u8>>::empty()),
    {
        let r = self.members.is_empty();
        proof {
            use_type_invariant(self);
            if !r {
                let path = self.members@[0].path@;
                lemma_files_by_path(self.members@, path);
                assert(self@.contains_key(path));
            }
        }
        r
    }

    /// The files, in the order of their paths.
    pub fn members(&self) -> (r: &Vec<Member>)
        ensures
            paths_increase(r@),
            files_by_path(r@) == self@,
    {
        proof {
            use_type_invariant(self);
        }
        &self.members
    }

    /// Puts a file in place, instead of one that may be there already.
    pub fn add(&mut self, path: &str, data: Vec<u8>)
        ensures
            final(self)@ == old(self)@.insert(path@, data@),
    {
        proof {
            use_type_invariant(&*self);
        }
        let (at, found) = self.position(path);
        let mut members: Vec<Member> = Vec::new();
        std::mem::swap(&mut members, &mut self.members);
        let ghost before = members@;
        let ghost bytes = data@;
        let member = Member { path: path.to_owned(), data };
        if found {
            members.set(at, member);
            let ghost after = members@;
            assert(paths_increase(after)) by {
                assert forall|i: int, j: int| 0 <= i < j < after.len() implies path_lt(
                    (#[trigger] after[i]).path@,
                    (#[trigger] after[j]).path@,
                ) by {
                    assert(path_lt(before[i].path@, before[j].path@));
                }
            }
        } else {
            members.insert(at, member);
            let ghost after = members@;
            assert(paths_increase(after)) by {
                assert forall|i: int, j: int| 0 <= i < j < after.len() implies path_lt(
                    (#[trigger] after[i]).path@,
                    (#[trigger] after[j]).path@,
                ) by {
                    let a = if i < at {
                        i
                    } else {
                        i - 1
                    };
                    let b = if j < at {
                        j
                    } else {
                        j - 1
                    };
                    if i != at {
                        assert(after[i] == before[a]);
                    }
                    if j != at {
                        assert(after[j] == before[b]);
                    }
                    if i != at && j != at {
                        assert(path_lt(before[a].path@, before[b].path@));
                    }
                }
            }
        }
        proof {
            let after = members@;
            let expected = files_by_path(before).insert(path@, bytes);
            assert forall|p: Seq<char>|
                #![trigger files_by_path(after).dom().contains(p)]
                #![trigger files_by_path(after)[p]]
                files_by_path(after).contains_key(p) == expected.contains_key(p) && (
                expected.contains_key(p) ==> files_by_path(after)[p] == expected[p]) by {
                lemma_files_by_path(before, p);
                lemma_files_by_path(after, p);
                if p == path@ {
                    assert(after[at as int].path@ == p);
                } else {
                    if exists|i: int| 0 <= i < before.len() && (#[trigger] before[i]).path@ == p {
                        let i = choose|i: int|
                            0 <= i < before.len() && (#[trigger] before[i]).path@ == p;
                        let j = if found || i < at {
                            i
                        } else {
                            i + 1
                        };
                        assert(after[j] == before[i]);
                        assert(after[j].path@ == p);
                    }
                    if exists|j: int| 0 <= j < after.len() && (#[trigger] after[j]).path@ == p {
                        let j = choose|j: int|
                            0 <= j < after.len() && (#[trigger] after[j]).path@ == p;
                        let i = if found || j < at {
                            j
                        } else {
                            j - 1
                        };
                        assert(after[j] == before[i]);
                        assert(before[i].path@ == p);
                    }
                }
            }
            assert(files_by_path(after) =~= expected);
        }
        self.members = members;
    }

    /// Takes the file at `path` away, if there is one.
    pub fn remove(&mut self, path: &str)
        ensures
            final(self)@ == old(self)@.remove(path@),
    {
        proof {
            use_type_invariant(&*self);
        }
        let (at, found) = self.position(path);
        let mut members: Vec<Member> = Vec::new();
        std::mem::swap(&mut members, &mut self.members);
        let ghost before = members@;
        if found {
            members.remove(at);
            let ghost after = members@;
            assert(paths_increase(after)) by {
                assert forall|i: int, j: int| 0 <= i < j < after.len() implies path_lt(
                    (#[trigger] after[i]).path@,
                    (#[trigger] after[j]).path@,
                ) by {
                    let a = if i < at {
                        i
                    } else {
                        i + 1
                    };
                    let b = if j < at {
                        j
                    } else {
                        j + 1
                    };
                    assert(after[i] == before[a]);
                    assert(after[j] == before[b]);
                    assert(path_lt(before[a].path@, before[b].path@));
                }
            }
        }
        proof {
            let after = members@;
            let expected = files_by_path(before).remove(path@);
            assert forall|p: Seq<char>|
                #![trigger files_by_path(after).dom().contains(p)]
                #![trigger files_by_path(after)[p]]
                files_by_path(after).contains_key(p) == expected.contains_key(p) && (
                expected.contains_key(p) ==> files_by_path(after)[p] == expected[p]) by {
                lemma_files_by_path(before, p);
                lemma_files_by_path(after, p);
                if exists|i: int| 0 <= i < before.len() && (#[trigger] before[i]).path@ == p {
                    let i = choose|i: int| 0 <= i < before.len() && (#[trigger] before[i]).path@ == p;
                    if p != path@ {
                        let j = if !found || i < at {
                            i
                        } else {
                            i - 1
                        };
                        assert(after[j] == before[i]);
                        assert(after[j].path@ == p);
                    }
                }
                if exists|j: int| 0 <= j < after.len() && (#[trigger] after[j]).path@ == p {
                    let j = choose|j: int| 0 <= j < after.len() && (#[trigger] after[j]).path@ == p;
                    let i = if !found || j < at {
                        j
                    } else {
                        j + 1
                    };
                    assert(after[j] == before[i]);
                    assert(before[i].path@ == p);
                }
            }
            assert(files_by_path(after) =~= expected);
        }
        self.members = members;
    }

    /// The files at paths that match one of the patterns, in the order of
    /// their paths.
    pub fn find(&self, filter: &GlobMatcher) -> (r: Vec<Member>)
        ensures
            paths_increase(r@),
            files_by_path(r@) == matching_files(self@, filter@),
    {
        proof {
            use_type_invariant(self);
        }
        let mut r: Vec<Member> = Vec::new();
        let mut i: usize = 0;
        let ghost all = self.members@;
        assert(files_by_path(r@) =~= matching_files(files_by_path(all.take(0)), filter@));
        while i < self.members.len()
            invariant
                i <= self.members.len(),
                all == self.members@,
                paths_increase(all),
                paths_increase(r@),
                forall|k: int|
                    0 <= k < r@.len() ==> exists|j: int|
                        0 <= j < i && (#[trigger] all[j]).path@ == (#[trigger] r@[k]).path@,
                files_by_path(r@) == matching_files(
                    files_by_path(all.take(i as int)),
                    filter@,
                ),
            decreases self.members.len() - i,
        {
            let ghost before = r@;
            assert(all.take(i + 1).drop_last() =~= all.take(i as int));
            if filter.matches(self.members[i].path.as_str()) {
                r.push(self.members[i].clone());
                assert(r@.drop_last() =~= before);
                assert forall|a: int, b: int| 0 <= a < b < r@.len() implies path_lt(
                    (#[trigger] r@[a]).path@,
                    (#[trigger] r@[b]).path@,
                ) by {
                    assert(r@[a] == before[a]);
                    if b == before.len() {
                        let j = choose|j: int|
                            0 <= j < i && (#[trigger] all[j]).path@ == before[a].path@;
                        assert(path_lt(all[j].path@, all[i as int].path@));
                    } else {
                        assert(r@[b] == before[b]);
                    }
                }
                assert forall|k: int| 0 <= k < r@.len() implies exists|j: int|
                    0 <= j < i + 1 && (#[trigger] all[j]).path@ == (#[trigger] r@[k]).path@ by {
                    if k < before.len() {
                        assert(r@[k] == before[k]);
                        let j = choose|j: int|
                            0 <= j < i && (#[trigger] all[j]).path@ == before[k].path@;
                        assert(all[j].path@ == r@[k].path@);
                    } else {
                        assert(all[i as int].path@ == r@[k].path@);
                    }
                }
            }
            assert(files_by_path(r@) =~= matching_files(
                files_by_path(all.take(i + 1)),
                filter@,
            ));
            i = i + 1;
        }
        assert(all.take(i as int) =~= all);
        r
    }

    /// An initramfs with those of the given files, in the order in which they
    /// come, whose path matches one of the patterns.
    pub fn from_members_filtered(members: Vec<Member>, filter: &GlobMatcher) -> (r: Initrd)
        ensures
            r@ == matching_files(files_by_path(members@), filter@),
    {
        let mut r = Initrd::empty();
        let mut i: usize = 0;
        assert(r@ =~= matching_files(files_by_path(members@.take(0)), filter@));
        while i < members.len()
            invariant
                i <= members.len(),
                r@ == matching_files(files_by_path(members@.take(i as int)), filter@),
            decreases members.len() - i,
        {
            assert(members@.take(i + 1).drop_last() =~= members@.take(i as int));
            if filter.matches(members[i].path.as_str()) {
                let member = members[i].clone();
                r.add(member.path.as_str(), member.data);
            }
            assert(r@ =~= matching_files(files_by_path(members@.take(i + 1)), filter@));
            i = i + 1;
        }
        assert(members@.take(i as int) =~= members@);
        r
    }

    /// An initramfs with the given files, in the order in which they come.
    pub fn from_members(members: Vec<Member>) -> (r: Initrd)
        ensures
            r@ == files_by_path(members@),
    {
        let mut r = Initrd::empty();
        let mut i: usize = 0;
        while i < members.len()
            invariant
                i <= members.len(),
                r@ == files_by_path(members@.take(i as int)),
            decreases members.len() - i,
        {
            assert(members@.take(i + 1).drop_last() =~= members@.take(i as int));
            let member = members[i].clone();
            r.add(member.path.as_str(), member.data);
            i = i + 1;
        }
        assert(members@.take(i as int) =~= members@);
        r
    }
}

impl Clone for Initrd {
    fn clone(&self) -> (r: Initrd)
        ensures
            r@ == self@,
    {
        let mut r = Initrd::empty();
        let mut i: usize = 0;
        while i < self.members.len()
            invariant
                i <= self.members.len(),
                r@ == files_by_path(self.members@.take(i as int)),
            decreases self.members.len() - i,
        {
            assert(self.members@.take(i + 1).drop_last() =~= self.members@.take(i as int));
            let member = self.members[i].clone();
            r.add(member.path.as_str(), member.data);
            i = i + 1;
        }
        assert(self.members@.take(i as int) =~= self.members@);
        r
    }
}

impl Default for Initrd {
    fn default() -> (r: Initrd)
        ensures
            r@ == Map::<Seq<char>, Seq<u8>>::empty(),
    {
        Initrd::empty()
    }
}

} // verus!
