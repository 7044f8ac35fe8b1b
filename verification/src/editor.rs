//! Edits of kargs.

use crate::error::{LiveError, Refusal};
use crate::text;
use vstd::prelude::*;
use vstd::string::*;

verus! {

/// An edit of kargs: what is to be appended, replaced and deleted.
#[derive(Debug)]
pub struct KargsEditor {
    pub append: Vec<String>,
    pub replace: Vec<String>,
    pub delete: Vec<String>,
}

/// An edit with its texts as sequences.
#[verifier::ext_equal]
pub struct EditView {
    pub append: Seq<Seq<char>>,
    pub replace: Seq<Seq<char>>,
    pub delete: Seq<Seq<char>>,
}

impl View for KargsEditor {
    type V = EditView;

    open spec fn view(&self) -> EditView {
        EditView {
            append: text::texts(self.append@),
            replace: text::texts(self.replace@),
            delete: text::texts(self.delete@),
        }
    }
}

/// The edit that changes nothing.
pub open spec fn no_edit() -> EditView {
    EditView { append: Seq::empty(), replace: Seq::empty(), delete: Seq::empty() }
}

fn copied_texts(v: &Vec<String>) -> (r: Vec<String>)
    ensures
        text::texts(r@) == text::texts(v@),
{
    let mut r: Vec<String> = Vec::new();
    let mut i: usize = 0;
    assert(text::texts(r@) =~= text::texts(v@).take(0));
    while i < v.len()
        invariant
            i <= v.len(),
            text::texts(r@) == text::texts(v@).take(i as int),
        decreases v.len() - i,
    {
        let ghost before = text::texts(r@);
        r.push(v[i].clone());
        assert(text::texts(r@) =~= before.push(v@[i as int]@));
        assert(text::texts(v@).take(i + 1) =~= text::texts(v@).take(i as int).push(v@[i as int]@));
        i = i + 1;
    }
    assert(text::texts(v@).take(i as int) =~= text::texts(v@));
    r
}

impl KargsEditor {
    /// The edit that changes nothing.
    pub fn new() -> (r: KargsEditor)
        ensures
            r@ == no_edit(),
    {
        let r = KargsEditor { append: Vec::new(), replace: Vec::new(), delete: Vec::new() };
        assert(r@ =~= no_edit());
        r
    }

    /// The edit with the given kargs to append.
    pub fn append(self, args: &Vec<String>) -> (r: KargsEditor)
        ensures
            r@ == (EditView { append: text::texts(args@), ..self@ }),
    {
        KargsEditor { append: copied_texts(args), replace: self.replace, delete: self.delete }
    }

    /// The edit with the given replacements.
    pub fn replace(self, args: &Vec<String>) -> (r: KargsEditor)
        ensures
            r@ == (EditView { replace: text::texts(args@), ..self@ }),
    {
        KargsEditor { append: self.append, replace: copied_texts(args), delete: self.delete }
    }

    /// The edit with the given kargs to delete.
    pub fn delete(self, args: &Vec<String>) -> (r: KargsEditor)
        ensures
            r@ == (EditView { delete: text::texts(args@), ..self@ }),
    {
        KargsEditor { append: self.append, replace: self.replace, delete: copied_texts(args) }
    }

    /// Applies the edit to kargs.
    pub fn apply_to<K: Fn(&KargsEditor, &str) -> Result<String, String>>(
        &self,
        kargs: &str,
        edit: &K,
    ) -> (r: Result<String, LiveError>)
        requires
            forall|editor: &KargsEditor, kargs: &str| call_requires(*edit, (editor, kargs)),
        ensures
            edited(self@, kargs@, *edit, crate::error::outcome(r)),
    {
        match edit(self, kargs) {
            Ok(kargs) => Ok(kargs),
            Err(reason) => Err(LiveError::EditKargs { reason }),
        }
    }
}

/// How an edit is applied to kargs.
pub open spec fn edited<K: Fn(&KargsEditor, &str) -> Result<String, String>>(
    editor: EditView,
    kargs: Seq<char>,
    edit: K,
    r: Result<Seq<char>, Refusal>,
) -> bool {
    exists|e: &KargsEditor, s: &str, out: Result<String, String>|
        {
            &&& e@ == editor
            &&& s@ == kargs
            &&& #[trigger] call_ensures(edit, (e, s), out)
            &&& r == match out {
                Ok(kargs) => Ok(kargs@),
                Err(reason) => Err(Refusal::EditKargs { reason: reason@ }),
            }
        }
}

} // verus!
