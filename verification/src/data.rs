//! The word lists that the word classes draw from.

use vstd::prelude::*;

verus! {

/// The six word lists, borrowed from whoever owns the vocabulary. A list may
/// be empty; a mode that needs an entry of an empty list fails.
#[derive(Debug, Clone, Copy)]
pub struct Lexicon<'a> {
    pub nouns: &'a [&'a str],
    pub verbs: &'a [&'a str],
    pub preds: &'a [&'a str],
    pub adjs: &'a [&'a str],
    pub adverbs: &'a [&'a str],
    pub links: &'a [&'a str],
}

/// `text` is one of the entries of `list`.
pub open spec fn holds(list: Seq<&str>, text: Seq<char>) -> bool {
    exists|i: int| 0 <= i < list.len() && (#[trigger] list[i])@ == text
}

impl<'a> Lexicon<'a> {
    /// A vocabulary without words.
    pub fn empty() -> (words: Self)
        ensures
            words.nouns@.len() == 0,
            words.verbs@.len() == 0,
            words.preds@.len() == 0,
            words.adjs@.len() == 0,
            words.adverbs@.len() == 0,
            words.links@.len() == 0,
    {
        Lexicon { nouns: &[], verbs: &[], preds: &[], adjs: &[], adverbs: &[], links: &[] }
    }

    /// Every list holds at least one word.
    pub open spec fn complete(&self) -> bool {
        &&& self.nouns@.len() > 0
        &&& self.verbs@.len() > 0
        &&& self.preds@.len() > 0
        &&& self.adjs@.len() > 0
        &&& self.adverbs@.len() > 0
        &&& self.links@.len() > 0
    }

    /// Whether every list holds at least one word.
    pub fn is_complete(&self) -> (yes: bool)
        ensures
            yes == self.complete(),
    {
        self.nouns.len() > 0 && self.verbs.len() > 0 && self.preds.len() > 0 && self.adjs.len() > 0
            && self.adverbs.len() > 0 && self.links.len() > 0
    }
}

} // verus!
