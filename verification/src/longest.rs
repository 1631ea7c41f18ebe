//! Longest records: the one largest item seen so far, with its title and the
//! place where it was found.

use crate::article::{Article, ArticleView};
use vstd::prelude::*;
use vstd::string::*;
use vstd::utf8::encode_utf8;

verus! {

/// The largest item seen so far: the title of the article it belongs to, the
/// place of that article, and the size by which items are compared.
pub struct LongestItem {
    title: String,
    path: String,
    size: usize,
}

/// What a longest record holds, as plain values.
pub struct LongestItemView {
    pub title: Seq<char>,
    pub path: Seq<char>,
    pub size: nat,
}

impl View for LongestItem {
    type V = LongestItemView;

    closed spec fn view(&self) -> LongestItemView {
        LongestItemView { title: self.title@, path: self.path@, size: self.size as nat }
    }
}

/// The number of bytes that a string takes in UTF-8.
pub open spec fn byte_len(s: Seq<char>) -> nat {
    encode_utf8(s).len()
}

/// The place of an article: the label of its shard, a slash, the article's
/// identifier.
pub open spec fn location(shard: Seq<char>, id: Seq<char>) -> Seq<char> {
    shard.push('/') + id
}

/// The record of no item at all: empty strings and size zero.
pub open spec fn no_record() -> LongestItemView {
    LongestItemView { title: Seq::empty(), path: Seq::empty(), size: 0 }
}

/// The record that an article makes when articles are compared by the length
/// of their text.
pub open spec fn article_record(a: ArticleView, shard: Seq<char>) -> LongestItemView {
    LongestItemView { title: a.title, path: location(shard, a.id), size: byte_len(a.text) }
}

/// The record that an article makes when articles are compared by the length
/// of their title.
pub open spec fn title_record(a: ArticleView, shard: Seq<char>) -> LongestItemView {
    LongestItemView { title: a.title, path: location(shard, a.id), size: byte_len(a.title) }
}

/// Which of two records stays: the candidate only if it is strictly larger,
/// so that of two equal records the one seen first is kept.
pub open spec fn longer_of(kept: LongestItemView, candidate: LongestItemView) -> LongestItemView {
    if candidate.size > kept.size {
        candidate
    } else {
        kept
    }
}

/// The place of the article `id` in the shard `shard`, as a string.
fn full_path(shard: &str, id: &str) -> (path: String)
    ensures
        path@ == location(shard@, id@),
{
    let mut path = String::from_str(shard);
    path.push('/');
    path.append(id);
    path
}

/// A string takes at least one byte for each character.
pub proof fn lemma_byte_len(s: Seq<char>)
    ensures
        s.len() <= byte_len(s),
    decreases s.len(),
{
    if s.len() > 0 {
        lemma_byte_len(s.drop_first());
    }
}

/// The number of bytes that `s` takes.
pub fn utf8_len(s: &str) -> (n: usize)
    ensures
        n == byte_len(s@),
{
    broadcast use vstd::slice::axiom_spec_len;

    s.as_bytes().len()
}

impl LongestItem {
    /// The record of no item at all.
    pub fn new() -> (item: Self)
        ensures
            item@ == no_record(),
    {
        Self { title: String::new(), path: String::new(), size: 0 }
    }

    /// The record of article `a` of shard `p`, sized by the article's text.
    pub fn new_longest_article(a: &Article, p: &str) -> (item: Self)
        ensures
            item@ == article_record(a@, p@),
    {
        Self { title: String::from_str(a.title()), path: full_path(p, a.id()), size: utf8_len(a.text()) }
    }

    /// The record of article `a` of shard `p`, sized by the article's title.
    pub fn new_longest_title(a: &Article, p: &str) -> (item: Self)
        ensures
            item@ == title_record(a@, p@),
    {
        Self {
            title: String::from_str(a.title()),
            path: full_path(p, a.id()),
            size: utf8_len(a.title()),
        }
    }

    /// Takes `candidate` in place of this record if it is strictly larger.
    pub fn consider(&mut self, candidate: LongestItem)
        ensures
            final(self)@ == longer_of(old(self)@, candidate@),
    {
        if candidate.size > self.size {
            *self = candidate;
        }
    }

    /// The title of the recorded article.
    pub fn title(&self) -> (title: &str)
        ensures
            title@ == self@.title,
    {
        self.title.as_str()
    }

    /// The place of the recorded article.
    pub fn path(&self) -> (path: &str)
        ensures
            path@ == self@.path,
    {
        self.path.as_str()
    }

    /// The size of the recorded item in bytes.
    pub fn size(&self) -> (size: usize)
        ensures
            size == self@.size,
    {
        self.size
    }
}

impl Default for LongestItem {
    /// The record of no item at all.
    fn default() -> (item: Self)
        ensures
            item@ == no_record(),
    {
        Self::new()
    }
}

} // verus!
