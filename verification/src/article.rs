//! Articles: the records that a shard is made of.

use vstd::prelude::*;

verus! {

/// One article of a shard.
pub struct Article {
    id: String,
    text: String,
    title: String,
}

/// What an article holds, as plain sequences of characters.
pub struct ArticleView {
    pub id: Seq<char>,
    pub title: Seq<char>,
    pub text: Seq<char>,
}

impl View for Article {
    type V = ArticleView;

    closed spec fn view(&self) -> ArticleView {
        ArticleView { id: self.id@, title: self.title@, text: self.text@ }
    }
}

impl Article {
    /// An article with the given identifier, title and text.
    pub fn new(id: String, title: String, text: String) -> (article: Self)
        ensures
            article@ == (ArticleView { id: id@, title: title@, text: text@ }),
    {
        Self { id, text, title }
    }

    /// The article's identifier.
    pub fn id(&self) -> (id: &str)
        ensures
            id@ == self@.id,
    {
        self.id.as_str()
    }

    /// The article's title.
    pub fn title(&self) -> (title: &str)
        ensures
            title@ == self@.title,
    {
        self.title.as_str()
    }

    /// The article's text.
    pub fn text(&self) -> (text: &str)
        ensures
            text@ == self@.text,
    {
        self.text.as_str()
    }
}

} // verus!
