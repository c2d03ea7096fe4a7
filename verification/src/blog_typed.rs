//! A blog post workflow where each stage is its own type: a draft gathers
//! text, a post under review needs two approvals, and only a published
//! post shows its content.

use vstd::prelude::*;
use vstd::string::StringExecFns;

verus! {

/// A published post: its content is visible.
pub struct Post {
    content: String,
}

/// A post still being written: text can be added, nothing is visible.
pub struct DraftPost {
    content: String,
}

/// A post waiting for review: it needs two approvals to publish.
pub struct PendingReviewPost {
    content: String,
    num_approvals: u8,
}

impl Post {
    /// The visible content.
    pub closed spec fn text(&self) -> Seq<char> {
        self.content@
    }

    /// A new post starts life as an empty draft.
    pub fn new() -> (p: DraftPost)
        ensures
            p.text() == Seq::<char>::empty(),
    {
        DraftPost { content: String::new() }
    }

    /// The content of a published post.
    pub fn content(&self) -> (r: &str)
        ensures
            r@ == self.text(),
    {
        self.content.as_str()
    }
}

impl DraftPost {
    /// The text gathered so far.
    pub closed spec fn text(&self) -> Seq<char> {
        self.content@
    }

    /// Appends `text` to the draft.
    pub fn add_text(&mut self, text: &str)
        ensures
            final(self).text() == old(self).text() + text@,
    {
        self.content.append(text);
    }

    /// Sends the draft to review, with no approval yet.
    pub fn request_review(self) -> (p: PendingReviewPost)
        ensures
            p.text() == self.text(),
            p.approvals() == 0,
    {
        PendingReviewPost { content: self.content, num_approvals: 0 }
    }
}

impl PendingReviewPost {
    /// The text under review.
    pub closed spec fn text(&self) -> Seq<char> {
        self.content@
    }

    /// How many approvals the post has collected, counted up to the two
    /// that publication needs.
    pub closed spec fn approvals(&self) -> nat {
        self.num_approvals as nat
    }

    /// The approval count never passes the two that matter.
    pub open spec fn wf(&self) -> bool {
        self.approvals() <= 2
    }

    /// Records one approval; once two have been collected, every call
    /// hands back the published post.
    pub fn approve(&mut self) -> (r: Option<Post>)
        requires
            old(self).wf(),
        ensures
            final(self).wf(),
            final(self).text() == old(self).text(),
            final(self).approvals() == if old(self).approvals() < 2 {
                old(self).approvals() + 1
            } else {
                old(self).approvals()
            },
            (r matches Some(p) ==> p.text() == old(self).text()),
            (r is Some <==> old(self).approvals() + 1 >= 2),
    {
        if self.num_approvals < 2 {
            self.num_approvals = self.num_approvals + 1;
        }
        if self.num_approvals >= 2 {
            Some(Post { content: self.content.clone() })
        } else {
            None
        }
    }

    /// Sends the post back to the draft stage, keeping its text.
    pub fn reject(self) -> (p: DraftPost)
        ensures
            p.text() == self.text(),
    {
        DraftPost { content: self.content }
    }
}

} // verus!
