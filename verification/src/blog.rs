//! A blog post that carries its workflow stage inside one value: a post
//! starts as a draft, goes through review, needs two approvals, can be
//! rejected back to a draft, and shows its content only once published.

use vstd::prelude::*;
use vstd::string::StringExecFns;

verus! {

/// The stage a post is in.
pub enum PostState {
    Draft,
    PendingReview { num_approvals: u32 },
    Published,
}

/// A post and its stage.  Text can only be added while it is a draft,
/// and only a published post shows its content.
pub struct Post {
    pub state: PostState,
    pub content: String,
}

impl Post {
    /// A post under review never holds more approvals than the two that
    /// decide it.
    pub open spec fn wf(&self) -> bool {
        self.state matches PostState::PendingReview { num_approvals } ==> num_approvals < 2
    }

    /// A new, empty draft.
    pub fn new() -> (p: Post)
        ensures
            p.state is Draft,
            p.content@ == Seq::<char>::empty(),
            p.wf(),
    {
        Post { state: PostState::Draft, content: String::new() }
    }

    /// Appends `text` to the content, but only while the post is a
    /// draft; at any other stage the call changes nothing.
    pub fn add_text(&mut self, text: &str)
        ensures
            final(self).state == old(self).state,
            final(self).content@ == if old(self).state is Draft {
                old(self).content@ + text@
            } else {
                old(self).content@
            },
    {
        match self.state {
            PostState::Draft => self.content.append(text),
            _ => (),
        }
    }

    /// The visible content: the text once published, nothing before.
    pub fn content(&self) -> (r: &str)
        ensures
            r@ == if self.state is Published {
                self.content@
            } else {
                Seq::<char>::empty()
            },
    {
        match self.state {
            PostState::Published => self.content.as_str(),
            _ => {
                proof {
                    reveal_strlit("");
                    assert(""@ =~= Seq::<char>::empty());
                }
                ""
            },
        }
    }

    /// Sends a draft to review with no approval yet; at any other stage
    /// the call changes nothing.
    pub fn request_review(&mut self)
        requires
            old(self).wf(),
        ensures
            final(self).wf(),
            final(self).content == old(self).content,
            final(self).state == (match old(self).state {
                PostState::Draft => (PostState::PendingReview { num_approvals: 0 }),
                s => s,
            }),
    {
        match self.state {
            PostState::Draft => {
                self.state = PostState::PendingReview { num_approvals: 0 };
            },
            _ => (),
        }
    }

    /// Records one approval on a post under review; the second approval
    /// publishes it.  At any other stage the call changes nothing.
    pub fn approve(&mut self)
        requires
            old(self).wf(),
        ensures
            final(self).wf(),
            final(self).content == old(self).content,
            final(self).state == (match old(self).state {
                PostState::PendingReview { num_approvals } => (if num_approvals + 1 < 2 {
                    PostState::PendingReview { num_approvals: (num_approvals + 1) as u32 }
                } else {
                    PostState::Published
                }),
                s => s,
            }),
    {
        match self.state {
            PostState::PendingReview { num_approvals } => {
                if num_approvals + 1 < 2 {
                    self.state = PostState::PendingReview { num_approvals: num_approvals + 1 };
                } else {
                    self.state = PostState::Published;
                }
            },
            _ => (),
        }
    }

    /// Sends a post under review back to the draft stage, keeping its
    /// text; at any other stage the call changes nothing.
    pub fn reject(&mut self)
        requires
            old(self).wf(),
        ensures
            final(self).wf(),
            final(self).content == old(self).content,
            final(self).state == (match old(self).state {
                PostState::PendingReview { .. } => PostState::Draft,
                s => s,
            }),
    {
        match self.state {
            PostState::PendingReview { .. } => {
                self.state = PostState::Draft;
            },
            _ => (),
        }
    }
}

} // verus!
