//! What the guestbook's write endpoint decides once the request body is in
//! hand: denied by the rate limiter, rejected for an empty message, or
//! accepted with the author — "Anonymous" when none was given — and content
//! to store.
use crate::form::spec_lookup;
use crate::identity::trim_spec;
use vstd::prelude::*;
use vstd::utf8::encode_utf8;

verus! {

/// The outcome of a guestbook post.
pub enum PostAction {
    /// The client posted again inside its cooldown window.
    RateLimited,
    /// The message text was empty, or whitespace only.
    EmptyContent,
    /// Store this author and content.
    Accept { author: String, content: String },
}

/// Whether a message text is empty once ASCII whitespace is trimmed.
pub open spec fn spec_content_empty(content: Seq<char>) -> bool {
    trim_spec(encode_utf8(content)).len() == 0
}

/// The author a post records: the given one, or "Anonymous".
pub open spec fn spec_post_author(pairs: Seq<(Seq<char>, Seq<char>)>) -> Seq<char> {
    match spec_lookup(pairs, "author"@) {
        Some(a) => a,
        None => "Anonymous"@,
    }
}

/// The content a post records: the given one, or nothing.
pub open spec fn spec_post_content(pairs: Seq<(Seq<char>, Seq<char>)>) -> Seq<char> {
    match spec_lookup(pairs, "content"@) {
        Some(c) => c,
        None => ""@,
    }
}

/// Decides a guestbook post: a client the limiter denied is turned away
/// before the body is looked at; a missing author falls back to
/// "Anonymous"; a missing, empty or all-whitespace content is rejected;
/// anything else is accepted as given.
pub fn post_message_action(allowed: bool, pairs: &Vec<(String, String)>) -> (r: PostAction)
    ensures
        !allowed ==> r is RateLimited,
        allowed && spec_content_empty(spec_post_content(pairs.deep_view())) ==> r is EmptyContent,
        allowed && !spec_content_empty(spec_post_content(pairs.deep_view())) ==> (r matches
            PostAction::Accept { author, content } && author@ == spec_post_author(
            pairs.deep_view(),
        ) && content@ == spec_post_content(pairs.deep_view())),
{
    if !allowed {
        return PostAction::RateLimited;
    }
    let author: String = match crate::form::get_param(pairs, "author") {
        Some(a) => a.clone(),
        None => {
            let mut s = String::new();
            s.append("Anonymous");
            proof {
                assert(s@ =~= "Anonymous"@);
            }
            s
        },
    };
    let content: String = match crate::form::get_param(pairs, "content") {
        Some(c) => c.clone(),
        None => {
            proof {
                reveal_strlit("");
                assert(""@ =~= Seq::<char>::empty());
            }
            String::new()
        },
    };
    let trimmed = crate::identity::trim_bytes(content.as_str().as_bytes());
    if trimmed.len() == 0 {
        proof {
            assert(spec_post_content(pairs.deep_view()) == content@);
        }
        return PostAction::EmptyContent;
    }
    proof {
        assert(spec_post_content(pairs.deep_view()) == content@);
    }
    PostAction::Accept { author, content }
}

} // verus!
