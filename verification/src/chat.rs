use vstd::prelude::*;

verus! {

/// One turn of a conversation.
#[derive(Debug, Clone)]
pub struct Message {
    role: String,
    content: String,
}

impl Message {
    /// Who spoke.
    pub closed spec fn spec_role(&self) -> Seq<char> {
        self.role@
    }

    /// What was said.
    pub closed spec fn spec_content(&self) -> Seq<char> {
        self.content@
    }

    /// The turn in which `role` said `content`.
    pub fn new(role: &str, content: &str) -> (m: Message)
        ensures
            m.spec_role() == role@,
            m.spec_content() == content@,
    {
        Message { role: role.to_owned(), content: content.to_owned() }
    }

    /// Who spoke.
    pub fn role(&self) -> (r: &str)
        ensures
            r@ == self.spec_role(),
    {
        self.role.as_str()
    }

    /// What was said.
    pub fn content(&self) -> (r: &str)
        ensures
            r@ == self.spec_content(),
    {
        self.content.as_str()
    }
}

/// The text that a search is made for: what was said last in `history`,
/// the empty text where nothing was said yet.
pub open spec fn query_of(history: Seq<Message>) -> Seq<char> {
    if history.len() == 0 {
        Seq::empty()
    } else {
        history.last().spec_content()
    }
}

/// The text that a search is made for.
pub fn user_prompt(history: &Vec<Message>) -> (r: String)
    ensures
        r@ == query_of(history@),
{
    if history.len() == 0 {
        String::new()
    } else {
        history[history.len() - 1].content.clone()
    }
}

} // verus!
