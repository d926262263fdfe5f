use vstd::prelude::*;

verus! {

/// A posted message. An empty recipient list means the message is a
/// broadcast, visible to every reader.
#[derive(Debug, Clone)]
pub struct Message {
    pub author: String,
    pub content: String,
    pub recipients: Vec<String>,
}

/// The mathematical value of a [`Message`].
pub struct MessageView {
    pub author: Seq<char>,
    pub content: Seq<char>,
    pub recipients: Seq<Seq<char>>,
}

impl View for Message {
    type V = MessageView;

    open spec fn view(&self) -> MessageView {
        MessageView {
            author: self.author@,
            content: self.content@,
            recipients: self.recipients@.map_values(|r: String| r@),
        }
    }
}

/// Whether a message is shown to `user`: broadcasts are shown to everyone,
/// targeted messages only to the users they list.
pub open spec fn visible_to(m: MessageView, user: Option<Seq<char>>) -> bool {
    match user {
        None => true,
        Some(u) => m.recipients.len() == 0 || m.recipients.contains(u),
    }
}

/// The view of an optional user name.
pub open spec fn opt_view(user: Option<&str>) -> Option<Seq<char>> {
    match user {
        Some(u) => Some(u@),
        None => None,
    }
}

impl Message {
    pub fn new(author: String, content: String, recipients: Vec<String>) -> (r: Message)
        ensures
            r.author == author,
            r.content == content,
            r.recipients == recipients,
    {
        Message { author, content, recipients }
    }

    /// A copy of the message with the same value.
    pub fn duplicate(&self) -> (r: Message)
        ensures
            r@ == self@,
    {
        let mut recipients: Vec<String> = Vec::new();
        let mut i: usize = 0;
        while i < self.recipients.len()
            invariant
                i <= self.recipients.len(),
                recipients@.len() == i,
                forall|j: int| 0 <= j < i ==> recipients@[j]@ == self.recipients@[j]@,
            decreases self.recipients.len() - i,
        {
            recipients.push(self.recipients[i].clone());
            i = i + 1;
        }
        assert(recipients@.map_values(|r: String| r@) =~= self.recipients@.map_values(
            |r: String| r@,
        ));
        Message { author: self.author.clone(), content: self.content.clone(), recipients }
    }

    /// Whether the message is shown to `user` (everyone, when `user` is `None`).
    pub fn is_visible_to(&self, user: Option<&str>) -> (r: bool)
        ensures
            r == visible_to(self@, opt_view(user)),
    {
        if user.is_none() {
            return true;
        }
        let u = user.unwrap();
        if self.recipients.len() == 0 {
            return true;
        }
        let mut i: usize = 0;
        while i < self.recipients.len()
            invariant
                i <= self.recipients.len(),
                opt_view(user) == Some(u@),
                forall|j: int| 0 <= j < i ==> self.recipients@[j]@ != u@,
            decreases self.recipients.len() - i,
        {
            if str_eq(self.recipients[i].as_str(), u) {
                assert(self@.recipients[i as int] == u@);
                return true;
            }
            i = i + 1;
        }
        proof {
            if self@.recipients.contains(u@) {
                let k = choose|k: int| 0 <= k < self@.recipients.len() && self@.recipients[k] == u@;
                assert(self.recipients@[k]@ == u@);
            }
        }
        false
    }
}

/// Character-wise equality of two strings.
pub fn str_eq(a: &str, b: &str) -> (r: bool)
    ensures
        r == (a@ == b@),
{
    let x = a.to_string();
    let y = b.to_string();
    x == y
}

/// The ways an operation of the service can fail.
#[derive(Debug, Clone, Copy, PartialEq, Eq, Structural)]
pub enum AppError {
    /// The author of a message is not registered.
    NonExistentMessageAuthor,
    /// One of the recipients of a message is not registered.
    NonExistentRecipient,
    /// The user name is already registered.
    Conflict,
    /// The user is unknown or the password does not match.
    Unauthorized,
    /// The password hash could not be computed.
    HashFailure,
    /// The system clock could not be read.
    ClockFailure,
}

} // verus!
