use vstd::prelude::*;

verus! {

/// What a submitter leaves: each field is optional and is left out of any
/// external representation when absent.
#[derive(Clone, Debug, PartialEq, Eq, Default)]
pub struct UserInfo {
    /// Name the submitter goes by.
    pub name: Option<String>,
    /// Company or project the submitter is affiliated with.
    pub affiliation: Option<String>,
    /// Message of support.
    pub message: Option<String>,
}

fn copy_text(t: &Option<String>) -> (r: Option<String>)
    ensures
        r == *t,
{
    match t {
        Some(s) => Some(s.clone()),
        None => None,
    }
}

impl UserInfo {
    /// A record from its three optional fields.
    pub fn new(name: Option<String>, affiliation: Option<String>, message: Option<String>) -> (r: Self)
        ensures
            r.name == name,
            r.affiliation == affiliation,
            r.message == message,
    {
        UserInfo { name, affiliation, message }
    }

    /// An equal copy of this record.
    pub fn copied(&self) -> (r: Self)
        ensures
            r == *self,
    {
        UserInfo {
            name: copy_text(&self.name),
            affiliation: copy_text(&self.affiliation),
            message: copy_text(&self.message),
        }
    }
}

} // verus!
