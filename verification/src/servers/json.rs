//! JSON values.

use vstd::prelude::*;

verus! {

/// A JSON value as far as replies are read from it.
#[derive(Debug)]
pub enum Json {
    /// Nothing.
    Null,
    /// A truth value.
    Bool(bool),
    /// A number.
    Number,
    /// A string.
    Text(String),
    /// A list of values.
    List(Vec<Json>),
    /// An object, in the order in which its members stand.
    Entries(Vec<(String, Json)>),
}

/// A member of an object to write down.
#[derive(Debug)]
pub enum Member {
    /// A string.
    Text(String),
    /// A truth value.
    Flag(bool),
    /// An object of strings.
    Object(Vec<(String, String)>),
    /// A list of objects of strings.
    Objects(Vec<Vec<(String, String)>>),
}

/// A member of an object to write down.
pub enum MemberView {
    Text(Seq<char>),
    Flag(bool),
    Object(Seq<(Seq<char>, Seq<char>)>),
    Objects(Seq<Seq<(Seq<char>, Seq<char>)>>),
}

impl DeepView for Member {
    type V = MemberView;

    open spec fn deep_view(&self) -> MemberView {
        match self {
            Member::Text(t) => MemberView::Text(t@),
            Member::Flag(b) => MemberView::Flag(*b),
            Member::Object(o) => MemberView::Object(o.deep_view()),
            Member::Objects(l) => MemberView::Objects(l.deep_view()),
        }
    }
}

/// The first entry of a name, from a place on; nothing where there is none.
pub open spec fn entry_from(e: Seq<(String, Json)>, i: int, name: Seq<char>) -> Json
    decreases e.len() - i,
{
    if i < 0 || i >= e.len() {
        Json::Null
    } else if e[i].0@ == name {
        e[i].1
    } else {
        entry_from(e, i + 1, name)
    }
}

/// A member of a value; nothing where the value is no object or has none of that
/// name.
pub open spec fn member(j: Json, name: Seq<char>) -> Json {
    match j {
        Json::Entries(e) => entry_from(e@, 0, name),
        _ => Json::Null,
    }
}

/// Whether a value is an object with a member of a name.
pub open spec fn has_member(j: Json, name: Seq<char>) -> bool {
    match j {
        Json::Entries(e) => exists|i: int| 0 <= i < e@.len() && (#[trigger] e@[i]).0@ == name,
        _ => false,
    }
}

/// The text that a value is.
pub open spec fn text_of(j: Json) -> Option<Seq<char>> {
    match j {
        Json::Text(s) => Some(s@),
        _ => None,
    }
}

/// The text that a member of a value is.
pub open spec fn member_text(j: Json, name: Seq<char>) -> Option<Seq<char>> {
    text_of(member(j, name))
}

impl Json {
    /// A member of the value; none where the value is no object or has none of
    /// that name.
    pub fn get(&self, name: &str) -> (r: Option<&Json>)
        ensures
            match r {
                Some(j) => has_member(*self, name@) && *j == member(*self, name@),
                None => !has_member(*self, name@) && member(*self, name@) is Null,
            },
    {
        match self {
            Json::Entries(e) => {
                let n: usize = e.len();
                let mut i: usize = 0;
                while i < n
                    invariant
                        i <= n,
                        n == e@.len(),
                        entry_from(e@, 0, name@) == entry_from(e@, i as int, name@),
                        *self == Json::Entries(*e),
                        forall|j: int| 0 <= j < i ==> (#[trigger] e@[j]).0@ != name@,
                    decreases n - i,
                {
                    if e[i].0.as_str().eq(name) {
                        return Some(&e[i].1);
                    }
                    i = i + 1;
                }
                None
            },
            _ => None,
        }
    }

    /// The text that the value is.
    pub fn as_text(&self) -> (r: Option<String>)
        ensures
            r.deep_view() == text_of(*self),
    {
        match self {
            Json::Text(s) => Some(s.clone()),
            _ => None,
        }
    }

    /// The text that a member of the value is.
    pub fn text_at(&self, name: &str) -> (r: Option<String>)
        ensures
            r.deep_view() == member_text(*self, name@),
    {
        match self.get(name) {
            Some(j) => j.as_text(),
            None => None,
        }
    }
}

} // verus!
