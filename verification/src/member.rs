//! Library members. Timestamps are plain values: seconds relative to an
//! epoch, assigned by the caller at creation and immutable afterwards.

use vstd::prelude::*;

verus! {

/// The mathematical image of a `Member`.
pub struct MemberV {
    pub id: int,
    pub name: Seq<char>,
    pub email: Seq<char>,
    pub joined_at: int,
}

/// One member row.
#[derive(Debug)]
pub struct Member {
    pub id: i32,
    pub name: String,
    pub email: String,
    pub joined_at: i64,
}

impl View for Member {
    type V = MemberV;

    open spec fn view(&self) -> MemberV {
        MemberV {
            id: self.id as int,
            name: self.name@,
            email: self.email@,
            joined_at: self.joined_at as int,
        }
    }
}

impl Clone for Member {
    fn clone(&self) -> (r: Self)
        ensures
            r == *self,
    {
        Member {
            id: self.id,
            name: self.name.clone(),
            email: self.email.clone(),
            joined_at: self.joined_at,
        }
    }
}

/// A member-insert request; identity and join time are assigned by the store.
#[derive(Debug)]
pub struct NewMember {
    pub name: String,
    pub email: String,
}

impl Clone for NewMember {
    fn clone(&self) -> (r: Self)
        ensures
            r == *self,
    {
        NewMember {
            name: self.name.clone(),
            email: self.email.clone(),
        }
    }
}

} // verus!
