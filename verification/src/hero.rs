//! The hero entity and its pre-insert payload.

use vstd::prelude::*;

verus! {

/// A persisted hero row. `id` is assigned by the store on insert and never
/// changes afterwards.
pub struct Hero {
    pub id: i32,
    pub name: String,
    pub identity: String,
    pub hometown: String,
    pub age: i32,
}

/// The creation payload: a hero without its `id`. It is also what an update
/// writes, overwriting all mutable fields of an existing row at once.
pub struct NewHero {
    pub name: String,
    pub identity: String,
    pub hometown: String,
    pub age: i32,
}

/// The mathematical value of a stored row.
pub struct HeroView {
    pub id: int,
    pub name: Seq<char>,
    pub identity: Seq<char>,
    pub hometown: Seq<char>,
    pub age: int,
}

/// The mathematical value of a creation payload.
pub struct NewHeroView {
    pub name: Seq<char>,
    pub identity: Seq<char>,
    pub hometown: Seq<char>,
    pub age: int,
}

impl View for Hero {
    type V = HeroView;

    open spec fn view(&self) -> HeroView {
        HeroView {
            id: self.id as int,
            name: self.name@,
            identity: self.identity@,
            hometown: self.hometown@,
            age: self.age as int,
        }
    }
}

impl View for NewHero {
    type V = NewHeroView;

    open spec fn view(&self) -> NewHeroView {
        NewHeroView {
            name: self.name@,
            identity: self.identity@,
            hometown: self.hometown@,
            age: self.age as int,
        }
    }
}

impl HeroView {
    /// The payload part of a row: what create and update write.
    pub open spec fn fields(self) -> NewHeroView {
        NewHeroView {
            name: self.name,
            identity: self.identity,
            hometown: self.hometown,
            age: self.age,
        }
    }
}

impl NewHeroView {
    /// The row this payload becomes once the store assigns it an id.
    pub open spec fn with_id(self, id: int) -> HeroView {
        HeroView {
            id: id,
            name: self.name,
            identity: self.identity,
            hometown: self.hometown,
            age: self.age,
        }
    }
}

impl Clone for Hero {
    fn clone(&self) -> (res: Self)
        ensures
            res == *self,
    {
        Hero {
            id: self.id,
            name: self.name.clone(),
            identity: self.identity.clone(),
            hometown: self.hometown.clone(),
            age: self.age,
        }
    }
}

impl Clone for NewHero {
    fn clone(&self) -> (res: Self)
        ensures
            res == *self,
    {
        NewHero {
            name: self.name.clone(),
            identity: self.identity.clone(),
            hometown: self.hometown.clone(),
            age: self.age,
        }
    }
}

} // verus!
