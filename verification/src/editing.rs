use vstd::prelude::*;

verus! {

/// Why there is no single entity to edit.
#[derive(Debug, Clone, Copy, PartialEq, Eq, Structural)]
pub enum QuerySingleError {
    /// No edited entity matches.
    NoEntities,
    /// More than one entity is being edited.
    MultipleEntities,
}

/// What an edit system sees of the entities being edited: the items of those that match what it
/// asks for, and how many entities are being edited in all (the matching ones and the others).
pub struct YoleckEdit<T> {
    matching: Vec<T>,
    edited_count: usize,
}

impl<T> YoleckEdit<T> {
    pub closed spec fn spec_matching(&self) -> Seq<T> {
        self.matching@
    }

    pub closed spec fn spec_edited_count(&self) -> nat {
        self.edited_count as nat
    }

    /// The matching entities are among the edited ones.
    pub open spec fn wf(&self) -> bool {
        self.spec_matching().len() <= self.spec_edited_count()
    }

    /// The view of an edit system over `matching`, out of `edited_count` entities being edited.
    pub fn new(matching: Vec<T>, edited_count: usize) -> (r: Self)
        requires
            matching@.len() <= edited_count,
        ensures
            r.wf(),
            r.spec_matching() == matching@,
            r.spec_edited_count() == edited_count,
    {
        YoleckEdit { matching, edited_count }
    }

    /// The single entity being edited, when exactly one is and it matches. When one entity
    /// matches but others are edited along with it, there is no single one either.
    pub fn single(&self) -> (r: Result<&T, QuerySingleError>)
        requires
            self.wf(),
        ensures
            match r {
                Ok(item) => self.spec_matching().len() == 1 && self.spec_edited_count() == 1
                    && *item == self.spec_matching()[0],
                Err(QuerySingleError::NoEntities) => self.spec_matching().len() == 0,
                Err(QuerySingleError::MultipleEntities) => self.spec_matching().len() > 1 || (
                self.spec_matching().len() == 1 && self.spec_edited_count() > 1),
            },
    {
        if self.matching.len() == 0 {
            Err(QuerySingleError::NoEntities)
        } else if self.matching.len() > 1 || self.edited_count > 1 {
            Err(QuerySingleError::MultipleEntities)
        } else {
            Ok(&self.matching[0])
        }
    }

    /// The single entity being edited, to change it: as [`single`](Self::single), and what is
    /// written through the reference becomes the entity's item.
    pub fn single_mut(&mut self) -> (r: Result<&mut T, QuerySingleError>)
        requires
            old(self).wf(),
        ensures
            match r {
                Ok(item) => {
                    &&& old(self).spec_matching().len() == 1
                    &&& old(self).spec_edited_count() == 1
                    &&& *item == old(self).spec_matching()[0]
                    &&& final(self).spec_matching() == seq![*final(item)]
                    &&& final(self).spec_edited_count() == 1
                },
                Err(e) => {
                    &&& *final(self) == *old(self)
                    &&& e == QuerySingleError::NoEntities ==> old(self).spec_matching().len() == 0
                    &&& e == QuerySingleError::MultipleEntities ==> (old(self).spec_matching().len()
                        > 1 || (old(self).spec_matching().len() == 1 && old(
                        self,
                    ).spec_edited_count() > 1))
                },
            },
    {
        if self.matching.len() == 0 {
            Err(QuerySingleError::NoEntities)
        } else if self.matching.len() > 1 || self.edited_count > 1 {
            Err(QuerySingleError::MultipleEntities)
        } else {
            let ghost m0 = self.matching@;
            let item = &mut self.matching[0];
            proof {
                assert(m0.len() == 1);
            }
            Ok(item)
        }
    }

    /// Whether no edited entity matches.
    pub fn is_empty(&self) -> (r: bool)
        ensures
            r == (self.spec_matching().len() == 0),
    {
        self.matching.len() == 0
    }

    /// Whether some entities that do not match are being edited. Together with
    /// [`is_empty`](Self::is_empty), for systems that can edit several entities but show nothing
    /// when irrelevant entities are edited as well.
    pub fn has_nonmatching(&self) -> (r: bool)
        ensures
            r == (self.spec_matching().len() != self.spec_edited_count()),
    {
        self.matching.len() != self.edited_count
    }

    /// The matching entities, even when some edited entities do not match.
    pub fn iter_matching(&self) -> (r: &Vec<T>)
        ensures
            r@ == self.spec_matching(),
    {
        &self.matching
    }
}

} // verus!
