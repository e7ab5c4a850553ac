//! The model in use.

use vstd::prelude::*;

use crate::strings;

verus! {

/// A list of models, one of which is in use.
#[derive(Debug)]
pub struct ModelState {
    models: Vec<String>,
    current: usize,
}

/// What a [`ModelState`] holds.
pub struct ModelStateView {
    pub models: Seq<Seq<char>>,
    pub current: int,
}

impl View for ModelState {
    type V = ModelStateView;

    closed spec fn view(&self) -> ModelStateView {
        ModelStateView { models: strings::views(self.models@), current: self.current as int }
    }
}

impl ModelStateView {
    /// The model in use is in the list, unless the list is empty.
    pub open spec fn wf(self) -> bool {
        0 <= self.current && (self.models.len() > 0 ==> self.current < self.models.len())
    }

    /// The name of the model in use; empty for an empty list.
    pub open spec fn name(self) -> Seq<char> {
        if self.current < self.models.len() {
            self.models[self.current]
        } else {
            Seq::empty()
        }
    }
}

/// There is no model with this index: the index and the number of models.
#[derive(Debug, Clone, Copy, PartialEq, Eq, Structural)]
pub struct BadModelIndex(pub usize, pub usize);

impl BadModelIndex {
    /// The message about the error.
    pub open spec fn message(self) -> Seq<char> {
        "индекс модели "@ + strings::decimal(self.0 as nat) + " вне списка из "@
            + strings::decimal(self.1 as nat) + " моделей"@
    }

    /// See [`BadModelIndex::message`].
    pub fn to_string(&self) -> (r: String)
        ensures
            r@ == self.message(),
    {
        let mut out = "индекс модели ".to_owned();
        out.append(strings::decimal_u64(self.0 as u64).as_str());
        out.append(" вне списка из ");
        out.append(strings::decimal_u64(self.1 as u64).as_str());
        out.append(" моделей");
        out
    }
}

impl ModelState {
    /// The first of the models is in use.
    pub fn new(models: Vec<String>) -> (r: ModelState)
        ensures
            r@ == (ModelStateView { models: strings::views(models@), current: 0 }),
            r@.wf(),
    {
        ModelState { models: models, current: 0 }
    }

    /// All models.
    pub fn list(&self) -> (r: &[String])
        ensures
            strings::views(r@) == self@.models,
    {
        self.models.as_slice()
    }

    /// The index of the model in use.
    pub fn active_index(&self) -> (r: usize)
        ensures
            r == self@.current,
    {
        self.current
    }

    /// The name of the model in use.
    pub fn current(&self) -> (r: String)
        ensures
            r@ == self@.name(),
    {
        if self.current < self.models.len() {
            self.models[self.current].clone()
        } else {
            let r = String::new();
            assert(r@ =~= Seq::<char>::empty());
            r
        }
    }

    /// Takes another model into use. Gives its name.
    pub fn set_index(&mut self, index: usize) -> (r: Result<String, BadModelIndex>)
        ensures
            final(self)@.models == old(self)@.models,
            match r {
                Ok(name) => index < old(self)@.models.len() && final(self)@.current == index
                    && name@ == final(self)@.name() && final(self)@.wf(),
                Err(e) => index >= old(self)@.models.len() && final(self)@ == old(self)@ && e
                    == BadModelIndex(index, old(self)@.models.len() as usize),
            },
    {
        if index >= self.models.len() {
            return Err(BadModelIndex(index, self.models.len()));
        }
        self.current = index;
        Ok(self.models[index].clone())
    }
}

} // verus!
