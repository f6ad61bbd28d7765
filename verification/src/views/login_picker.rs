//! The OAuth / API-key login provider picker.

use vstd::prelude::*;

verus! {

#[derive(Debug, Clone)]
pub struct LoginProviderOption {
    pub id: &'static str,
    pub label: &'static str,
    pub description: &'static str,
    pub logged_in: bool,
}

#[derive(Debug, Clone)]
pub struct LoginPickerState {
    pub providers: Vec<LoginProviderOption>,
    pub selected: usize,
}

impl LoginPickerState {
    pub fn new(providers: Vec<LoginProviderOption>) -> (s: Self)
        ensures
            s.providers@ == providers@,
            s.selected == 0,
    {
        LoginPickerState { providers, selected: 0 }
    }

    pub fn move_up(&mut self)
        ensures
            final(self).providers@ == old(self).providers@,
            final(self).selected == if old(self).selected > 0 {
                old(self).selected - 1
            } else {
                0
            },
    {
        if self.selected > 0 {
            self.selected = self.selected - 1;
        }
    }

    pub fn move_down(&mut self)
        ensures
            final(self).providers@ == old(self).providers@,
            final(self).selected == if old(self).selected + 1 < old(self).providers@.len() {
                old(self).selected + 1
            } else {
                old(self).selected as int
            },
    {
        if self.selected < self.providers.len() && self.selected + 1 < self.providers.len() {
            self.selected = self.selected + 1;
        }
    }

    pub fn selected_provider(&self) -> (r: Option<&LoginProviderOption>)
        ensures
            r matches Some(p) ==> self.selected < self.providers@.len() && *p
                == self.providers@[self.selected as int],
            r is None ==> self.selected >= self.providers@.len(),
    {
        if self.selected < self.providers.len() {
            Some(&self.providers[self.selected])
        } else {
            None
        }
    }
}

} // verus!
