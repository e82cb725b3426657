//! What the picker shows for each candidate application.
use vstd::prelude::*;

verus! {

/// One application offered by the picker: its name, its extra label and the
/// program whose icon stands for it.
#[derive(Debug)]
pub struct Candidate {
    pub name: String,
    pub label: Option<String>,
    pub program: String,
}

pub struct CandidateView {
    pub name: Seq<char>,
    pub label: Option<Seq<char>>,
    pub program: Seq<char>,
}

impl View for Candidate {
    type V = CandidateView;

    open spec fn view(&self) -> CandidateView {
        CandidateView { name: self.name@, label: crate::config::opt_view(self.label), program: self.program@ }
    }
}

/// What the picker hands back when the `index`-th icon is chosen: that
/// candidate's name, or an empty name for an index outside the list.
pub fn chosen_name(candidates: &Vec<Candidate>, index: i32) -> (r: String)
    ensures
        r@ == if 0 <= index < candidates@.len() {
            candidates@[index as int].name@
        } else {
            Seq::<char>::empty()
        },
{
    if index >= 0 && (index as usize) < candidates.len() {
        crate::text::owned(candidates[index as usize].name.as_str())
    } else {
        String::new()
    }
}

} // verus!
