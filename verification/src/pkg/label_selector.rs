//! The selector composed of requirements.

use crate::pkg::labels::{
    all_match, lemma_all_match_concat, lemma_pin_decides, sole_pin, Labels, Requirement,
    RequirementView, Selector,
};
use std::marker::PhantomData;
use vstd::prelude::*;

verus! {

/// A selector composed of requirements: it lets through the sets of labels
/// that meet every one of them. With no requirement it lets through all.
#[derive(Debug)]
pub struct LabelSelector<L: Labels> {
    requirements: Vec<Requirement>,
    labels: PhantomData<L>,
}

impl<L: Labels> View for LabelSelector<L> {
    type V = Seq<RequirementView>;

    closed spec fn view(&self) -> Seq<RequirementView> {
        self.requirements.deep_view()
    }
}

/// A copy of a list of requirements.
fn copy_requirements(requirements: &Vec<Requirement>) -> (copy: Vec<Requirement>)
    ensures
        copy.deep_view() == requirements.deep_view(),
{
    let mut copy: Vec<Requirement> = Vec::new();
    let mut i: usize = 0;
    while i < requirements.len()
        invariant
            i <= requirements@.len(),
            copy@.len() == i,
            forall|j: int| 0 <= j < i ==> copy@[j]@ == requirements@[j]@,
        decreases requirements@.len() - i,
    {
        copy.push(requirements[i].clone());
        i += 1;
    }
    assert(copy.deep_view() =~= requirements.deep_view());
    copy
}

impl<L: Labels> LabelSelector<L> {
    /// The selector composed of the given requirements, in their order.
    pub fn new(requirements: Vec<Requirement>) -> (selector: Self)
        ensures
            selector@ == requirements.deep_view(),
    {
        LabelSelector { requirements, labels: PhantomData }
    }
}

impl<L: Labels> Selector for LabelSelector<L> {
    type Labels = L;

    open spec fn selects(&self, labels: Map<Seq<char>, Seq<char>>) -> bool {
        all_match(self@, labels)
    }

    open spec fn parts(&self) -> Option<Seq<RequirementView>> {
        Some(self@)
    }

    proof fn lemma_parts_decide(&self, labels: Map<Seq<char>, Seq<char>>) {
    }

    fn matches(&self, labels: L) -> (matched: bool) {
        let mut i: usize = 0;
        while i < self.requirements.len()
            invariant
                i <= self.requirements@.len(),
                forall|j: int| 0 <= j < i ==> (#[trigger] self@[j]).matches(labels.mapping()),
            decreases self.requirements@.len() - i,
        {
            if !self.requirements[i].matches(&labels) {
                assert(!self@[i as int].matches(labels.mapping()));
                return false;
            }
            i += 1;
        }
        true
    }

    fn empty(&self) -> (unrestricted: bool) {
        self.requirements.len() == 0
    }

    fn add(&mut self, requirements: Vec<Requirement>) -> (combined: Self) {
        let mut requirements = requirements;
        let ghost added = requirements.deep_view();
        let mut all = copy_requirements(&self.requirements);
        all.append(&mut requirements);
        let combined = LabelSelector { requirements: all, labels: PhantomData };
        proof {
            assert(combined@ =~= self@ + added);
            assert forall|labels: Map<Seq<char>, Seq<char>>| #[trigger]
                combined.selects(labels) <==> self.selects(labels) && all_match(
                    added,
                    labels,
                ) by {
                lemma_all_match_concat(self@, added, labels);
            }
        }
        combined
    }

    fn requirements(&self) -> (listed: Option<Vec<Requirement>>) {
        Some(copy_requirements(&self.requirements))
    }

    fn deep_copy_selector(&self) -> (copy: Self) {
        LabelSelector { requirements: copy_requirements(&self.requirements), labels: PhantomData }
    }

    fn requires_exact_match(&self, label: String) -> (value: Option<String>) {
        let mut found: Option<String> = None;
        let ghost mut place: int = 0;
        let mut i: usize = 0;
        while i < self.requirements.len()
            invariant
                i <= self.requirements@.len(),
                found matches Some(text) ==> 0 <= place < i && self@[place].pins(label@) && text@
                    == self@[place].values[0],
                forall|j: int|
                    0 <= j < i && (#[trigger] self@[j]).pins(label@) ==> found is Some && j
                        == place,
            decreases self.requirements@.len() - i,
        {
            let pinned = self.requirements[i].pinned_value(&label);
            if pinned.is_some() {
                if found.is_some() {
                    assert(self@[i as int].pins(label@));
                    return None;
                }
                found = pinned;
                proof {
                    place = i as int;
                }
            }
            i += 1;
        }
        proof {
            if found is Some {
                assert(sole_pin(self@, label@, place));
                lemma_pin_decides(self@, label@, place);
            }
        }
        found
    }
}

} // verus!
