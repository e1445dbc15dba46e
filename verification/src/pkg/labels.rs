//! Requirements on labels, and the selectors composed of them.

use crate::pkg::selection::Operator;
use crate::pkg::text::{
    increasing, integer_of, lemma_increasing_unique, lemma_insert_in_order, parse_integer,
    precedes, text_precedes,
};
use vstd::prelude::*;

verus! {

/// The mathematical value of a [`Requirement`]: a key, an operator and the
/// values in the order in which they were given.
pub struct RequirementView {
    pub key: Seq<char>,
    pub operator: Operator,
    pub values: Seq<Seq<char>>,
}

/// How many values an operator takes: the membership operators at least one,
/// the equality and ordering operators exactly one, the existence operators
/// none.
pub open spec fn valid_cardinality(operator: Operator, count: nat) -> bool {
    match operator {
        Operator::In | Operator::NotIn => count >= 1,
        Operator::Equals | Operator::DoubleEquals | Operator::NotEquals => count == 1,
        Operator::Exists | Operator::DoesNotExist => count == 0,
        Operator::GreaterThan | Operator::LessThan => count == 1,
    }
}

impl RequirementView {
    /// The cardinality rule of the operator holds of the values.
    pub open spec fn well_formed(self) -> bool {
        valid_cardinality(self.operator, self.values.len())
    }

    /// Whether the requirement ties the given label to one value: it is on
    /// that label, asks for equality or membership, and has one value, however
    /// many times that value was given.
    pub open spec fn pins(self, label: Seq<char>) -> bool {
        &&& self.key == label
        &&& (self.operator == Operator::Equals || self.operator == Operator::DoubleEquals
            || self.operator == Operator::In)
        &&& self.values.len() > 0
        &&& forall|i: int| 0 <= i < self.values.len() ==> #[trigger] self.values[i] == self.values[0]
    }

    /// The values as a set: neither their order nor how often one was given
    /// counts.
    pub open spec fn value_set(self) -> Set<Seq<char>> {
        self.values.to_set()
    }

    /// Whether a set of labels meets the requirement.
    ///
    /// The existence operators ask whether the key is there. The equality and
    /// membership operators hold the key's value against the values; an absent
    /// key meets the negative ones. The ordering operators read both sides as
    /// integers and fail where either is none.
    pub open spec fn matches(self, labels: Map<Seq<char>, Seq<char>>) -> bool
        recommends
            self.well_formed(),
    {
        let found = lookup(labels, self.key);
        match self.operator {
            Operator::Exists => labels.contains_key(self.key),
            Operator::DoesNotExist => !labels.contains_key(self.key),
            Operator::Equals | Operator::DoubleEquals => found == Some(self.values[0]),
            Operator::NotEquals => found != Some(self.values[0]),
            Operator::In => found matches Some(value) && self.values.contains(value),
            Operator::NotIn => found matches Some(value) ==> !self.values.contains(value),
            Operator::GreaterThan => {
                &&& found matches Some(value)
                &&& integer_of(value) matches Some(a)
                &&& integer_of(self.values[0]) matches Some(b)
                &&& a > b
            },
            Operator::LessThan => {
                &&& found matches Some(value)
                &&& integer_of(value) matches Some(a)
                &&& integer_of(self.values[0]) matches Some(b)
                &&& a < b
            },
        }
    }
}

/// The value that a set of labels has under a key, if it has the key.
pub open spec fn lookup(labels: Map<Seq<char>, Seq<char>>, key: Seq<char>) -> Option<Seq<char>> {
    if labels.contains_key(key) {
        Some(labels[key])
    } else {
        None
    }
}

/// The characters of an optional text.
pub open spec fn text_of(text: Option<String>) -> Option<Seq<char>> {
    match text {
        Some(text) => Some(text@),
        None => None,
    }
}

/// Whether a set of labels meets every requirement of a list.
pub open spec fn all_match(
    requirements: Seq<RequirementView>,
    labels: Map<Seq<char>, Seq<char>>,
) -> bool {
    forall|i: int| 0 <= i < requirements.len() ==> (#[trigger] requirements[i]).matches(labels)
}

/// Whether the requirement at a place of a list is the only one of the list
/// that ties the label to one value.
pub open spec fn sole_pin(parts: Seq<RequirementView>, label: Seq<char>, place: int) -> bool {
    &&& 0 <= place < parts.len()
    &&& parts[place].pins(label)
    &&& forall|j: int| 0 <= j < parts.len() && (#[trigger] parts[j]).pins(label) ==> j == place
}

/// The value that a list of requirements ties a label to: that of the one
/// requirement on the label that asks for one value by equality or
/// membership. Where no requirement does so, or more than one, there is none.
pub open spec fn exact_match(parts: Seq<RequirementView>, label: Seq<char>) -> Option<Seq<char>> {
    if exists|place: int| sole_pin(parts, label, place) {
        Some(parts[choose|place: int| sole_pin(parts, label, place)].values[0])
    } else {
        None
    }
}

/// Labels is what requirements are tested against: a mapping from label keys
/// to label values.
pub trait Labels {
    /// The labels as a mathematical map from keys to values.
    spec fn mapping(&self) -> Map<Seq<char>, Seq<char>>;

    /// Has returns whether the provided label exists.
    fn has(&self, label: String) -> (present: bool)
        ensures
            present == self.mapping().contains_key(label@),
    ;

    /// Get returns the value for the provided label.
    fn get(&self, label: String) -> (value: Option<String>)
        ensures
            text_of(value) == lookup(self.mapping(), label@),
    ;
}

/// Selector represents a label selector: a predicate on sets of labels.
pub trait Selector: Sized {
    type Labels: Labels;

    /// The sets of labels that the selector lets through.
    spec fn selects(&self, labels: Map<Seq<char>, Seq<char>>) -> bool;

    /// The requirements that the selector is composed of, in order, or none
    /// for a selector that cannot be taken apart into requirements.
    spec fn parts(&self) -> Option<Seq<RequirementView>>;

    /// A selector composed of requirements lets through the sets of labels
    /// that meet every one of them, and no others.
    proof fn lemma_parts_decide(&self, labels: Map<Seq<char>, Seq<char>>)
        ensures
            self.parts() matches Some(parts) ==> (self.selects(labels) <==> all_match(
                parts,
                labels,
            )),
    ;

    /// Matches returns true if this selector matches the given set of labels.
    fn matches(&self, labels: Self::Labels) -> (matched: bool)
        ensures
            matched == self.selects(labels.mapping()),
    ;

    /// Empty returns true if this selector does not restrict the selection
    /// space. A selector composed of requirements is empty exactly when it
    /// has none.
    fn empty(&self) -> (unrestricted: bool)
        ensures
            unrestricted ==> forall|labels: Map<Seq<char>, Seq<char>>| self.selects(labels),
            self.parts() matches Some(parts) ==> (unrestricted <==> parts.len() == 0),
    ;

    /// Add returns a selector that asks for the given requirements on top of
    /// what this one asks for. This selector stays as it is, and nothing is
    /// merged: a requirement given twice stands twice.
    fn add(&mut self, requirements: Vec<Requirement>) -> (combined: Self)
        ensures
            *final(self) == *old(self),
            forall|labels: Map<Seq<char>, Seq<char>>| #[trigger]
                combined.selects(labels) <==> old(self).selects(labels) && all_match(
                    requirements.deep_view(),
                    labels,
                ),
            old(self).parts() matches Some(parts) ==> combined.parts() == Some(
                parts + requirements.deep_view(),
            ),
    ;

    /// Requirements lists the requirements that the selector is composed of,
    /// or returns none where it cannot be taken apart: no constraints and not
    /// introspectable are different answers.
    fn requirements(&self) -> (listed: Option<Vec<Requirement>>)
        ensures
            listed is Some <==> self.parts() is Some,
            listed matches Some(list) ==> self.parts() == Some(list.deep_view()),
    ;

    /// Makes a deep copy of the selector.
    fn deep_copy_selector(&self) -> (copy: Self)
        ensures
            copy.parts() == self.parts(),
            forall|labels: Map<Seq<char>, Seq<char>>|
                copy.selects(labels) == #[trigger] self.selects(labels),
    ;

    /// RequiresExactMatch tells whether the selector ties the given label to
    /// one value, and returns that value. Whatever the selector is made of, a
    /// value is returned only if every set of labels that it lets through has
    /// that value under the label.
    fn requires_exact_match(&self, label: String) -> (value: Option<String>)
        ensures
            self.parts() matches Some(parts) ==> text_of(value) == exact_match(parts, label@),
            value matches Some(text) ==> forall|labels: Map<Seq<char>, Seq<char>>|
                self.selects(labels) ==> lookup(labels, label@) == Some(text@),
    ;
}

/// Whether a text is among the given ones.
fn holds_text(texts: &Vec<String>, wanted: &String) -> (found: bool)
    ensures
        found == texts.deep_view().contains(wanted@),
{
    let mut i: usize = 0;
    while i < texts.len()
        invariant
            i <= texts@.len(),
            forall|j: int| 0 <= j < i ==> texts.deep_view()[j] != wanted@,
        decreases texts@.len() - i,
    {
        if texts[i] == *wanted {
            assert(texts.deep_view()[i as int] == wanted@);
            return true;
        }
        i += 1;
    }
    false
}

/// The error of building a requirement whose values do not fit its operator.
#[derive(Debug, PartialEq, Eq, Structural)]
pub struct InvalidRequirement;

/// Requirement contains values, a key, and an operator that relates the key
/// and values. It can only be made by [`Requirement::new`], so every
/// requirement obeys the cardinality rule of its operator.
#[derive(Debug)]
pub struct Requirement {
    key: String,
    operator: Operator,
    values: Vec<String>,
}

impl View for Requirement {
    type V = RequirementView;

    closed spec fn view(&self) -> RequirementView {
        RequirementView {
            key: self.key@,
            operator: self.operator,
            values: self.values.deep_view(),
        }
    }
}

impl DeepView for Requirement {
    type V = RequirementView;

    open spec fn deep_view(&self) -> RequirementView {
        self@
    }
}

impl Clone for Requirement {
    fn clone(&self) -> (copy: Self)
        ensures
            copy@ == self@,
    {
        proof {
            use_type_invariant(self);
        }
        let values = self.values.clone();
        assert(values.deep_view() =~= self.values.deep_view());
        Requirement { key: self.key.clone(), operator: self.operator, values }
    }
}

impl Requirement {
    #[verifier::type_invariant]
    spec fn cardinality_holds(&self) -> bool {
        valid_cardinality(self.operator, self.values@.len())
    }

    /// Builds a requirement, or refuses it where the number of values does
    /// not fit the operator. Nothing is checked of the key, and the empty
    /// text is a value like any other.
    pub fn new(key: String, operator: Operator, values: Vec<String>) -> (made: Result<
        Self,
        InvalidRequirement,
    >)
        ensures
            made is Ok <==> valid_cardinality(operator, values@.len()),
            made matches Ok(requirement) ==> requirement@ == (RequirementView {
                key: key@,
                operator,
                values: values.deep_view(),
            }) && requirement@.well_formed(),
    {
        let count: usize = values.len();
        let fits = match operator {
            Operator::In | Operator::NotIn => count >= 1,
            Operator::Equals | Operator::DoubleEquals | Operator::NotEquals => count == 1,
            Operator::Exists | Operator::DoesNotExist => count == 0,
            Operator::GreaterThan | Operator::LessThan => count == 1,
        };
        if fits {
            Ok(Requirement { key, operator, values })
        } else {
            Err(InvalidRequirement)
        }
    }

    /// Tests a set of labels against the requirement. A value that is no
    /// integer, on either side of an ordering operator, fails the match and
    /// is no error.
    pub fn matches<L: Labels>(&self, labels: &L) -> (matched: bool)
        ensures
            matched == self@.matches(labels.mapping()),
    {
        proof {
            use_type_invariant(self);
        }
        match self.operator {
            Operator::Exists => labels.has(self.key.clone()),
            Operator::DoesNotExist => !labels.has(self.key.clone()),
            Operator::Equals | Operator::DoubleEquals => match labels.get(self.key.clone()) {
                Some(value) => value == self.values[0],
                None => false,
            },
            Operator::NotEquals => match labels.get(self.key.clone()) {
                Some(value) => !(value == self.values[0]),
                None => true,
            },
            Operator::In => match labels.get(self.key.clone()) {
                Some(value) => holds_text(&self.values, &value),
                None => false,
            },
            Operator::NotIn => match labels.get(self.key.clone()) {
                Some(value) => !holds_text(&self.values, &value),
                None => true,
            },
            Operator::GreaterThan => match labels.get(self.key.clone()) {
                Some(value) => match (
                    parse_integer(value.as_str()),
                    parse_integer(self.values[0].as_str()),
                ) {
                    (Some(a), Some(b)) => a > b,
                    _ => false,
                },
                None => false,
            },
            Operator::LessThan => match labels.get(self.key.clone()) {
                Some(value) => match (
                    parse_integer(value.as_str()),
                    parse_integer(self.values[0].as_str()),
                ) {
                    (Some(a), Some(b)) => a < b,
                    _ => false,
                },
                None => false,
            },
        }
    }

    /// The values as a set, each once and in the order of texts, whatever
    /// order they were given in and however often.
    pub fn values(&self) -> (set: Vec<String>)
        ensures
            increasing(set.deep_view()),
            set.deep_view().to_set() == self@.value_set(),
    {
        let mut set: Vec<String> = Vec::new();
        let mut i: usize = 0;
        assert(set.deep_view().to_set() =~= self@.values.take(0).to_set());
        while i < self.values.len()
            invariant
                i <= self.values@.len(),
                increasing(set.deep_view()),
                set.deep_view().to_set() == self@.values.take(i as int).to_set(),
            decreases self.values@.len() - i,
        {
            let value = &self.values[i];
            let ghost before = set.deep_view();
            let mut place: usize = 0;
            while place < set.len() && text_precedes(set[place].as_str(), value.as_str())
                invariant
                    place <= set@.len(),
                    before == set.deep_view(),
                    forall|j: int| 0 <= j < place ==> precedes(#[trigger] before[j], value@),
                decreases set@.len() - place,
            {
                place += 1;
            }
            proof {
                assert(self@.values.take(i + 1) =~= self@.values.take(i as int).push(value@));
                self@.values.take(i as int).lemma_push_to_set_commute(value@);
            }
            if place < set.len() && set[place] == *value {
                assert(before[place as int] == value@);
                assert(before.contains(value@));
                assert(before.to_set().insert(value@) =~= before.to_set());
            } else {
                set.insert(place, value.clone());
                proof {
                    assert(set.deep_view() =~= before.insert(place as int, value@));
                    lemma_insert_in_order(before, place as int, value@);
                }
            }
            i += 1;
        }
        assert(self@.values.take(i as int) =~= self@.values);
        set
    }

    /// The value that the requirement ties the given label to, if it ties it
    /// to one.
    pub fn pinned_value(&self, label: &String) -> (value: Option<String>)
        ensures
            value is Some <==> self@.pins(label@),
            value matches Some(text) ==> text@ == self@.values[0],
    {
        if !(self.key == *label) {
            return None;
        }
        match self.operator {
            Operator::Equals | Operator::DoubleEquals | Operator::In => {},
            _ => {
                return None;
            },
        }
        if self.values.len() == 0 {
            return None;
        }
        let mut i: usize = 1;
        while i < self.values.len()
            invariant
                1 <= i <= self.values@.len(),
                forall|j: int| 0 <= j < i ==> #[trigger] self@.values[j] == self@.values[0],
            decreases self.values@.len() - i,
        {
            if !(self.values[i] == self.values[0]) {
                assert(self@.values[i as int] != self@.values[0]);
                return None;
            }
            i += 1;
        }
        Some(self.values[0].clone())
    }

    /// The key that the requirement is about.
    pub fn key(&self) -> (key: &str)
        ensures
            key@ == self@.key,
    {
        self.key.as_str()
    }

    /// The operator that relates the key and the values.
    pub fn operator(&self) -> (operator: Operator)
        ensures
            operator == self@.operator,
            self@.well_formed(),
    {
        proof {
            use_type_invariant(self);
        }
        self.operator
    }
}

/// Matching goes by the set of values: two requirements with the same key,
/// the same operator and the same values, in whatever order and however
/// often each was given, are met by the same sets of labels.
pub proof fn lemma_matches_by_value_set(
    first: RequirementView,
    second: RequirementView,
    labels: Map<Seq<char>, Seq<char>>,
)
    requires
        first.well_formed(),
        second.well_formed(),
        first.key == second.key,
        first.operator == second.operator,
        first.value_set() == second.value_set(),
    ensures
        first.matches(labels) == second.matches(labels),
{
    if first.values.len() > 0 {
        assert(first.values.contains(first.values[0]));
        assert(second.value_set().contains(first.values[0]));
        assert(second.values.contains(first.values[0]));
    }
    let value = labels[first.key];
    assert(first.values.contains(value) == first.value_set().contains(value));
    assert(second.values.contains(value) == second.value_set().contains(value));
}

/// A set of labels without the key of a requirement meets it exactly when
/// its operator is one of the negative ones: absence, inequality, or
/// membership in no set.
pub proof fn lemma_absent_key(requirement: RequirementView, labels: Map<Seq<char>, Seq<char>>)
    requires
        !labels.contains_key(requirement.key),
    ensures
        requirement.matches(labels) <==> requirement.operator == Operator::DoesNotExist
            || requirement.operator == Operator::NotEquals || requirement.operator
            == Operator::NotIn,
{
}

/// An ordering requirement is met by no set of labels where either side, the
/// label's value or the requirement's, is no integer: that is a failed match,
/// not an error.
pub proof fn lemma_ordering_needs_integers(
    requirement: RequirementView,
    labels: Map<Seq<char>, Seq<char>>,
)
    requires
        requirement.operator == Operator::GreaterThan || requirement.operator
            == Operator::LessThan,
        lookup(labels, requirement.key) matches Some(value) ==> integer_of(value) is None
            || integer_of(requirement.values[0]) is None,
    ensures
        !requirement.matches(labels),
{
}

/// The values of two requirements with the same set of values are listed
/// alike: what [`Requirement::values`] returns goes by the set alone.
pub proof fn lemma_values_by_value_set(
    first: RequirementView,
    second: RequirementView,
    listed_first: Seq<Seq<char>>,
    listed_second: Seq<Seq<char>>,
)
    requires
        first.value_set() == second.value_set(),
        increasing(listed_first),
        listed_first.to_set() == first.value_set(),
        increasing(listed_second),
        listed_second.to_set() == second.value_set(),
    ensures
        listed_first == listed_second,
{
    lemma_increasing_unique(listed_first, listed_second);
}

/// A set of labels meets every requirement of two lists put together exactly
/// when it meets every requirement of each.
pub proof fn lemma_all_match_concat(
    first: Seq<RequirementView>,
    second: Seq<RequirementView>,
    labels: Map<Seq<char>, Seq<char>>,
)
    ensures
        all_match(first + second, labels) <==> all_match(first, labels) && all_match(
            second,
            labels,
        ),
{
    if all_match(first + second, labels) {
        assert forall|i: int| 0 <= i < first.len() implies (#[trigger] first[i]).matches(
            labels,
        ) by {
            assert((first + second)[i] == first[i]);
        }
        assert forall|i: int| 0 <= i < second.len() implies (#[trigger] second[i]).matches(
            labels,
        ) by {
            assert((first + second)[first.len() + i] == second[i]);
        }
    }
}

/// A set of labels that meets a list of requirements has, under a label that
/// the list ties to one value, that value.
pub proof fn lemma_pin_decides(parts: Seq<RequirementView>, label: Seq<char>, place: int)
    requires
        sole_pin(parts, label, place),
    ensures
        exact_match(parts, label) == Some(parts[place].values[0]),
        forall|labels: Map<Seq<char>, Seq<char>>|
            all_match(parts, labels) ==> lookup(labels, label) == Some(parts[place].values[0]),
{
    assert forall|labels: Map<Seq<char>, Seq<char>>| all_match(parts, labels) implies lookup(
        labels,
        label,
    ) == Some(parts[place].values[0]) by {
        assert(parts[place].matches(labels));
    }
}

/// Whether two selectors select alike: they let through the same sets of
/// labels and are composed of the same requirements. This is what
/// `deep_copy_selector` promises of a copy and the selector it was made from.
pub open spec fn same_selection<S: Selector>(first: S, second: S) -> bool {
    &&& first.parts() == second.parts()
    &&& forall|labels: Map<Seq<char>, Seq<char>>|
        first.selects(labels) == #[trigger] second.selects(labels)
}

/// Whether a selector asks for what a base selector asks for and for the
/// added requirements on top: it lets through the sets of labels that the
/// base lets through and that meet each of the added ones, and where the base
/// is composed of requirements, it is composed of those followed by the added
/// ones. This is what `add` promises of its result and its receiver.
pub open spec fn extends<S: Selector>(combined: S, base: S, added: Seq<RequirementView>) -> bool {
    &&& forall|labels: Map<Seq<char>, Seq<char>>| #[trigger]
        combined.selects(labels) <==> base.selects(labels) && all_match(added, labels)
    &&& base.parts() matches Some(parts) ==> combined.parts() == Some(parts + added)
}

/// A selector composed of no requirement lets through every set of labels,
/// the empty one too.
pub proof fn lemma_no_requirement_selects_all<S: Selector>(
    selector: S,
    labels: Map<Seq<char>, Seq<char>>,
)
    requires
        selector.parts() == Some(Seq::<RequirementView>::empty()),
    ensures
        selector.selects(labels),
        selector.selects(Map::<Seq<char>, Seq<char>>::empty()),
{
    selector.lemma_parts_decide(labels);
    selector.lemma_parts_decide(Map::<Seq<char>, Seq<char>>::empty());
}

/// Adding to a copy of a selector does not reach the selector that was
/// copied: the copy selects like it before the call and after, and what the
/// call returns asks for what that selector asks for and for the added
/// requirements.
pub proof fn lemma_add_on_copy_leaves_selector<S: Selector>(
    selector: S,
    copy: S,
    copy_after: S,
    combined: S,
    added: Seq<RequirementView>,
)
    requires
        same_selection(copy, selector),
        copy_after == copy,
        extends(combined, copy, added),
    ensures
        same_selection(copy_after, selector),
        copy_after.parts() == selector.parts(),
        extends(combined, selector, added),
{
    assert forall|labels: Map<Seq<char>, Seq<char>>| #[trigger]
        combined.selects(labels) <==> selector.selects(labels) && all_match(added, labels) by {
        assert(copy.selects(labels) == selector.selects(labels));
    }
}

} // verus!
