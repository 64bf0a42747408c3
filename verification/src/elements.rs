//! Circuit elements.
use crate::algebra::{int_text, nat_text, push_int, push_nat, Expr, Operation};
use crate::component::Component;
use crate::util::PrettyPrint;
use crate::validation::{Issue, Status, StatusError, Validation, ValidationResult};
use vstd::prelude::*;
use vstd::std_specs::cmp::PartialEqSpecImpl;
use vstd::string::*;

verus! {

/// A two-terminal circuit element.
///
/// `positive` and `negative` list the ids of the elements that are joined to
/// the element at its positive and at its negative terminal.
#[derive(Debug)]
pub struct Element {
    /// The position of the element in its container.
    pub id: usize,
    /// The class of the element.
    pub class: Component,
    /// The value of the element, in whole units of its class.
    pub value: i64,
    /// The elements joined at the positive terminal.
    pub positive: Vec<usize>,
    /// The elements joined at the negative terminal.
    pub negative: Vec<usize>,
}

/// The mathematical value of an [`Element`].
#[verifier::ext_equal]
pub struct ElementView {
    pub id: nat,
    pub class: Component,
    pub value: int,
    pub positive: Seq<usize>,
    pub negative: Seq<usize>,
}

impl ElementView {
    /// The short label of the element: the prefix of its class and its id.
    pub open spec fn basic_text(self) -> Seq<char> {
        self.class.name_text() + nat_text(self.id)
    }

    /// The display label of the element: the short label alone for a ground;
    /// for any other element the short label, a colon, the value and the unit.
    pub open spec fn pretty_text(self) -> Seq<char> {
        if self.class == Component::Ground {
            self.basic_text()
        } else {
            self.basic_text() + ": "@ + int_text(self.value) + " "@ + self.class.unit_text()
        }
    }

    /// Whether the element with the given id is joined to one of the
    /// terminals.
    pub open spec fn touches(self, id: usize) -> bool {
        self.positive.contains(id) || self.negative.contains(id)
    }

    /// What a check of the element finds: it is valid where something is
    /// joined to it and it is not joined to itself.
    pub open spec fn verdict(self) -> Result<Status, Issue> {
        if self.positive.len() == 0 && self.negative.len() == 0 {
            Err(Issue::KnownIssue("Not connected: "@ + self.pretty_text()))
        } else if self.touches(self.id as usize) {
            Err(Issue::KnownIssue("Connected to itself: "@ + self.pretty_text()))
        } else {
            Ok(Status::Valid)
        }
    }
}

impl View for Element {
    type V = ElementView;

    open spec fn view(&self) -> ElementView {
        ElementView {
            id: self.id as nat,
            class: self.class,
            value: self.value as int,
            positive: self.positive@,
            negative: self.negative@,
        }
    }
}

impl Clone for Element {
    fn clone(&self) -> (r: Self)
        ensures
            r@ == self@,
    {
        let positive = self.positive.clone();
        let negative = self.negative.clone();
        assert(positive@ =~= self.positive@);
        assert(negative@ =~= self.negative@);
        Element { id: self.id, class: self.class, value: self.value, positive, negative }
    }
}

impl PartialEq for Element {
    /// Two elements are the same where their ids are.
    fn eq(&self, other: &Self) -> (r: bool) {
        self.id == other.id
    }
}

impl PartialEqSpecImpl for Element {
    open spec fn obeys_eq_spec() -> bool {
        true
    }

    open spec fn eq_spec(&self, other: &Self) -> bool {
        self.id == other.id
    }
}

/// Whether `id` occurs in `ids`.
pub fn contains_id(ids: &Vec<usize>, id: usize) -> (found: bool)
    ensures
        found == ids@.contains(id),
{
    let mut i: usize = 0;
    while i < ids.len()
        invariant
            i <= ids.len(),
            forall|k: int| 0 <= k < i ==> ids@[k] != id,
        decreases ids.len() - i,
    {
        if ids[i] == id {
            return true;
        }
        i += 1;
    }
    false
}

impl Element {
    /// An element that is not yet in a container; its id is assigned when it
    /// is added to one.
    pub fn new(class: Component, value: i64, positive: Vec<usize>, negative: Vec<usize>) -> (e:
        Element)
        ensures
            e == (Element { id: 0, class, value, positive, negative }),
    {
        Element { id: 0, class, value, positive, negative }
    }

    /// The short label of the element.
    pub fn basic_string(&self) -> (s: String)
        ensures
            s@ == self@.basic_text(),
    {
        let mut out = String::from_str(self.class.name());
        push_nat(&mut out, self.id as u64);
        out
    }

    /// The display label of the element.
    pub fn label(&self) -> (s: String)
        ensures
            s@ == self@.pretty_text(),
    {
        let mut out = self.basic_string();
        match self.class {
            Component::Ground => {},
            _ => {
                out.append(": ");
                push_int(&mut out, self.value);
                out.append(" ");
                out.append(self.class.unit());
            },
        }
        out
    }

    /// The variable that stands for the element in an equation: its short
    /// label, with its value.
    pub fn variable(&self) -> (v: Operation)
        ensures
            v@ == Expr::Variable(self@.basic_text(), self@.value),
    {
        Operation::Variable(self.basic_string(), self.value)
    }
}

impl PrettyPrint for Element {
    open spec fn pretty_text(&self) -> Seq<char> {
        self@.pretty_text()
    }

    fn pretty_string(&self) -> (s: String) {
        self.label()
    }
}

impl Validation for Element {
    open spec fn verdict(&self) -> Result<Status, Issue> {
        self@.verdict()
    }

    fn validate(&self) -> (r: ValidationResult) {
        if self.positive.len() == 0 && self.negative.len() == 0 {
            let mut message = String::from_str("Not connected: ");
            message.append(self.label().as_str());
            Err(StatusError::KnownIssue(message))
        } else if contains_id(&self.positive, self.id) || contains_id(&self.negative, self.id) {
            let mut message = String::from_str("Connected to itself: ");
            message.append(self.label().as_str());
            Err(StatusError::KnownIssue(message))
        } else {
            Ok(Status::Valid)
        }
    }
}

} // verus!
