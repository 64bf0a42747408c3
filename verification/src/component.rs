//! The classes of circuit elements.
use vstd::prelude::*;
use vstd::string::*;

verus! {

/// The class of a circuit element.
#[derive(Debug, Clone, Copy, PartialEq, Eq, Structural)]
pub enum Component {
    /// The reference potential.
    Ground,
    /// A resistor, valued in ohms.
    Resistor,
    /// An ideal voltage source, valued in volts.
    VoltageSrc,
    /// An ideal current source, valued in amperes.
    CurrentSrc,
}

impl Component {
    /// The prefix of the labels of the elements of this class.
    pub open spec fn name_text(self) -> Seq<char> {
        match self {
            Component::Ground => "GND"@,
            Component::Resistor => "R"@,
            Component::VoltageSrc => "SRC(V)"@,
            Component::CurrentSrc => "SRC(C)"@,
        }
    }

    /// The unit in which the elements of this class are valued.
    pub open spec fn unit_text(self) -> Seq<char> {
        match self {
            Component::Ground => ""@,
            Component::Resistor => "Ω"@,
            Component::VoltageSrc => "V"@,
            Component::CurrentSrc => "A"@,
        }
    }

    /// The prefix of the labels of the elements of this class.
    pub fn name(&self) -> (s: &'static str)
        ensures
            s@ == self.name_text(),
    {
        match self {
            Component::Ground => "GND",
            Component::Resistor => "R",
            Component::VoltageSrc => "SRC(V)",
            Component::CurrentSrc => "SRC(C)",
        }
    }

    /// The unit in which the elements of this class are valued.
    pub fn unit(&self) -> (s: &'static str)
        ensures
            s@ == self.unit_text(),
    {
        match self {
            Component::Ground => "",
            Component::Resistor => "Ω",
            Component::VoltageSrc => "V",
            Component::CurrentSrc => "A",
        }
    }
}

} // verus!
