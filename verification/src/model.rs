use vstd::prelude::*;

verus! {

/// The dimension a pearl travels in.
#[derive(Debug, Clone, Copy, PartialEq, Eq, Structural)]
pub enum Dimension {
    Overworld,
    Nether,
    End,
}

impl Default for Dimension {
    fn default() -> (d: Self)
        ensures
            d == Dimension::Nether,
    {
        Dimension::Nether
    }
}

impl Dimension {
    /// The name under which a dimension is shown to users.
    pub open spec fn spec_name(self) -> Seq<char> {
        match self {
            Dimension::Overworld => "Overworld"@,
            Dimension::Nether => "Nether"@,
            Dimension::End => "End"@,
        }
    }

    /// The name under which a dimension is shown to users.
    pub fn name(&self) -> (s: &'static str)
        ensures
            s@ == self.spec_name(),
    {
        match self {
            Dimension::Overworld => "Overworld",
            Dimension::Nether => "Nether",
            Dimension::End => "End",
        }
    }

    /// The number by which a dimension is stored in a config file.
    pub open spec fn spec_code(self) -> i8 {
        match self {
            Dimension::Overworld => 0,
            Dimension::Nether => -1i8,
            Dimension::End => 1,
        }
    }

    /// The number by which a dimension is stored in a config file.
    pub fn code(&self) -> (c: i8)
        ensures
            c == self.spec_code(),
    {
        match self {
            Dimension::Overworld => 0,
            Dimension::Nether => -1,
            Dimension::End => 1,
        }
    }

    /// The dimension stored under a number, if any.
    pub fn from_code(c: i8) -> (d: Option<Dimension>)
        ensures
            d matches Some(dim) ==> dim.spec_code() == c,
            d is None <==> (c != 0 && c != -1 && c != 1),
    {
        if c == 0 {
            Some(Dimension::Overworld)
        } else if c == -1 {
            Some(Dimension::Nether)
        } else if c == 1 {
            Some(Dimension::End)
        } else {
            None
        }
    }
}

/// A game time, counted in ticks.
#[derive(Debug, Clone, Copy, PartialEq, Eq, Structural)]
pub struct Time(pub u64);

impl Default for Time {
    fn default() -> (t: Self)
        ensures
            t.0 == 0,
    {
        Time(0)
    }
}

impl Time {
    /// The times `a, a + 1, ..., b - 1`, in increasing order.
    pub fn range(a: Time, b: Time) -> (r: Vec<Time>)
        ensures
            r@.len() == if a.0 <= b.0 { b.0 - a.0 } else { 0 },
            forall|i: int| 0 <= i < r@.len() ==> (#[trigger] r@[i]).0 == a.0 + i,
    {
        let mut r: Vec<Time> = Vec::new();
        let mut t: u64 = a.0;
        while t < b.0
            invariant
                a.0 <= t,
                t <= b.0 || t == a.0,
                r@.len() == t - a.0,
                forall|i: int| 0 <= i < r@.len() ==> (#[trigger] r@[i]).0 == a.0 + i,
            decreases b.0 - t,
        {
            r.push(Time(t));
            t = t + 1;
        }
        r
    }

    /// The time `rhs` ticks after `self`.
    pub fn add(self, rhs: u64) -> (t: Time)
        requires
            self.0 + rhs <= u64::MAX,
        ensures
            t.0 == self.0 + rhs,
    {
        Time(self.0 + rhs)
    }
}

/// Numbers of red and blue TNT.
#[derive(Debug, Clone, Copy, PartialEq, Eq, Structural)]
pub struct TNTNumRB {
    pub red: u64,
    pub blue: u64,
}

impl TNTNumRB {
    /// Whether both counts stay within the given maximum.
    pub open spec fn spec_is_available(self, max: Self) -> bool {
        self.red <= max.red && self.blue <= max.blue
    }

    /// Whether both counts stay within the given maximum.
    pub fn is_available(self, max: Self) -> (b: bool)
        ensures
            b == self.spec_is_available(max),
            b <==> (self.red <= max.red && self.blue <= max.blue),
    {
        self.red <= max.red && self.blue <= max.blue
    }
}

/// Counts are within a limit exactly when red is within the red limit and blue within the
/// blue limit; so raising either limit keeps them within it, and counts over either limit are not.
pub proof fn lemma_available_per_colour(n: TNTNumRB, max: TNTNumRB, wider: TNTNumRB)
    ensures
        n.spec_is_available(max) <==> (n.red <= max.red && n.blue <= max.blue),
        n.spec_is_available(max) && max.red <= wider.red && max.blue <= wider.blue
            ==> n.spec_is_available(wider),
        n.red > max.red ==> !n.spec_is_available(max),
        n.blue > max.blue ==> !n.spec_is_available(max),
        (TNTNumRB { red: 0, blue: 0 }).spec_is_available(max),
        max.spec_is_available(max),
{
}

/// A code: one switch per slot of a code rule.
#[derive(Debug, Clone)]
pub struct TNTNumCode(pub Vec<bool>);

/// Red and blue TNT counts with the index of the direction they fire in.
#[derive(Debug, Clone, Copy, PartialEq, Eq, Structural)]
pub struct RB {
    pub num: TNTNumRB,
    pub direction: usize,
}

impl RB {
    /// Whether the counts stay within the given maximum.
    pub fn is_available(self, max: TNTNumRB) -> (b: bool)
        ensures
            b == self.num.spec_is_available(max),
            b <==> (self.num.red <= max.red && self.num.blue <= max.blue),
    {
        self.num.is_available(max)
    }
}

/// One item of a code rule: a slot that adds TNT or direction, or a visual space.
#[derive(Debug, Clone, Copy, PartialEq, Eq, Structural)]
pub enum CodeItem {
    Red { count: u64 },
    Blue { count: u64 },
    Direction { count: u64 },
    Space,
}

/// A group of slots (numbered from 1) whose enabled counts add up to at most `cap`.
#[derive(Debug, Clone)]
pub struct CodeCaps {
    pub bits: Vec<usize>,
    pub cap: u64,
}

/// The cap groups of a code rule.
#[derive(Debug, Clone)]
pub struct CodeExtra {
    pub caps: Vec<CodeCaps>,
}

/// A code rule: the layout of a code and the caps on its slots.
#[derive(Debug, Clone)]
pub struct CodeRule {
    pub default: Vec<CodeItem>,
    pub extra: CodeExtra,
}

/// The same rule under the name the config file uses.
pub type Code = CodeRule;

/// A direction given by the unit vectors that red and blue TNT push towards.
#[derive(Debug, Clone, Copy)]
pub struct Direction {
    pub red: [i8; 2],
    pub blue: [i8; 2],
}

/// The four directions a cannon can fire in.
#[derive(Debug, Clone, Copy)]
pub struct Directions(pub [Direction; 4]);

/// TNT counts along the two diagonal axes (1, 1) and (1, -1).
#[derive(Debug, Clone, Copy, PartialEq, Eq, Structural)]
pub struct TNTNum {
    pub x: i64,
    pub y: i64,
}

} // verus!
