use vstd::prelude::*;

verus! {

/// Sub-styles of a jack measure.
#[derive(Debug, Clone, Copy, PartialEq, Eq, Structural, Hash)]
pub enum JackPattern {
    Chordjack,
    DenseChordjack,
    ChordStream,
    Speedjack,
    All,
}

/// Sub-styles of a jumpstream measure.
#[derive(Debug, Clone, Copy, PartialEq, Eq, Structural, Hash)]
pub enum JumpstreamPattern {
    LightJs,
    AnchorJs,
    JS,
    JT,
    All,
}

/// Sub-styles of a handstream measure.
#[derive(Debug, Clone, Copy, PartialEq, Eq, Structural, Hash)]
pub enum HandstreamPattern {
    LightHs,
    AnchorHs,
    DenseHs,
    HS,
    All,
}

/// Sub-styles of a singlestream measure.
#[derive(Debug, Clone, Copy, PartialEq, Eq, Structural, Hash)]
pub enum SinglestreamPattern {
    Singlestream,
    All,
}

/// A category together with its sub-style.
#[derive(Debug, Clone, Copy, PartialEq, Eq, Structural, Hash)]
pub enum Pattern {
    Jack(JackPattern),
    Handstream(HandstreamPattern),
    Jumpstream(JumpstreamPattern),
    Singlestream(SinglestreamPattern),
    Unclassified,
}

/// A category alone.
#[derive(Debug, Clone, Copy, PartialEq, Eq, Structural, Hash)]
pub enum SecondaryPattern {
    Jack,
    Handstream,
    Jumpstream,
    Singlestream,
    Unclassified,
}

/// The category-level rollup of a pattern.
pub open spec fn rollup(p: Pattern) -> Pattern {
    match p {
        Pattern::Jack(_) => Pattern::Jack(JackPattern::All),
        Pattern::Handstream(_) => Pattern::Handstream(HandstreamPattern::All),
        Pattern::Jumpstream(_) => Pattern::Jumpstream(JumpstreamPattern::All),
        Pattern::Singlestream(_) => Pattern::Singlestream(SinglestreamPattern::All),
        Pattern::Unclassified => Pattern::Unclassified,
    }
}

pub open spec fn category_of(p: Pattern) -> SecondaryPattern {
    match p {
        Pattern::Jack(_) => SecondaryPattern::Jack,
        Pattern::Handstream(_) => SecondaryPattern::Handstream,
        Pattern::Jumpstream(_) => SecondaryPattern::Jumpstream,
        Pattern::Singlestream(_) => SecondaryPattern::Singlestream,
        Pattern::Unclassified => SecondaryPattern::Unclassified,
    }
}

/// A label that a measure can carry: the rollup tag `All` never is one.
pub open spec fn is_measure_label(p: Pattern) -> bool {
    match p {
        Pattern::Jack(j) => j != JackPattern::All,
        Pattern::Handstream(h) => h != HandstreamPattern::All,
        Pattern::Jumpstream(j) => j != JumpstreamPattern::All,
        Pattern::Singlestream(s) => s != SinglestreamPattern::All,
        Pattern::Unclassified => true,
    }
}

/// The technical-difficulty multiplier of a pattern, in tenths.
pub open spec fn weight_tenths(p: Pattern) -> nat {
    match p {
        Pattern::Jack(j) => match j {
            JackPattern::DenseChordjack => 8,
            JackPattern::Speedjack => 9,
            JackPattern::Chordjack => 10,
            JackPattern::ChordStream => 11,
            JackPattern::All => 10,
        },
        Pattern::Handstream(h) => match h {
            HandstreamPattern::DenseHs => 8,
            HandstreamPattern::AnchorHs => 11,
            HandstreamPattern::HS => 10,
            HandstreamPattern::LightHs => 11,
            HandstreamPattern::All => 10,
        },
        Pattern::Jumpstream(j) => match j {
            JumpstreamPattern::JT => 7,
            JumpstreamPattern::AnchorJs => 11,
            JumpstreamPattern::JS => 10,
            JumpstreamPattern::LightJs => 11,
            JumpstreamPattern::All => 10,
        },
        Pattern::Singlestream(s) => match s {
            SinglestreamPattern::Singlestream => 11,
            SinglestreamPattern::All => 10,
        },
        Pattern::Unclassified => 0,
    }
}

pub open spec fn jack_label(p: JackPattern) -> Seq<char> {
    match p {
        JackPattern::Chordjack => "Chordjack"@,
        JackPattern::DenseChordjack => "Dense Chordjack"@,
        JackPattern::ChordStream => "ChordStream"@,
        JackPattern::Speedjack => "Speedjack"@,
        JackPattern::All => "All"@,
    }
}

pub open spec fn jumpstream_label(p: JumpstreamPattern) -> Seq<char> {
    match p {
        JumpstreamPattern::LightJs => "Light JS"@,
        JumpstreamPattern::AnchorJs => "Anchor JS"@,
        JumpstreamPattern::JS => "JS"@,
        JumpstreamPattern::JT => "JT"@,
        JumpstreamPattern::All => "All"@,
    }
}

pub open spec fn handstream_label(p: HandstreamPattern) -> Seq<char> {
    match p {
        HandstreamPattern::LightHs => "Light HS"@,
        HandstreamPattern::AnchorHs => "Anchor HS"@,
        HandstreamPattern::DenseHs => "Dense HS"@,
        HandstreamPattern::HS => "HS"@,
        HandstreamPattern::All => "All"@,
    }
}

pub open spec fn pattern_label(p: Pattern) -> Seq<char> {
    match p {
        Pattern::Jack(j) => jack_label(j),
        Pattern::Handstream(h) => handstream_label(h),
        Pattern::Jumpstream(j) => jumpstream_label(j),
        Pattern::Singlestream(_) => "SingleStream"@,
        Pattern::Unclassified => "None"@,
    }
}

/// Copies a string literal into an owned string.
fn owned(s: &str) -> (r: String)
    ensures
        r@ == s@,
{
    s.to_string()
}

impl JackPattern {
    /// The display label.
    pub fn to_string(&self) -> (r: String)
        ensures
            r@ == jack_label(*self),
    {
        match self {
            JackPattern::Chordjack => owned("Chordjack"),
            JackPattern::DenseChordjack => owned("Dense Chordjack"),
            JackPattern::ChordStream => owned("ChordStream"),
            JackPattern::Speedjack => owned("Speedjack"),
            JackPattern::All => owned("All"),
        }
    }
}

impl JumpstreamPattern {
    /// The display label.
    pub fn to_string(&self) -> (r: String)
        ensures
            r@ == jumpstream_label(*self),
    {
        match self {
            JumpstreamPattern::LightJs => owned("Light JS"),
            JumpstreamPattern::AnchorJs => owned("Anchor JS"),
            JumpstreamPattern::JS => owned("JS"),
            JumpstreamPattern::JT => owned("JT"),
            JumpstreamPattern::All => owned("All"),
        }
    }
}

impl HandstreamPattern {
    /// The display label.
    pub fn to_string(&self) -> (r: String)
        ensures
            r@ == handstream_label(*self),
    {
        match self {
            HandstreamPattern::LightHs => owned("Light HS"),
            HandstreamPattern::AnchorHs => owned("Anchor HS"),
            HandstreamPattern::DenseHs => owned("Dense HS"),
            HandstreamPattern::HS => owned("HS"),
            HandstreamPattern::All => owned("All"),
        }
    }
}

impl Pattern {
    /// The display label of the sub-style (of the category for singlestream).
    pub fn to_string(&self) -> (r: String)
        ensures
            r@ == pattern_label(*self),
    {
        match self {
            Pattern::Jack(j) => j.to_string(),
            Pattern::Handstream(h) => h.to_string(),
            Pattern::Jumpstream(j) => j.to_string(),
            Pattern::Singlestream(_) => owned("SingleStream"),
            Pattern::Unclassified => owned("None"),
        }
    }

    /// The same category with the sub-style replaced by its rollup tag.
    pub fn to_all(&self) -> (r: Pattern)
        ensures
            r == rollup(*self),
    {
        match self {
            Pattern::Jack(_) => Pattern::Jack(JackPattern::All),
            Pattern::Handstream(_) => Pattern::Handstream(HandstreamPattern::All),
            Pattern::Jumpstream(_) => Pattern::Jumpstream(JumpstreamPattern::All),
            Pattern::Singlestream(_) => Pattern::Singlestream(SinglestreamPattern::All),
            Pattern::Unclassified => Pattern::Unclassified,
        }
    }

    /// The category alone.
    pub fn category(&self) -> (r: SecondaryPattern)
        ensures
            r == category_of(*self),
    {
        match self {
            Pattern::Jack(_) => SecondaryPattern::Jack,
            Pattern::Handstream(_) => SecondaryPattern::Handstream,
            Pattern::Jumpstream(_) => SecondaryPattern::Jumpstream,
            Pattern::Singlestream(_) => SecondaryPattern::Singlestream,
            Pattern::Unclassified => SecondaryPattern::Unclassified,
        }
    }
}

pub open spec fn category_label(c: SecondaryPattern) -> Seq<char> {
    match c {
        SecondaryPattern::Jack => "Jack"@,
        SecondaryPattern::Handstream => "HS"@,
        SecondaryPattern::Jumpstream => "JS"@,
        SecondaryPattern::Singlestream => "SS"@,
        SecondaryPattern::Unclassified => "None"@,
    }
}

impl SecondaryPattern {
    /// The short display label of the category.
    pub fn to_string(&self) -> (r: String)
        ensures
            r@ == category_label(*self),
    {
        match self {
            SecondaryPattern::Jack => owned("Jack"),
            SecondaryPattern::Handstream => owned("HS"),
            SecondaryPattern::Jumpstream => owned("JS"),
            SecondaryPattern::Singlestream => owned("SS"),
            SecondaryPattern::Unclassified => owned("None"),
        }
    }

    /// The rollup pattern of this category.
    pub fn to_all(&self) -> (r: Pattern)
        ensures
            category_of(r) == *self,
            r == rollup(r),
    {
        match self {
            SecondaryPattern::Jack => Pattern::Jack(JackPattern::All),
            SecondaryPattern::Handstream => Pattern::Handstream(HandstreamPattern::All),
            SecondaryPattern::Jumpstream => Pattern::Jumpstream(JumpstreamPattern::All),
            SecondaryPattern::Singlestream => Pattern::Singlestream(SinglestreamPattern::All),
            SecondaryPattern::Unclassified => Pattern::Unclassified,
        }
    }
}

/// The technical-difficulty multiplier of a pattern, in tenths
/// (a Speedjack weighs 0.9, returned as 9).
pub fn get_pattern_weight(pattern: &Pattern) -> (r: u64)
    ensures
        r == weight_tenths(*pattern),
{
    match pattern {
        Pattern::Jack(j) => match j {
            JackPattern::DenseChordjack => 8,
            JackPattern::Speedjack => 9,
            JackPattern::Chordjack => 10,
            JackPattern::ChordStream => 11,
            JackPattern::All => 10,
        },
        Pattern::Handstream(h) => match h {
            HandstreamPattern::DenseHs => 8,
            HandstreamPattern::AnchorHs => 11,
            HandstreamPattern::HS => 10,
            HandstreamPattern::LightHs => 11,
            HandstreamPattern::All => 10,
        },
        Pattern::Jumpstream(j) => match j {
            JumpstreamPattern::JT => 7,
            JumpstreamPattern::AnchorJs => 11,
            JumpstreamPattern::JS => 10,
            JumpstreamPattern::LightJs => 11,
            JumpstreamPattern::All => 10,
        },
        Pattern::Singlestream(s) => match s {
            SinglestreamPattern::Singlestream => 11,
            SinglestreamPattern::All => 10,
        },
        Pattern::Unclassified => 0,
    }
}

} // verus!
