//! Sections and their levels.

use vstd::prelude::*;
use vstd::string::*;
use crate::uris::{Uri, UriView};

verus! {

/// A half-open range of bytes in the serialized document.
#[derive(Copy, Clone, Debug, PartialEq, Eq, Structural)]
pub struct DocumentRange {
    pub start: usize,
    pub end: usize,
}

/// The level of a section in the sectioning hierarchy.
#[derive(Clone, Copy, Debug, PartialEq, Eq, Hash, Structural)]
pub enum SectionLevel {
    Part,
    Chapter,
    Section,
    Subsection,
    Subsubsection,
    Paragraph,
    Subparagraph,
}

/// The level numbered `value`, counted from `Part` at zero.
pub open spec fn level_of(value: u8) -> Option<SectionLevel> {
    if value == 0 {
        Some(SectionLevel::Part)
    } else if value == 1 {
        Some(SectionLevel::Chapter)
    } else if value == 2 {
        Some(SectionLevel::Section)
    } else if value == 3 {
        Some(SectionLevel::Subsection)
    } else if value == 4 {
        Some(SectionLevel::Subsubsection)
    } else if value == 5 {
        Some(SectionLevel::Paragraph)
    } else if value == 6 {
        Some(SectionLevel::Subparagraph)
    } else {
        None
    }
}

impl SectionLevel {
    /// The number of the level, counted from `Part` at zero.
    pub open spec fn number(self) -> u8 {
        match self {
            SectionLevel::Part => 0,
            SectionLevel::Chapter => 1,
            SectionLevel::Section => 2,
            SectionLevel::Subsection => 3,
            SectionLevel::Subsubsection => 4,
            SectionLevel::Paragraph => 5,
            SectionLevel::Subparagraph => 6,
        }
    }

    /// The level numbered `value`; there are seven of them.
    pub fn try_from(value: u8) -> (r: Result<Self, ()>)
        ensures
            match r {
                Ok(l) => level_of(value) == Some(l),
                Err(_) => level_of(value) is None,
            },
    {
        match value {
            0 => Ok(SectionLevel::Part),
            1 => Ok(SectionLevel::Chapter),
            2 => Ok(SectionLevel::Section),
            3 => Ok(SectionLevel::Subsection),
            4 => Ok(SectionLevel::Subsubsection),
            5 => Ok(SectionLevel::Paragraph),
            6 => Ok(SectionLevel::Subparagraph),
            _ => Err(()),
        }
    }

    /// The name of the level as shown to a reader.
    pub fn to_string(&self) -> (r: String)
        ensures
            r@ == match *self {
                SectionLevel::Part => "Part"@,
                SectionLevel::Chapter => "Chapter"@,
                SectionLevel::Section => "Section"@,
                SectionLevel::Subsection => "Subsection"@,
                SectionLevel::Subsubsection => "Subsubsection"@,
                SectionLevel::Paragraph => "Paragraph"@,
                SectionLevel::Subparagraph => "Subparagraph"@,
            },
    {
        match self {
            SectionLevel::Part => "Part".to_owned(),
            SectionLevel::Chapter => "Chapter".to_owned(),
            SectionLevel::Section => "Section".to_owned(),
            SectionLevel::Subsection => "Subsection".to_owned(),
            SectionLevel::Subsubsection => "Subsubsection".to_owned(),
            SectionLevel::Paragraph => "Paragraph".to_owned(),
            SectionLevel::Subparagraph => "Subparagraph".to_owned(),
        }
    }
}

impl From<SectionLevel> for u8 {
    fn from(s: SectionLevel) -> (r: u8) {
        match s {
            SectionLevel::Part => 0,
            SectionLevel::Chapter => 1,
            SectionLevel::Section => 2,
            SectionLevel::Subsection => 3,
            SectionLevel::Subsubsection => 4,
            SectionLevel::Paragraph => 5,
            SectionLevel::Subparagraph => 6,
        }
    }
}

impl vstd::std_specs::convert::FromSpecImpl<SectionLevel> for u8 {
    open spec fn obeys_from_spec() -> bool {
        true
    }

    open spec fn from_spec(s: SectionLevel) -> u8 {
        s.number()
    }
}

/// Numbering the levels and reading the numbers back gives the levels again.
pub proof fn lemma_level_round_trip(l: SectionLevel)
    ensures
        level_of(l.number()) == Some(l),
{
}

/// A section as it is extracted. Its children are the records that precede
/// it at a greater depth.
#[derive(Clone, Debug, PartialEq, Eq)]
pub struct UncheckedSection {
    pub range: DocumentRange,
    pub uri: Uri,
    pub level: SectionLevel,
    pub title: Option<DocumentRange>,
}

/// A section as mathematical data.
pub struct SectionView {
    pub range: DocumentRange,
    pub uri: UriView,
    pub level: SectionLevel,
    pub title: Option<DocumentRange>,
}

impl View for UncheckedSection {
    type V = SectionView;

    open spec fn view(&self) -> SectionView {
        SectionView { range: self.range, uri: self.uri@, level: self.level, title: self.title }
    }
}

} // verus!
