//! Which part of the flash a read covers.
use vstd::prelude::*;

use crate::text::str_eq;

verus! {

/// A region of the flash to read back.
#[derive(Clone, Copy, PartialEq, Eq, Structural, Debug)]
pub enum ReadSection {
    Firmware,
    Bootloader,
    Full,
}

/// The name under which a section is given on the command line.
pub open spec fn section_name(section: ReadSection) -> Seq<char> {
    match section {
        ReadSection::Firmware => "firmware"@,
        ReadSection::Bootloader => "bootloader"@,
        ReadSection::Full => "full"@,
    }
}

/// Every section, in the order in which they are offered.
pub open spec fn all_sections() -> Seq<ReadSection> {
    seq![ReadSection::Firmware, ReadSection::Bootloader, ReadSection::Full]
}

/// `name` names a section.
pub open spec fn is_section_name(name: Seq<char>) -> bool {
    exists|s: ReadSection| section_name(s) == name
}

/// No two sections share a name.
pub proof fn lemma_section_names_distinct(a: ReadSection, b: ReadSection)
    ensures
        section_name(a) == section_name(b) <==> a == b,
{
    reveal_strlit("firmware");
    reveal_strlit("bootloader");
    reveal_strlit("full");
    if a != b {
        assert(section_name(a).len() != section_name(b).len() || section_name(a)[0] != section_name(b)[0]);
    }
}

impl ReadSection {
    /// The section's name.
    pub fn to_str(&self) -> (name: &'static str)
        ensures
            name@ == section_name(*self),
    {
        match self {
            ReadSection::Firmware => "firmware",
            ReadSection::Bootloader => "bootloader",
            ReadSection::Full => "full",
        }
    }

    /// The names of all sections, in the order firmware, bootloader, full.
    pub fn available_sections() -> (names: Vec<&'static str>)
        ensures
            names@.len() == all_sections().len(),
            forall|i: int| 0 <= i < names@.len() ==> #[trigger] names@[i]@ == section_name(all_sections()[i]),
    {
        let names = vec![
            ReadSection::Firmware.to_str(),
            ReadSection::Bootloader.to_str(),
            ReadSection::Full.to_str(),
        ];
        names
    }

    /// Parses a section name. Only the three names of [`section_name`] are
    /// accepted.
    pub fn from_str(section: &str) -> (parsed: Result<ReadSection, ()>)
        requires
            is_section_name(section@),
        ensures
            parsed matches Ok(s) && section_name(s) == section@,
    {
        if str_eq(section, "bootloader") {
            Ok(ReadSection::Bootloader)
        } else if str_eq(section, "full") {
            Ok(ReadSection::Full)
        } else {
            proof {
                let s = choose|s: ReadSection| section_name(s) == section@;
                assert(s == ReadSection::Firmware);
            }
            Ok(ReadSection::Firmware)
        }
    }
}

/// Parsing the name of a section gives that section back.
pub proof fn lemma_from_str_to_str(section: ReadSection, parsed: ReadSection)
    requires
        section_name(parsed) == section_name(section),
    ensures
        parsed == section,
{
    lemma_section_names_distinct(parsed, section);
}

} // verus!
