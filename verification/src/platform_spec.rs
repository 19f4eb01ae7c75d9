//! The flash layouts of the supported Sinowealth microcontrollers.
use vstd::prelude::*;
use vstd::seq_lib::to_multiset_insert;
use vstd::seq_lib::to_multiset_build;
use vstd::seq_lib::to_multiset_contains;

use crate::text::lex_lt;
use crate::text::lemma_lex_lt_total;
use crate::text::lemma_lex_lt_transitive;
use crate::text::str_eq;
use crate::text::str_lt;

verus! {

/// Bootloader size of a platform that does not say otherwise.
pub const DEFAULT_BOOTLOADER_SIZE: usize = 4096;

/// Flash page size of a platform that does not say otherwise.
pub const DEFAULT_PAGE_SIZE: usize = 2048;

/// What the operand of the read / write initialisation command holds on a
/// platform.
#[derive(Clone, Copy, PartialEq, Eq, Structural, Debug)]
pub enum InitOperand {
    Address,
    Length,
}

/// Flash layout of one microcontroller: the firmware occupies
/// `0..firmware_size`, the ISP bootloader the `bootloader_size` bytes after it.
#[derive(Clone, Copy, PartialEq, Eq, Structural, Debug)]
pub struct PlatformSpec {
    pub firmware_size: usize,
    pub bootloader_size: usize,
    pub page_size: usize,
    pub init_operand: InitOperand,
}

/// The layout every platform starts from.
pub open spec fn spec_platform_default() -> PlatformSpec {
    PlatformSpec {
        firmware_size: 0,
        bootloader_size: DEFAULT_BOOTLOADER_SIZE,
        page_size: DEFAULT_PAGE_SIZE,
        init_operand: InitOperand::Address,
    }
}

pub open spec fn spec_sh68f90() -> PlatformSpec {
    PlatformSpec { firmware_size: (65536 - DEFAULT_BOOTLOADER_SIZE) as usize, ..spec_platform_default() }
}

pub open spec fn spec_sh68f89() -> PlatformSpec {
    PlatformSpec { firmware_size: (65536 - DEFAULT_BOOTLOADER_SIZE) as usize, ..spec_platform_default() }
}

pub open spec fn spec_sh68f881() -> PlatformSpec {
    PlatformSpec { firmware_size: (32768 - DEFAULT_BOOTLOADER_SIZE) as usize, ..spec_platform_default() }
}

pub open spec fn spec_sh68f902() -> PlatformSpec {
    PlatformSpec {
        firmware_size: (16384 - 3072) as usize,
        bootloader_size: 3072,
        page_size: 1024,
        ..spec_platform_default()
    }
}

pub open spec fn spec_sh68f83() -> PlatformSpec {
    PlatformSpec {
        firmware_size: (16384 - 2048) as usize,
        bootloader_size: 2048,
        init_operand: InitOperand::Length,
        ..spec_platform_default()
    }
}

/// The platform table: each supported part's name and layout.
pub open spec fn spec_platforms() -> Seq<(&'static str, PlatformSpec)> {
    seq![
        ("sh68f83", spec_sh68f83()),
        ("sh68f89", spec_sh68f89()),
        ("sh68f881", spec_sh68f881()),
        ("sh68f90", spec_sh68f90()),
        ("sh68f902", spec_sh68f902()),
    ]
}

/// The names in the platform table, in table order.
pub open spec fn spec_platform_names() -> Seq<&'static str> {
    spec_platforms().map_values(|e: (&'static str, PlatformSpec)| e.0)
}

/// The layout that the table gives for `name`, if any.
pub open spec fn platform_named(name: Seq<char>) -> Option<PlatformSpec> {
    if exists|i: int| 0 <= i < spec_platforms().len() && #[trigger] spec_platforms()[i].0@ == name {
        let i = choose|i: int| 0 <= i < spec_platforms().len() && #[trigger] spec_platforms()[i].0@ == name;
        Some(spec_platforms()[i].1)
    } else {
        None
    }
}

/// No two entries of the platform table share a name.
pub proof fn lemma_platform_names_distinct()
    ensures
        forall|i: int, j: int|
            0 <= i < spec_platforms().len() && 0 <= j < spec_platforms().len() && i != j
                ==> #[trigger] spec_platforms()[i].0@ != #[trigger] spec_platforms()[j].0@,
{
    reveal_strlit("sh68f83");
    reveal_strlit("sh68f89");
    reveal_strlit("sh68f881");
    reveal_strlit("sh68f90");
    reveal_strlit("sh68f902");
    assert("sh68f83"@[6] != "sh68f89"@[6]);
    assert("sh68f83"@[6] != "sh68f881"@[6]);
    assert("sh68f83"@[5] != "sh68f90"@[5]);
    assert("sh68f83"@[5] != "sh68f902"@[5]);
    assert("sh68f89"@.len() != "sh68f881"@.len());
    assert("sh68f89"@[5] != "sh68f90"@[5]);
    assert("sh68f89"@[5] != "sh68f902"@[5]);
    assert("sh68f881"@[5] != "sh68f90"@[5]);
    assert("sh68f881"@[5] != "sh68f902"@[5]);
    assert("sh68f90"@.len() != "sh68f902"@.len());
}

impl PlatformSpec {
    /// Layout of the SH68F90.
    pub fn sh68f90() -> (p: PlatformSpec)
        ensures
            p == spec_sh68f90(),
    {
        PlatformSpec {
            firmware_size: 65536 - DEFAULT_BOOTLOADER_SIZE,
            bootloader_size: DEFAULT_BOOTLOADER_SIZE,
            page_size: DEFAULT_PAGE_SIZE,
            init_operand: InitOperand::Address,
        }
    }

    /// Layout of the SH68F89.
    pub fn sh68f89() -> (p: PlatformSpec)
        ensures
            p == spec_sh68f89(),
    {
        PlatformSpec {
            firmware_size: 65536 - DEFAULT_BOOTLOADER_SIZE,
            bootloader_size: DEFAULT_BOOTLOADER_SIZE,
            page_size: DEFAULT_PAGE_SIZE,
            init_operand: InitOperand::Address,
        }
    }

    /// Layout of the SH68F881.
    pub fn sh68f881() -> (p: PlatformSpec)
        ensures
            p == spec_sh68f881(),
    {
        PlatformSpec {
            firmware_size: 32768 - DEFAULT_BOOTLOADER_SIZE,
            bootloader_size: DEFAULT_BOOTLOADER_SIZE,
            page_size: DEFAULT_PAGE_SIZE,
            init_operand: InitOperand::Address,
        }
    }

    /// Layout of the SH68F902.
    pub fn sh68f902() -> (p: PlatformSpec)
        ensures
            p == spec_sh68f902(),
    {
        PlatformSpec {
            firmware_size: 16384 - 3072,
            bootloader_size: 3072,
            page_size: 1024,
            init_operand: InitOperand::Address,
        }
    }

    /// Layout of the SH68F83.
    pub fn sh68f83() -> (p: PlatformSpec)
        ensures
            p == spec_sh68f83(),
    {
        PlatformSpec {
            firmware_size: 16384 - 2048,
            bootloader_size: 2048,
            page_size: DEFAULT_PAGE_SIZE,
            init_operand: InitOperand::Length,
        }
    }

    /// The platform table.
    pub fn platforms() -> (table: Vec<(&'static str, PlatformSpec)>)
        ensures
            table@ == spec_platforms(),
    {
        let table = vec![
            ("sh68f83", PlatformSpec::sh68f83()),
            ("sh68f89", PlatformSpec::sh68f89()),
            ("sh68f881", PlatformSpec::sh68f881()),
            ("sh68f90", PlatformSpec::sh68f90()),
            ("sh68f902", PlatformSpec::sh68f902()),
        ];
        assert(table@ =~= spec_platforms());
        table
    }

    /// Looks a platform up by name.
    pub fn get(name: &str) -> (p: Option<PlatformSpec>)
        ensures
            p == platform_named(name@),
    {
        let table = PlatformSpec::platforms();
        proof {
            lemma_platform_names_distinct();
        }
        let mut i: usize = 0;
        while i < table.len()
            invariant
                table@ == spec_platforms(),
                i <= table.len(),
                forall|j: int| 0 <= j < i ==> #[trigger] spec_platforms()[j].0@ != name@,
            decreases table.len() - i,
        {
            if str_eq(table[i].0, name) {
                let found = table[i].1;
                proof {
                    lemma_platform_names_distinct();
                    let k = choose|k: int|
                        0 <= k < spec_platforms().len() && #[trigger] spec_platforms()[k].0@ == name@;
                    if k != i {
                        assert(spec_platforms()[k].0@ != spec_platforms()[i as int].0@);
                    }
                }
                return Some(found);
            }
            i = i + 1;
        }
        None
    }

    /// Names of all supported platforms, in ascending order.
    pub fn available_platforms() -> (names: Vec<&'static str>)
        ensures
            names@.to_multiset() == spec_platform_names().to_multiset(),
            forall|i: int, j: int|
                0 <= i < j < names@.len() ==> lex_lt(#[trigger] names@[i]@, #[trigger] names@[j]@),
    {
        let table = PlatformSpec::platforms();
        let mut keys: Vec<&'static str> = Vec::new();
        let mut i: usize = 0;
        while i < table.len()
            invariant
                table@ == spec_platforms(),
                i <= table.len(),
                keys@ == spec_platform_names().take(i as int),
            decreases table.len() - i,
        {
            keys.push(table[i].0);
            i = i + 1;
            assert(keys@ =~= spec_platform_names().take(i as int));
        }
        assert(keys@ =~= spec_platform_names());
        proof {
            lemma_platform_names_distinct();
        }
        sort_distinct(keys)
    }
}

/// Every name that [`PlatformSpec::available_platforms`] lists can be looked
/// up with [`PlatformSpec::get`].
pub proof fn lemma_listed_platforms_resolve(names: Seq<&'static str>, i: int)
    requires
        names.to_multiset() == spec_platform_names().to_multiset(),
        0 <= i < names.len(),
    ensures
        platform_named(names[i]@) is Some,
{
    assert(names.contains(names[i]));
    to_multiset_contains(names, names[i]);
    to_multiset_contains(spec_platform_names(), names[i]);
    let j = choose|j: int| 0 <= j < spec_platform_names().len() && spec_platform_names()[j] == names[i];
    assert(spec_platforms()[j].0@ == names[i]@);
}

/// Sorts strings that are pairwise distinct into ascending order.
fn sort_distinct(items: Vec<&'static str>) -> (sorted: Vec<&'static str>)
    requires
        forall|i: int, j: int|
            0 <= i < items@.len() && 0 <= j < items@.len() && i != j
                ==> #[trigger] items@[i]@ != #[trigger] items@[j]@,
    ensures
        sorted@.to_multiset() == items@.to_multiset(),
        forall|i: int, j: int|
            0 <= i < j < sorted@.len() ==> lex_lt(#[trigger] sorted@[i]@, #[trigger] sorted@[j]@),
{
    let mut out: Vec<&'static str> = Vec::new();
    let mut i: usize = 0;
    proof {
        assert(items@.take(0) =~= Seq::<&'static str>::empty());
        assert(out@ =~= items@.take(0));
    }
    while i < items.len()
        invariant
            i <= items@.len(),
            forall|a: int, b: int|
                0 <= a < items@.len() && 0 <= b < items@.len() && a != b
                    ==> #[trigger] items@[a]@ != #[trigger] items@[b]@,
            out@.to_multiset() == items@.take(i as int).to_multiset(),
            out@.len() == i,
            forall|a: int, b: int|
                0 <= a < b < out@.len() ==> lex_lt(#[trigger] out@[a]@, #[trigger] out@[b]@),
        decreases items@.len() - i,
    {
        let item = items[i];
        // every string placed so far is an earlier item, so differs from this one
        assert forall|a: int| 0 <= a < out@.len() implies #[trigger] out@[a]@ != item@ by {
            assert(out@.contains(out@[a]));
            to_multiset_contains(out@, out@[a]);
            to_multiset_contains(items@.take(i as int), out@[a]);
            assert(items@.take(i as int).contains(out@[a]));
            let b = choose|b: int| 0 <= b < i && items@.take(i as int)[b] == out@[a];
            assert(items@[b] == out@[a]);
        }
        let mut pos: usize = 0;
        while pos < out.len() && str_lt(out[pos], item)
            invariant
                pos <= out@.len(),
                forall|a: int| 0 <= a < pos ==> lex_lt(#[trigger] out@[a]@, item@),
            decreases out@.len() - pos,
        {
            pos = pos + 1;
        }
        let ghost before = out@;
        proof {
            if pos < out@.len() {
                lemma_lex_lt_total(out@[pos as int]@, item@);
                assert forall|b: int| pos <= b < out@.len() implies lex_lt(item@, #[trigger] out@[b]@) by {
                    if b > pos {
                        lemma_lex_lt_transitive(item@, out@[pos as int]@, out@[b]@);
                    }
                }
            }
        }
        out.insert(pos, item);
        proof {
            before.insert_ensures(pos as int, item);
            assert(out@ == before.insert(pos as int, item));
            assert(items@.take(i + 1) =~= items@.take(i as int).push(item));
            to_multiset_insert(before, pos as int, item);
            to_multiset_build(items@.take(i as int), item);
            assert(out@.to_multiset() == items@.take(i + 1).to_multiset());
        }
        i = i + 1;
    }
    assert(items@.take(items@.len() as int) =~= items@);
    out
}

} // verus!
