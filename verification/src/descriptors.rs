//! Segment descriptor layout: the fixed selectors of the kernel's global
//! descriptor table, built in a fixed order so the selector values are
//! constants.
use vstd::prelude::*;

verus! {

/// A segment selector: a descriptor table index with a requested privilege
/// level in the low two bits.
#[derive(Clone, Copy, Debug, PartialEq, Eq, Hash, Structural)]
pub struct SegmentSelector {
    /// The raw selector value loaded into a segment register.
    pub raw: u16,
}

impl SegmentSelector {
    /// Builds the selector of descriptor `index` with privilege `rpl`.
    pub fn new(index: u16, rpl: u8) -> (r: Self)
        requires
            index < 8192,
            rpl < 4,
        ensures
            r.raw == index * 8 + rpl,
    {
        SegmentSelector { raw: index * 8 + rpl as u16 }
    }
}

/// The kernel code selector: descriptor 1, ring 0.
pub const KCS: u16 = 8;

/// The kernel data selector: descriptor 2, ring 0.
pub const KDS: u16 = 16;

/// The user data selector: descriptor 3, ring 3.
pub const UDS: u16 = 27;

/// The user code selector: descriptor 4, ring 3.
pub const UCS: u16 = 35;

/// The task state segment selector: descriptor 5, ring 0.
pub const TSS: u16 = 40;

/// The selectors of the descriptor table in the order the table is built:
/// kernel code, kernel data, user data, user code, task state segment. The
/// build order is fixed so these match the named constants.
pub fn gdt_layout() -> (r: Vec<SegmentSelector>)
    ensures
        r@ == seq![
            SegmentSelector { raw: KCS },
            SegmentSelector { raw: KDS },
            SegmentSelector { raw: UDS },
            SegmentSelector { raw: UCS },
            SegmentSelector { raw: TSS },
        ],
{
    let mut selectors: Vec<SegmentSelector> = Vec::new();
    selectors.push(SegmentSelector::new(1, 0));
    selectors.push(SegmentSelector::new(2, 0));
    selectors.push(SegmentSelector::new(3, 3));
    selectors.push(SegmentSelector::new(4, 3));
    selectors.push(SegmentSelector::new(5, 0));
    proof {
        assert(selectors@ =~= seq![
            SegmentSelector { raw: KCS },
            SegmentSelector { raw: KDS },
            SegmentSelector { raw: UDS },
            SegmentSelector { raw: UCS },
            SegmentSelector { raw: TSS },
        ]);
    }
    selectors
}

} // verus!
