//! The layout of the kernel's virtual address space: named sections placed one after another,
//! each optionally aligned.
use vstd::prelude::*;
use crate::addr::VirtAddr;
use crate::align::{Alignment, align_up_spec};
use crate::arch::{canonical_virt, lemma_canonical_virt, valid_virt};

verus! {

/// A section of the kernel map: a contiguous range of virtual addresses.
#[derive(Clone, Copy, PartialEq, Eq, Debug)]
pub struct KernelMapSection {
    /// The name of the section.
    pub name: &'static str,
    /// The start of the section.
    pub start: VirtAddr,
    /// The size of the section in bytes.
    pub size: u64,
}

/// The kernel map: its sections, in order.
#[derive(Debug)]
pub struct KernelMap {
    /// The sections.
    pub sections: Vec<KernelMapSection>,
}

/// How a section is declared: its name, its size as a number `count` of units of `unit` bytes,
/// and, if its start is aligned, the exponent of the alignment in bytes.
#[derive(Clone, Copy, PartialEq, Eq, Debug)]
pub struct SectionDecl {
    /// The name of the section.
    pub name: &'static str,
    /// The size, in units.
    pub count: u64,
    /// The size of a unit in bytes.
    pub unit: u64,
    /// The exponent of the alignment of the start, if aligned.
    pub align_log2: Option<u8>,
}

/// Places the section `d` at the cursor `c`: its start, its size, and the cursor after it, or
/// `None` when an address overflows or leaves the canonical halves.
///
/// An aligned section starts at the cursor rounded up to its alignment (truncated to a
/// canonical address) and has its size in bytes; the cursor then moves to the canonical form of
/// its end, plus the section's count once more. A section without alignment starts at the
/// cursor, has the count as its size, and the cursor moves by the size in bytes.
pub open spec fn place_section(c: u64, d: SectionDecl) -> Option<(u64, u64, u64)> {
    let bytes = d.count * d.unit;
    if bytes > u64::MAX {
        None
    } else {
        match d.align_log2 {
            Some(k) => {
                let a = (1u64 << k) as int;
                if k >= 64 || c + a - 1 > u64::MAX {
                    None
                } else {
                    let up = align_up_spec(c as int, a);
                    let start = canonical_virt(up as u64);
                    let after = up + bytes;
                    if start + bytes > u64::MAX || !valid_virt((start + bytes) as u64) || after > u64::MAX {
                        None
                    } else {
                        let t = canonical_virt(after as u64);
                        if t + d.count > u64::MAX || !valid_virt((t + d.count) as u64) {
                            None
                        } else {
                            Some((start, bytes as u64, (t + d.count) as u64))
                        }
                    }
                }
            },
            None => {
                if c + d.count > u64::MAX || !valid_virt((c + d.count) as u64) || c + bytes > u64::MAX
                    || !valid_virt((c + bytes) as u64) {
                    None
                } else {
                    Some((c, d.count, (c + bytes) as u64))
                }
            },
        }
    }
}

/// The starts and sizes of the sections `decls` placed one after another from the cursor `c`,
/// or `None` when one of them cannot be placed.
pub open spec fn layout_spec(c: u64, decls: Seq<SectionDecl>) -> Option<Seq<(u64, u64)>>
    decreases decls.len(),
{
    if decls.len() == 0 {
        Some(Seq::empty())
    } else {
        match place_section(c, decls[0]) {
            None => None,
            Some(p) => match layout_spec(p.2, decls.drop_first()) {
                None => None,
                Some(rest) => Some(seq![(p.0, p.1)] + rest),
            },
        }
    }
}

/// Places the section `d` at the cursor `c` (see `place_section`).
fn place(c: VirtAddr, d: SectionDecl) -> (r: Option<(VirtAddr, u64, VirtAddr)>)
    ensures
        match place_section(c@, d) {
            Some(p) => r matches Some(q) && q.0@ == p.0 && q.1 == p.1 && q.2@ == p.2,
            None => r is None,
        },
{
    let bytes = match d.count.checked_mul(d.unit) {
        Some(b) => b,
        None => return None,
    };
    match d.align_log2 {
        Some(k) => {
            if k >= 64 {
                return None;
            }
            let alignment = Alignment::from_log2(k as u64);
            let a = alignment.as_u64();
            let cv = c.as_u64();
            if cv > u64::MAX - (a - 1) {
                return None;
            }
            let rem = cv % a;
            proof {
                vstd::arithmetic::div_mod::lemma_mod_decreases(cv as nat, a as nat);
            }
            let up: u64 = if rem == 0 {
                cv
            } else {
                cv - rem + a
            };
            let start = VirtAddr::new_truncate(up);
            if start.checked_add(bytes).is_none() {
                return None;
            }
            let after = match up.checked_add(bytes) {
                Some(v) => v,
                None => return None,
            };
            let next = match VirtAddr::new_truncate(after).checked_add(d.count) {
                Some(n) => n,
                None => return None,
            };
            Some((start, bytes, next))
        },
        None => {
            if c.checked_add(d.count).is_none() {
                return None;
            }
            let next = match c.checked_add(bytes) {
                Some(n) => n,
                None => return None,
            };
            Some((c, d.count, next))
        },
    }
}

impl KernelMap {
    /// The sections `decls` placed one after another from `start` (see `layout_spec`), or
    /// `None` when one of them cannot be placed.
    pub fn layout(start: VirtAddr, decls: &Vec<SectionDecl>) -> (r: Option<KernelMap>)
        ensures
            match layout_spec(start@, decls@) {
                Some(placed) => r matches Some(m) && m.sections@.len() == decls@.len() && forall|k: int|
                    0 <= k < decls@.len() ==> {
                        &&& (#[trigger] m.sections@[k]).name == decls@[k].name
                        &&& m.sections@[k].start@ == placed[k].0
                        &&& m.sections@[k].size == placed[k].1
                    },
                None => r is None,
            },
    {
        let mut sections: Vec<KernelMapSection> = Vec::new();
        let mut cursor = start;
        let mut i: usize = 0;
        let ghost placed_so_far: Seq<(u64, u64)> = Seq::empty();
        proof {
            assert(decls@.skip(0) =~= decls@);
            match layout_spec(start@, decls@) {
                Some(rest) => {
                    assert(placed_so_far + rest =~= rest);
                },
                None => {},
            }
        }
        while i < decls.len()
            invariant
                i <= decls@.len(),
                sections@.len() == i,
                placed_so_far.len() == i,
                forall|k: int| 0 <= k < i ==> {
                    &&& (#[trigger] sections@[k]).name == decls@[k].name
                    &&& sections@[k].start@ == placed_so_far[k].0
                    &&& sections@[k].size == placed_so_far[k].1
                },
                layout_spec(start@, decls@) == match layout_spec(cursor@, decls@.skip(i as int)) {
                    None => None,
                    Some(rest) => Some(placed_so_far + rest),
                },
            decreases decls.len() - i,
        {
            let d = decls[i];
            let ghost tail = decls@.skip(i as int);
            assert(tail[0] == d);
            assert(tail.drop_first() =~= decls@.skip(i + 1));
            match place(cursor, d) {
                Some((s, size, next)) => {
                    sections.push(KernelMapSection { name: d.name, start: s, size });
                    proof {
                        let p = (s@, size);
                        match layout_spec(next@, decls@.skip(i + 1)) {
                            Some(rest) => {
                                assert(placed_so_far + (seq![p] + rest) =~= placed_so_far.push(p) + rest);
                            },
                            None => {},
                        }
                        placed_so_far = placed_so_far.push(p);
                    }
                    cursor = next;
                },
                None => {
                    return None;
                },
            }
            i += 1;
        }
        proof {
            assert(decls@.skip(i as int) =~= Seq::<SectionDecl>::empty());
            assert(placed_so_far + Seq::<(u64, u64)>::empty() =~= placed_so_far);
        }
        Some(KernelMap { sections })
    }
}

/// The declared sections of the kernel's address space, in order.
pub open spec fn kernel_section_decls() -> Seq<SectionDecl> {
    seq![
        SectionDecl { name: "NMM_MANAGED_RANGE", count: 8, unit: 0x4000_0000, align_log2: Some(30u8) },
        SectionDecl { name: "KERNEL_HEAP", count: 16, unit: 0x10_0000, align_log2: Some(21u8) },
        SectionDecl { name: "KERNEL_PHYS_MAP", count: 256, unit: 0x10_0000, align_log2: Some(21u8) },
        SectionDecl { name: "KERNEL_REMAP", count: 256, unit: 0x10_0000, align_log2: Some(21u8) },
        SectionDecl { name: "FRAMEBUFFER", count: 2, unit: 0x10_0000, align_log2: Some(21u8) },
        SectionDecl { name: "ADDRESS_SPACE_INFO", count: 4, unit: 0x400, align_log2: Some(12u8) },
    ]
}

/// Where the kernel map starts: 512 GiB into the higher half.
pub open spec fn kernel_map_start() -> u64 {
    0xFFFF_8080_0000_0000u64
}

/// The start and size of each kernel section, as `layout_spec` places them from
/// `kernel_map_start()`.
pub open spec fn kernel_placement() -> Seq<(u64, u64)> {
    seq![
        (0xFFFF_8080_0000_0000u64, 0x2_0000_0000u64),
        (0xFFFF_8082_0020_0000u64, 0x100_0000u64),
        (0xFFFF_8082_0140_0000u64, 0x1000_0000u64),
        (0xFFFF_8082_1160_0000u64, 0x1000_0000u64),
        (0xFFFF_8082_2180_0000u64, 0x20_0000u64),
        (0xFFFF_8082_21A0_1000u64, 0x1000u64),
    ]
}

/// Placing the kernel sections from the start of the kernel map succeeds, at the addresses of
/// `kernel_placement`.
pub proof fn lemma_kernel_layout()
    ensures
        layout_spec(kernel_map_start(), kernel_section_decls()) == Some(kernel_placement()),
{
    crate::arch::lemma_shift_constants();
    let d = kernel_section_decls();
    let c0: u64 = 0xFFFF_8080_0000_0000;
    let c1: u64 = 0xFFFF_8082_0000_0008;
    let c2: u64 = 0xFFFF_8082_0120_0010;
    let c3: u64 = 0xFFFF_8082_1140_0100;
    let c4: u64 = 0xFFFF_8082_2160_0100;
    let c5: u64 = 0xFFFF_8082_21A0_0002;
    let c6: u64 = 0xFFFF_8082_21A0_2004;
    // Every start and end below lies in the upper canonical half, so is its own canonical form.
    lemma_canonical_virt(0xFFFF_8080_0000_0000u64);
    lemma_canonical_virt(0xFFFF_8082_0000_0000u64);
    lemma_canonical_virt(0xFFFF_8082_0020_0000u64);
    lemma_canonical_virt(0xFFFF_8082_0120_0000u64);
    lemma_canonical_virt(0xFFFF_8082_0140_0000u64);
    lemma_canonical_virt(0xFFFF_8082_1140_0000u64);
    lemma_canonical_virt(0xFFFF_8082_1160_0000u64);
    lemma_canonical_virt(0xFFFF_8082_2160_0000u64);
    lemma_canonical_virt(0xFFFF_8082_2180_0000u64);
    lemma_canonical_virt(0xFFFF_8082_21A0_0000u64);
    lemma_canonical_virt(0xFFFF_8082_21A0_1000u64);
    lemma_canonical_virt(0xFFFF_8082_21A0_2000u64);
    assert(place_section(c0, d[0]) == Some((0xFFFF_8080_0000_0000u64, 0x2_0000_0000u64, c1))) by {
        assert(d[0].count == 8u64 && d[0].unit == 0x4000_0000u64 && d[0].align_log2 == Some(30u8));
        assert((1u64 << 30u8) as int == 0x4000_0000);
        assert(8u64 * 0x4000_0000u64 == 0x2_0000_0000u64);
        assert(c0 as int == 0x3_FFFE_0200int * 0x4000_0000int);
        vstd::arithmetic::div_mod::lemma_mod_multiples_basic(0x3_FFFE_0200int, 0x4000_0000int);
        assert(align_up_spec(c0 as int, 0x4000_0000) == 0xFFFF_8080_0000_0000u64);
    }
    assert(place_section(c1, d[1]) == Some((0xFFFF_8082_0020_0000u64, 0x100_0000u64, c2))) by {
        assert(d[1].count == 16u64 && d[1].unit == 0x10_0000u64 && d[1].align_log2 == Some(21u8));
        assert((1u64 << 21u8) as int == 0x20_0000);
        assert(16u64 * 0x10_0000u64 == 0x100_0000u64);
        assert(align_up_spec(c1 as int, 0x20_0000) == 0xFFFF_8082_0020_0000u64);
    }
    assert(place_section(c2, d[2]) == Some((0xFFFF_8082_0140_0000u64, 0x1000_0000u64, c3))) by {
        assert(d[2].count == 256u64 && d[2].unit == 0x10_0000u64 && d[2].align_log2 == Some(21u8));
        assert((1u64 << 21u8) as int == 0x20_0000);
        assert(256u64 * 0x10_0000u64 == 0x1000_0000u64);
        assert(align_up_spec(c2 as int, 0x20_0000) == 0xFFFF_8082_0140_0000u64);
    }
    assert(place_section(c3, d[3]) == Some((0xFFFF_8082_1160_0000u64, 0x1000_0000u64, c4))) by {
        assert(d[3].count == 256u64 && d[3].unit == 0x10_0000u64 && d[3].align_log2 == Some(21u8));
        assert((1u64 << 21u8) as int == 0x20_0000);
        assert(256u64 * 0x10_0000u64 == 0x1000_0000u64);
        assert(align_up_spec(c3 as int, 0x20_0000) == 0xFFFF_8082_1160_0000u64);
    }
    assert(place_section(c4, d[4]) == Some((0xFFFF_8082_2180_0000u64, 0x20_0000u64, c5))) by {
        assert(d[4].count == 2u64 && d[4].unit == 0x10_0000u64 && d[4].align_log2 == Some(21u8));
        assert((1u64 << 21u8) as int == 0x20_0000);
        assert(2u64 * 0x10_0000u64 == 0x20_0000u64);
        assert(align_up_spec(c4 as int, 0x20_0000) == 0xFFFF_8082_2180_0000u64);
    }
    assert(place_section(c5, d[5]) == Some((0xFFFF_8082_21A0_1000u64, 0x1000u64, c6))) by {
        assert(d[5].count == 4u64 && d[5].unit == 0x400u64 && d[5].align_log2 == Some(12u8));
        assert((1u64 << 12u8) as int == 0x1000);
        assert(4u64 * 0x400u64 == 0x1000u64);
        assert(align_up_spec(c5 as int, 0x1000) == 0xFFFF_8082_21A0_1000u64);
    }
    let t5 = d.drop_first().drop_first().drop_first().drop_first().drop_first();
    let t4 = d.drop_first().drop_first().drop_first().drop_first();
    let t3 = d.drop_first().drop_first().drop_first();
    let t2 = d.drop_first().drop_first();
    let t1 = d.drop_first();
    assert(t5.drop_first().len() == 0);
    assert(layout_spec(c6, t5.drop_first()) == Some(Seq::<(u64, u64)>::empty()));
    assert(layout_spec(c5, t5) == Some(kernel_placement().skip(5)));
    assert(layout_spec(c4, t4) == Some(kernel_placement().skip(4)));
    assert(layout_spec(c3, t3) == Some(kernel_placement().skip(3)));
    assert(layout_spec(c2, t2) == Some(kernel_placement().skip(2)));
    assert(layout_spec(c1, t1) == Some(kernel_placement().skip(1)));
    assert(kernel_placement().skip(0) =~= kernel_placement());
}

/// The declared sections of the kernel's address space, in order.
pub fn kernel_sections() -> (r: Vec<SectionDecl>)
    ensures
        r@ == kernel_section_decls(),
{
    let gib: u64 = 1024 * 1024 * 1024;
    let mib: u64 = 1024 * 1024;
    let kib: u64 = 1024;
    let r = vec![
        SectionDecl { name: "NMM_MANAGED_RANGE", count: 8, unit: gib, align_log2: Some(30) },
        SectionDecl { name: "KERNEL_HEAP", count: 16, unit: mib, align_log2: Some(21) },
        SectionDecl { name: "KERNEL_PHYS_MAP", count: 256, unit: mib, align_log2: Some(21) },
        SectionDecl { name: "KERNEL_REMAP", count: 256, unit: mib, align_log2: Some(21) },
        SectionDecl { name: "FRAMEBUFFER", count: 2, unit: mib, align_log2: Some(21) },
        SectionDecl { name: "ADDRESS_SPACE_INFO", count: 4, unit: kib, align_log2: Some(12) },
    ];
    assert(r@ =~= kernel_section_decls());
    r
}

/// The kernel map: the declared sections placed from 512 GiB into the higher half, which
/// always fit (see `kernel_placement`).
pub fn kernel_map() -> (r: Option<KernelMap>)
    ensures
        r matches Some(m) && m.sections@.len() == 6 && forall|k: int|
            0 <= k < 6 ==> {
                &&& (#[trigger] m.sections@[k]).name == kernel_section_decls()[k].name
                &&& m.sections@[k].start@ == kernel_placement()[k].0
                &&& m.sections@[k].size == kernel_placement()[k].1
            },
{
    proof {
        crate::arch::lemma_shift_constants();
    }
    let start = match VirtAddr::higher_half_start().checked_add(512 * 1024 * 1024 * 1024) {
        Some(s) => s,
        None => return None,
    };
    assert(start@ == kernel_map_start());
    let decls = kernel_sections();
    proof {
        lemma_kernel_layout();
    }
    KernelMap::layout(start, &decls)
}

} // verus!
