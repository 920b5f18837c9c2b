//! Spanwise sections, each owning a run of chordwise panels, and the
//! flattening order (sections outer, panels inner) that numbers them.

use vstd::prelude::*;

verus! {

/// Number of panels in the sections before section `k`.
pub open spec fn panels_before(counts: Seq<usize>, k: int) -> int
    decreases k,
{
    if k <= 0 || counts.len() < k {
        0
    } else {
        panels_before(counts, k - 1) + counts[k - 1]
    }
}

/// Number of panels over all sections.
pub open spec fn total_panels(counts: Seq<usize>) -> int {
    panels_before(counts, counts.len() as int)
}

/// Whether `(s, p)` names panel `p` of section `s`.
pub open spec fn is_panel(counts: Seq<usize>, s: int, p: int) -> bool {
    0 <= s < counts.len() && 0 <= p < counts[s]
}

/// Position of panel `p` of section `s` in the flattened numbering.
pub open spec fn flat_position(counts: Seq<usize>, s: int, p: int) -> int {
    panels_before(counts, s) + p
}

/// Panels of the earlier sections never outnumber those of the later ones.
pub proof fn lemma_panels_before_monotone(counts: Seq<usize>, j: int, k: int)
    requires
        0 <= j <= k <= counts.len(),
    ensures
        panels_before(counts, j) <= panels_before(counts, k),
    decreases k - j,
{
    if j < k {
        lemma_panels_before_monotone(counts, j, k - 1);
    }
}

/// Every named panel has a position below the total, and the sections
/// occupy consecutive, disjoint runs of positions.
pub proof fn lemma_flat_position_bounds(counts: Seq<usize>, s: int, p: int)
    requires
        is_panel(counts, s, p),
    ensures
        panels_before(counts, s) <= flat_position(counts, s, p) < panels_before(counts, s + 1),
        panels_before(counts, s + 1) <= total_panels(counts),
        0 <= flat_position(counts, s, p) < total_panels(counts),
{
    lemma_panels_before_monotone(counts, 0, s);
    lemma_panels_before_monotone(counts, s + 1, counts.len() as int);
}

/// The flattened numbering is one to one: distinct panels get distinct positions.
pub proof fn lemma_flat_position_injective(counts: Seq<usize>, s: int, p: int, t: int, q: int)
    requires
        is_panel(counts, s, p),
        is_panel(counts, t, q),
        flat_position(counts, s, p) == flat_position(counts, t, q),
    ensures
        s == t,
        p == q,
{
    lemma_flat_position_bounds(counts, s, p);
    lemma_flat_position_bounds(counts, t, q);
    if s < t {
        lemma_panels_before_monotone(counts, s + 1, t);
    } else if t < s {
        lemma_panels_before_monotone(counts, t + 1, s);
    }
}

/// Whether position `k` of the flattened numbering falls in section `s`.
pub open spec fn owns(counts: Seq<usize>, s: int, k: int) -> bool {
    0 <= s < counts.len() && panels_before(counts, s) <= k < panels_before(counts, s + 1)
}

/// Each position falls in at most one section.
pub proof fn lemma_owner_unique(counts: Seq<usize>, s: int, t: int, k: int)
    requires
        owns(counts, s, k),
        owns(counts, t, k),
    ensures
        s == t,
{
    if s < t {
        lemma_panels_before_monotone(counts, s + 1, t);
    } else if t < s {
        lemma_panels_before_monotone(counts, t + 1, s);
    }
}

/// Shape of one section as handed over by the geometry: how many vortex
/// panels it holds and how many boundary-condition points go with them.
#[derive(Clone, Copy, Debug, PartialEq, Eq, Structural)]
pub struct SectionShape {
    pub panels: usize,
    pub conditions: usize,
}

/// Ways in which a set of section shapes cannot form a lattice.
#[derive(Clone, Copy, Debug, PartialEq, Eq, Structural)]
pub enum GeometryError {
    /// No section was given.
    NoSections,
    /// The section's panel and boundary-condition counts differ.
    MismatchedConditions { section: usize },
    /// The section holds no panel.
    EmptySection { section: usize },
}

/// Whether a section's shape is unusable.
pub open spec fn is_faulty(shape: SectionShape) -> bool {
    shape.panels != shape.conditions || shape.panels == 0
}

/// The panel counts of a list of section shapes.
pub open spec fn panel_counts(shapes: Seq<SectionShape>) -> Seq<usize> {
    shapes.map_values(|shape: SectionShape| shape.panels)
}

/// The error reported for the first faulty section `s`.
pub open spec fn fault_of(shape: SectionShape, s: usize) -> GeometryError {
    if shape.panels != shape.conditions {
        GeometryError::MismatchedConditions { section: s }
    } else {
        GeometryError::EmptySection { section: s }
    }
}

/// Panel counts of a checked, non-empty list of sections.
#[derive(Clone, Debug)]
pub struct PanelLayout {
    counts: Vec<usize>,
    total: usize,
}

impl View for PanelLayout {
    type V = Seq<usize>;

    /// The panel count of each section, in spanwise order.
    closed spec fn view(&self) -> Seq<usize> {
        self.counts@
    }
}

impl PanelLayout {
    /// At least one section, each with at least one panel.
    pub closed spec fn wf(&self) -> bool {
        &&& self.counts@.len() > 0
        &&& forall|i: int| 0 <= i < self.counts@.len() ==> self.counts@[i] > 0
        &&& self.total == total_panels(self.counts@)
    }

    /// Checks the section shapes and records their panel counts. The first
    /// section (in the given order) whose counts differ, or that holds no
    /// panel, is reported.
    pub fn new(shapes: &Vec<SectionShape>) -> (r: Result<PanelLayout, GeometryError>)
        requires
            total_panels(panel_counts(shapes@)) <= usize::MAX,
        ensures
            shapes@.len() == 0 ==> r == Err::<PanelLayout, GeometryError>(GeometryError::NoSections),
            (shapes@.len() > 0 && forall|i: int| 0 <= i < shapes@.len() ==> !is_faulty(#[trigger] shapes@[i]))
                <==> r is Ok,
            r matches Ok(l) ==> l.wf() && l@ == panel_counts(shapes@),
            r matches Err(e) ==> shapes@.len() == 0 || exists|s: usize|
                s < shapes@.len()
                && is_faulty(#[trigger] shapes@[s as int])
                && (forall|j: int| 0 <= j < s ==> !is_faulty(#[trigger] shapes@[j]))
                && e == fault_of(shapes@[s as int], s),
    {
        if shapes.len() == 0 {
            return Err(GeometryError::NoSections);
        }
        let ghost target = panel_counts(shapes@);
        let mut counts: Vec<usize> = Vec::new();
        let mut total: usize = 0;
        let mut i: usize = 0;
        while i < shapes.len()
            invariant
                i <= shapes@.len(),
                target == panel_counts(shapes@),
                target.len() == shapes@.len(),
                total_panels(target) <= usize::MAX,
                counts@ == target.subrange(0, i as int),
                total == panels_before(target, i as int),
                forall|j: int| 0 <= j < i ==> !is_faulty(#[trigger] shapes@[j]),
            decreases shapes@.len() - i,
        {
            let shape = shapes[i];
            if shape.panels != shape.conditions {
                return Err(GeometryError::MismatchedConditions { section: i });
            }
            if shape.panels == 0 {
                return Err(GeometryError::EmptySection { section: i });
            }
            proof {
                lemma_panels_before_monotone(target, i as int + 1, target.len() as int);
            }
            total = total + shape.panels;
            counts.push(shape.panels);
            i = i + 1;
            assert(counts@ =~= target.subrange(0, i as int));
        }
        assert(counts@ =~= target);
        Ok(PanelLayout { counts, total })
    }

    /// Number of sections.
    pub fn num_sections(&self) -> (r: usize)
        ensures
            r == self@.len(),
    {
        self.counts.len()
    }

    /// Number of panels over all sections.
    pub fn num_panels(&self) -> (r: usize)
        requires
            self.wf(),
        ensures
            r == total_panels(self@),
            r > 0,
    {
        proof {
            lemma_flat_position_bounds(self@, 0, 0);
        }
        self.total
    }

    /// Number of panels in section `s`.
    pub fn panel_count(&self, s: usize) -> (r: usize)
        requires
            s < self@.len(),
        ensures
            r == self@[s as int],
    {
        self.counts[s]
    }

    /// Position of the first panel of section `s` (for `s` equal to the
    /// number of sections: the total panel count).
    pub fn section_start(&self, s: usize) -> (r: usize)
        requires
            self.wf(),
            s <= self@.len(),
        ensures
            r == panels_before(self@, s as int),
    {
        let mut acc: usize = 0;
        let mut i: usize = 0;
        while i < s
            invariant
                self.wf(),
                s <= self@.len(),
                i <= s,
                acc == panels_before(self@, i as int),
            decreases s - i,
        {
            proof {
                lemma_panels_before_monotone(self@, i as int + 1, self@.len() as int);
            }
            acc = acc + self.counts[i];
            i = i + 1;
        }
        acc
    }

    /// Position of panel `p` of section `s` in the flattened numbering.
    pub fn flat_index(&self, s: usize, p: usize) -> (r: usize)
        requires
            self.wf(),
            is_panel(self@, s as int, p as int),
        ensures
            r == flat_position(self@, s as int, p as int),
            r < total_panels(self@),
    {
        proof {
            lemma_flat_position_bounds(self@, s as int, p as int);
        }
        self.section_start(s) + p
    }

    /// The section and panel at position `k` of the flattened numbering.
    pub fn locate(&self, k: usize) -> (r: (usize, usize))
        requires
            self.wf(),
            k < total_panels(self@),
        ensures
            is_panel(self@, r.0 as int, r.1 as int),
            flat_position(self@, r.0 as int, r.1 as int) == k,
    {
        let mut start: usize = 0;
        let mut s: usize = 0;
        let n = self.counts.len();
        proof {
            lemma_panels_before_monotone(self@, 1, self@.len() as int);
        }
        while k >= start + self.counts[s]
            invariant
                n == self@.len(),
                self.wf(),
                k < total_panels(self@),
                s < self@.len(),
                start == panels_before(self@, s as int),
                start <= k,
                panels_before(self@, s as int + 1) <= total_panels(self@),
            decreases self@.len() - s,
        {
            start = start + self.counts[s];
            s = s + 1;
            proof {
                if s == self@.len() {
                    assert(false);
                }
                lemma_panels_before_monotone(self@, s as int + 1, self@.len() as int);
            }
        }
        (s, k - start)
    }

    /// The owning section of every panel, in the flattened numbering.
    pub fn section_owners(&self) -> (r: Vec<usize>)
        requires
            self.wf(),
        ensures
            r@.len() == total_panels(self@),
            forall|k: int| 0 <= k < r@.len() ==> owns(self@, #[trigger] r@[k] as int, k),
            forall|s: int, p: int| is_panel(self@, s, p)
                ==> r@[#[trigger] flat_position(self@, s, p)] == s,
    {
        let mut owners: Vec<usize> = Vec::new();
        let mut s: usize = 0;
        while s < self.counts.len()
            invariant
                self.wf(),
                s <= self@.len(),
                owners@.len() == panels_before(self@, s as int),
                forall|k: int| 0 <= k < owners@.len() ==> owns(self@, #[trigger] owners@[k] as int, k),
            decreases self@.len() - s,
        {
            let count = self.counts[s];
            let mut p: usize = 0;
            while p < count
                invariant
                    self.wf(),
                    s < self@.len(),
                    count == self@[s as int],
                    p <= count,
                    owners@.len() == panels_before(self@, s as int) + p,
                    forall|k: int| 0 <= k < owners@.len() ==> owns(self@, #[trigger] owners@[k] as int, k),
                decreases count - p,
            {
                proof {
                    lemma_flat_position_bounds(self@, s as int, p as int);
                }
                owners.push(s);
                p = p + 1;
            }
            s = s + 1;
        }
        proof {
            assert forall|t: int, q: int| is_panel(self@, t, q) implies
                owners@[#[trigger] flat_position(self@, t, q)] == t by {
                let k = flat_position(self@, t, q);
                lemma_flat_position_bounds(self@, t, q);
                lemma_owner_unique(self@, owners@[k] as int, t, k);
            }
        }
        owners
    }
}

} // verus!
