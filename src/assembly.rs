//! Laying out the flow-tangency system over the flattened panel numbering:
//! the influence matrix, the per-panel right-hand side, and the regrouping
//! of per-panel results by section.

use vstd::prelude::*;
use crate::layout::{
    flat_position, is_panel, lemma_flat_position_bounds, lemma_flat_position_injective,
    lemma_owner_unique, lemma_panels_before_monotone, owns,
    panels_before, total_panels, PanelLayout,
};

verus! {

/// One row of the influence matrix: the entries that every panel `(t, q)`
/// contributes at the boundary-condition point of panel `(s, p)`.
fn influence_row<T, F: Fn(usize, usize, usize, usize) -> T>(
    layout: &PanelLayout,
    s: usize,
    p: usize,
    entry: &F,
) -> (r: Vec<T>)
    requires
        layout.wf(),
        is_panel(layout@, s as int, p as int),
        forall|t: usize, q: usize| is_panel(layout@, t as int, q as int)
            ==> #[trigger] entry.requires((s, p, t, q)),
    ensures
        r@.len() == total_panels(layout@),
        forall|t: int, q: int| is_panel(layout@, t, q)
            ==> entry.ensures((s, p, t as usize, q as usize), #[trigger] r@[flat_position(layout@, t, q)]),
{
    let mut row: Vec<T> = Vec::new();
    let sections = layout.num_sections();
    let mut t: usize = 0;
    while t < sections
        invariant
            layout.wf(),
            sections == layout@.len(),
            t <= sections,
            is_panel(layout@, s as int, p as int),
            forall|t: usize, q: usize| is_panel(layout@, t as int, q as int)
                ==> #[trigger] entry.requires((s, p, t, q)),
            row@.len() == panels_before(layout@, t as int),
            forall|u: int, q: int| 0 <= u < t && is_panel(layout@, u, q)
                ==> entry.ensures((s, p, u as usize, q as usize), #[trigger] row@[flat_position(layout@, u, q)]),
        decreases sections - t,
    {
        let count = layout.panel_count(t);
        let mut q: usize = 0;
        while q < count
            invariant
                layout.wf(),
                sections == layout@.len(),
                t < sections,
                count == layout@[t as int],
                q <= count,
                is_panel(layout@, s as int, p as int),
                forall|t: usize, q: usize| is_panel(layout@, t as int, q as int)
                    ==> #[trigger] entry.requires((s, p, t, q)),
                row@.len() == panels_before(layout@, t as int) + q,
                forall|u: int, v: int| (0 <= u < t && is_panel(layout@, u, v)) || (u == t && 0 <= v < q)
                    ==> entry.ensures((s, p, u as usize, v as usize), #[trigger] row@[flat_position(layout@, u, v)]),
            decreases count - q,
        {
            let value = entry(s, p, t, q);
            proof {
                lemma_flat_position_bounds(layout@, t as int, q as int);
            }
            row.push(value);
            proof {
                assert forall|u: int, v: int| (0 <= u < t && is_panel(layout@, u, v)) || (u == t && 0 <= v < q + 1)
                    implies entry.ensures((s, p, u as usize, v as usize), #[trigger] row@[flat_position(layout@, u, v)]) by {
                    lemma_flat_position_bounds(layout@, u, v);
                    if u < t {
                        lemma_panels_before_monotone(layout@, u + 1, t as int);
                    }
                    if flat_position(layout@, u, v) == flat_position(layout@, t as int, q as int) {
                        lemma_flat_position_injective(layout@, u, v, t as int, q as int);
                    }
                }
            }
            q = q + 1;
        }
        t = t + 1;
    }
    row
}

/// The square influence matrix of the lattice. Row `i` belongs to the panel
/// at position `i` of the flattened numbering and column `j` to the panel at
/// position `j`; the entry is what `entry(s, p, t, q)` gives for row panel
/// `(s, p)` and column panel `(t, q)`. With `N` panels in all, the result is
/// exactly `N` rows of `N` entries.
pub fn influence_matrix<T, F: Fn(usize, usize, usize, usize) -> T>(
    layout: &PanelLayout,
    entry: F,
) -> (r: Vec<Vec<T>>)
    requires
        layout.wf(),
        forall|s: usize, p: usize, t: usize, q: usize| is_panel(layout@, s as int, p as int) && is_panel(layout@, t as int, q as int)
            ==> #[trigger] entry.requires((s, p, t, q)),
    ensures
        r@.len() == total_panels(layout@),
        forall|i: int| 0 <= i < r@.len() ==> (#[trigger] r@[i])@.len() == total_panels(layout@),
        forall|s: int, p: int, t: int, q: int| is_panel(layout@, s, p) && is_panel(layout@, t, q)
            ==> entry.ensures(
                (s as usize, p as usize, t as usize, q as usize),
                #[trigger] r@[flat_position(layout@, s, p)]@[flat_position(layout@, t, q)],
            ),
{
    let mut rows: Vec<Vec<T>> = Vec::new();
    let sections = layout.num_sections();
    let mut s: usize = 0;
    while s < sections
        invariant
            layout.wf(),
            sections == layout@.len(),
            s <= sections,
            forall|s: usize, p: usize, t: usize, q: usize| is_panel(layout@, s as int, p as int) && is_panel(layout@, t as int, q as int)
                ==> #[trigger] entry.requires((s, p, t, q)),
            rows@.len() == panels_before(layout@, s as int),
            forall|i: int| 0 <= i < rows@.len() ==> (#[trigger] rows@[i])@.len() == total_panels(layout@),
            forall|u: int, v: int, t: int, q: int| 0 <= u < s && is_panel(layout@, u, v) && is_panel(layout@, t, q)
                ==> entry.ensures(
                    (u as usize, v as usize, t as usize, q as usize),
                    #[trigger] rows@[flat_position(layout@, u, v)]@[flat_position(layout@, t, q)],
                ),
        decreases sections - s,
    {
        let count = layout.panel_count(s);
        let mut p: usize = 0;
        while p < count
            invariant
                layout.wf(),
                sections == layout@.len(),
                s < sections,
                count == layout@[s as int],
                p <= count,
                forall|s: usize, p: usize, t: usize, q: usize| is_panel(layout@, s as int, p as int) && is_panel(layout@, t as int, q as int)
                    ==> #[trigger] entry.requires((s, p, t, q)),
                rows@.len() == panels_before(layout@, s as int) + p,
                forall|i: int| 0 <= i < rows@.len() ==> (#[trigger] rows@[i])@.len() == total_panels(layout@),
                forall|u: int, v: int, t: int, q: int|
                    ((0 <= u < s && is_panel(layout@, u, v)) || (u == s && 0 <= v < p)) && is_panel(layout@, t, q)
                    ==> entry.ensures(
                        (u as usize, v as usize, t as usize, q as usize),
                        #[trigger] rows@[flat_position(layout@, u, v)]@[flat_position(layout@, t, q)],
                    ),
            decreases count - p,
        {
            let row = influence_row(layout, s, p, &entry);
            proof {
                lemma_flat_position_bounds(layout@, s as int, p as int);
            }
            rows.push(row);
            proof {
                assert forall|u: int, v: int, t: int, q: int|
                    ((0 <= u < s && is_panel(layout@, u, v)) || (u == s && 0 <= v < p + 1)) && is_panel(layout@, t, q)
                    implies entry.ensures(
                        (u as usize, v as usize, t as usize, q as usize),
                        #[trigger] rows@[flat_position(layout@, u, v)]@[flat_position(layout@, t, q)],
                    ) by {
                    lemma_flat_position_bounds(layout@, u, v);
                    if u < s {
                        lemma_panels_before_monotone(layout@, u + 1, s as int);
                    }
                    if flat_position(layout@, u, v) == flat_position(layout@, s as int, p as int) {
                        lemma_flat_position_injective(layout@, u, v, s as int, p as int);
                    }
                }
            }
            p = p + 1;
        }
        s = s + 1;
    }
    rows
}

/// Spreads one value per section over that section's panels, in the
/// flattened numbering: every panel of section `s` gets `per_section[s]`.
pub fn panel_vector<T: Copy>(layout: &PanelLayout, per_section: &Vec<T>) -> (r: Vec<T>)
    requires
        layout.wf(),
        per_section@.len() == layout@.len(),
    ensures
        r@.len() == total_panels(layout@),
        forall|s: int, p: int| is_panel(layout@, s, p)
            ==> r@[#[trigger] flat_position(layout@, s, p)] == per_section@[s],
{
    let mut out: Vec<T> = Vec::new();
    let sections = layout.num_sections();
    let mut s: usize = 0;
    while s < sections
        invariant
            layout.wf(),
            sections == layout@.len(),
            per_section@.len() == sections,
            s <= sections,
            out@.len() == panels_before(layout@, s as int),
            forall|k: int| 0 <= k < out@.len() ==> owns_value(layout@, per_section@, k, #[trigger] out@[k]),
        decreases sections - s,
    {
        let count = layout.panel_count(s);
        let value = per_section[s];
        let mut p: usize = 0;
        while p < count
            invariant
                layout.wf(),
                sections == layout@.len(),
                per_section@.len() == sections,
                s < sections,
                count == layout@[s as int],
                value == per_section@[s as int],
                p <= count,
                out@.len() == panels_before(layout@, s as int) + p,
                forall|k: int| 0 <= k < out@.len() ==> owns_value(layout@, per_section@, k, #[trigger] out@[k]),
            decreases count - p,
        {
            proof {
                lemma_flat_position_bounds(layout@, s as int, p as int);
            }
            out.push(value);
            p = p + 1;
        }
        s = s + 1;
    }
    proof {
        assert forall|t: int, q: int| is_panel(layout@, t, q)
            implies out@[#[trigger] flat_position(layout@, t, q)] == per_section@[t] by {
            let k = flat_position(layout@, t, q);
            lemma_flat_position_bounds(layout@, t, q);
            let u = choose|u: int| owns(layout@, u, k) && per_section@[u] == out@[k];
            lemma_owner_unique(layout@, u, t, k);
        }
    }
    out
}

/// Position `k` lies in some section whose value is `value`.
spec fn owns_value<T>(counts: Seq<usize>, per_section: Seq<T>, k: int, value: T) -> bool {
    exists|u: int| owns(counts, u, k) && per_section[u] == value
}

/// Cuts a per-panel sequence into one run per section: run `s` holds the
/// values of section `s`'s panels, in order.
pub fn split_by_section<T: Copy>(layout: &PanelLayout, values: &Vec<T>) -> (r: Vec<Vec<T>>)
    requires
        layout.wf(),
        values@.len() == total_panels(layout@),
    ensures
        r@.len() == layout@.len(),
        forall|s: int| 0 <= s < r@.len() ==> (#[trigger] r@[s])@ == values@.subrange(
            panels_before(layout@, s),
            panels_before(layout@, s + 1),
        ),
{
    let mut runs: Vec<Vec<T>> = Vec::new();
    let sections = layout.num_sections();
    let n = values.len();
    let mut start: usize = 0;
    let mut s: usize = 0;
    while s < sections
        invariant
            layout.wf(),
            sections == layout@.len(),
            values@.len() == total_panels(layout@),
            n == values@.len(),
            s <= sections,
            start == panels_before(layout@, s as int),
            runs@.len() == s,
            forall|u: int| 0 <= u < s ==> (#[trigger] runs@[u])@ == values@.subrange(
                panels_before(layout@, u),
                panels_before(layout@, u + 1),
            ),
        decreases sections - s,
    {
        let count = layout.panel_count(s);
        proof {
            lemma_panels_before_monotone(layout@, s as int + 1, sections as int);
        }
        let mut run: Vec<T> = Vec::new();
        let mut p: usize = 0;
        while p < count
            invariant
                layout.wf(),
                sections == layout@.len(),
                values@.len() == total_panels(layout@),
                n == values@.len(),
                s < sections,
                count == layout@[s as int],
                start == panels_before(layout@, s as int),
                start + count <= values@.len(),
                p <= count,
                run@ == values@.subrange(start as int, start + p),
            decreases count - p,
        {
            run.push(values[start + p]);
            p = p + 1;
            assert(run@ =~= values@.subrange(start as int, start + p));
        }
        runs.push(run);
        start = start + count;
        s = s + 1;
    }
    runs
}

/// The numbering is shared: place `p` of section `s`'s run, as
/// `split_by_section` cuts it, holds the value at the panel's flattened
/// position, the position that `influence_matrix` and `panel_vector` give
/// to panel `(s, p)`. Each run is as long as the section has panels.
pub proof fn lemma_runs_follow_flat_position<T>(counts: Seq<usize>, values: Seq<T>, s: int, p: int)
    requires
        is_panel(counts, s, p),
        values.len() == total_panels(counts),
    ensures
        values.subrange(panels_before(counts, s), panels_before(counts, s + 1)).len() == counts[s],
        values.subrange(panels_before(counts, s), panels_before(counts, s + 1))[p]
            == values[flat_position(counts, s, p)],
{
    lemma_flat_position_bounds(counts, s, p);
    lemma_panels_before_monotone(counts, 0, s);
}

} // verus!
