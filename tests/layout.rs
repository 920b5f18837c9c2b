use aerolattice::layout::{GeometryError, PanelLayout, SectionShape};

fn shape(panels: usize, conditions: usize) -> SectionShape {
    SectionShape { panels, conditions }
}

fn wing() -> PanelLayout {
    PanelLayout::new(&vec![shape(2, 2), shape(3, 3), shape(1, 1)]).unwrap()
}

#[test]
fn layout_counts_sections_and_panels() {
    let layout = wing();
    assert_eq!(layout.num_sections(), 3);
    assert_eq!(layout.num_panels(), 6);
    assert_eq!(layout.panel_count(1), 3);
}

#[test]
fn layout_rejects_no_sections() {
    assert_eq!(PanelLayout::new(&vec![]).err(), Some(GeometryError::NoSections));
}

#[test]
fn layout_rejects_mismatched_conditions() {
    let r = PanelLayout::new(&vec![shape(2, 2), shape(3, 2), shape(0, 0)]);
    assert_eq!(r.err(), Some(GeometryError::MismatchedConditions { section: 1 }));
}

#[test]
fn layout_rejects_empty_section() {
    let r = PanelLayout::new(&vec![shape(2, 2), shape(0, 0), shape(3, 1)]);
    assert_eq!(r.err(), Some(GeometryError::EmptySection { section: 1 }));
}

#[test]
fn layout_single_panel_is_accepted() {
    let layout = PanelLayout::new(&vec![shape(1, 1)]).unwrap();
    assert_eq!(layout.num_panels(), 1);
    assert_eq!(layout.locate(0), (0, 0));
}

#[test]
fn layout_section_starts() {
    let layout = wing();
    assert_eq!(layout.section_start(0), 0);
    assert_eq!(layout.section_start(1), 2);
    assert_eq!(layout.section_start(2), 5);
    assert_eq!(layout.section_start(3), 6);
}

#[test]
fn layout_flat_index_and_locate_agree() {
    let layout = wing();
    assert_eq!(layout.flat_index(0, 1), 1);
    assert_eq!(layout.flat_index(1, 0), 2);
    assert_eq!(layout.flat_index(2, 0), 5);
    for k in 0..layout.num_panels() {
        let (s, p) = layout.locate(k);
        assert_eq!(layout.flat_index(s, p), k);
    }
    assert_eq!(layout.locate(4), (1, 2));
}

#[test]
fn layout_section_owners_in_flattening_order() {
    assert_eq!(wing().section_owners(), vec![0, 0, 1, 1, 1, 2]);
}
