use aerolattice::assembly::{influence_matrix, panel_vector, split_by_section};
use aerolattice::layout::{PanelLayout, SectionShape};

fn wing() -> PanelLayout {
    let shapes = vec![
        SectionShape { panels: 2, conditions: 2 },
        SectionShape { panels: 1, conditions: 1 },
        SectionShape { panels: 3, conditions: 3 },
    ];
    PanelLayout::new(&shapes).unwrap()
}

#[test]
fn influence_matrix_is_square_over_all_panels() {
    let layout = wing();
    let m = influence_matrix(&layout, |_s: usize, _p: usize, _t: usize, _q: usize| 0.0f64);
    assert_eq!(m.len(), 6);
    for row in &m {
        assert_eq!(row.len(), 6);
    }
}

#[test]
fn influence_matrix_entries_follow_flattening_order() {
    let layout = wing();
    let m = influence_matrix(&layout, |s: usize, p: usize, t: usize, q: usize| (s, p, t, q));
    assert_eq!(m[0][0], (0, 0, 0, 0));
    assert_eq!(m[1][2], (0, 1, 1, 0));
    assert_eq!(m[2][5], (1, 0, 2, 2));
    assert_eq!(m[5][3], (2, 2, 2, 0));
}

#[test]
fn influence_matrix_of_one_panel() {
    let layout = PanelLayout::new(&vec![SectionShape { panels: 1, conditions: 1 }]).unwrap();
    let m = influence_matrix(&layout, |_s: usize, _p: usize, _t: usize, _q: usize| -2.5f64);
    assert_eq!(m, vec![vec![-2.5]]);
}

#[test]
fn panel_vector_repeats_section_values() {
    let layout = wing();
    let v = panel_vector(&layout, &vec![-0.5f64, 1.0, 2.0]);
    assert_eq!(v, vec![-0.5, -0.5, 1.0, 2.0, 2.0, 2.0]);
}

#[test]
fn split_by_section_groups_panel_values() {
    let layout = wing();
    let runs = split_by_section(&layout, &vec![1, 2, 3, 4, 5, 6]);
    assert_eq!(runs, vec![vec![1, 2], vec![3], vec![4, 5, 6]]);
}

#[test]
fn split_then_sum_gives_sectional_totals() {
    let layout = wing();
    let circulation = vec![0.25f64, 0.5, 1.0, 0.125, 0.125, 0.25];
    let lift: Vec<f64> = split_by_section(&layout, &circulation)
        .iter()
        .map(|run| 2.0 * run.iter().sum::<f64>())
        .collect();
    assert_eq!(lift, vec![1.5, 2.0, 1.0]);
}
