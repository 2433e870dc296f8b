use nexus_rbd::joint::{count_free_ang_dofs, count_free_dofs, count_free_lin_dofs};
use nexus_rbd::space::Dimension;

#[test]
fn free_axis_counts() {
    assert_eq!(count_free_dofs(Dimension::Three, 0b101010), 3);
    assert_eq!(count_free_lin_dofs(Dimension::Three, 0b101010), 2);
    assert_eq!(count_free_ang_dofs(Dimension::Three, 0b101010), 1);
    assert_eq!(count_free_dofs(Dimension::Two, 0b110), 1);
    assert_eq!(count_free_dofs(Dimension::Three, 0xffff_ffff), 0);
    assert_eq!(count_free_dofs(Dimension::Two, 0), 3);
}
