use virtual_branches::branch::VirtualBranch;
use virtual_branches::controller::Controller;
use virtual_branches::hunk::{Hunk, LineRange};
use virtual_branches::registry::{BranchCreateRequest, BranchUpdateRequest};

fn hunk(path: &str, start: u64, end: u64) -> Hunk {
    Hunk::new(path.to_string(), LineRange::new(start, end))
}

fn find(branches: &[VirtualBranch], id: u64) -> &VirtualBranch {
    branches.iter().find(|b| b.id == id).unwrap()
}

fn selecting(selected: Option<bool>) -> BranchCreateRequest {
    let mut req = BranchCreateRequest::new();
    req.selected_for_changes = selected;
    req
}

#[test]
fn unapplying_selected_branch_selects_anther() {
    let mut controller = Controller::new();
    let diff = vec![hunk("file one.txt", 1, 1)];

    // first branch should be created as default
    let b_id = controller.create_virtual_branch(BranchCreateRequest::default());
    // if default branch exists, new branch should not be created as default
    let b2_id = controller.create_virtual_branch(BranchCreateRequest::default());

    let (branches, _) = controller.list_virtual_branches(&diff);
    let b = find(&branches, b_id);
    let b2 = find(&branches, b2_id);
    assert!(b.selected_for_changes);
    assert!(!b2.selected_for_changes);

    controller.convert_to_real_branch(b_id).unwrap();

    let (branches, _) = controller.list_virtual_branches(&diff);
    assert_eq!(branches.len(), 1);
    assert_eq!(branches[0].id, b2_id);
    assert!(branches[0].selected_for_changes);
    assert!(branches[0].active);
}

#[test]
fn deleting_selected_branch_selects_anther() {
    let mut controller = Controller::new();

    let b_id = controller.create_virtual_branch(BranchCreateRequest::default());
    let b2_id = controller.create_virtual_branch(BranchCreateRequest::default());

    let (branches, _) = controller.list_virtual_branches(&vec![]);
    assert!(find(&branches, b_id).selected_for_changes);
    assert!(!find(&branches, b2_id).selected_for_changes);

    controller.delete_virtual_branch(b_id).unwrap();

    let (branches, _) = controller.list_virtual_branches(&vec![]);
    assert_eq!(branches.len(), 1);
    assert_eq!(branches[0].id, b2_id);
    assert!(branches[0].selected_for_changes);
    assert!(branches[0].active);
}

#[test]
fn create_virtual_branch_should_set_selected_for_changes() {
    let mut controller = Controller::new();

    // first branch should be created as default
    let b_id = controller.create_virtual_branch(BranchCreateRequest::default());
    let (branches, _) = controller.list_virtual_branches(&vec![]);
    assert!(find(&branches, b_id).selected_for_changes);

    // if default branch exists, new branch should not be created as default
    let b_id = controller.create_virtual_branch(BranchCreateRequest::default());
    let (branches, _) = controller.list_virtual_branches(&vec![]);
    assert!(!find(&branches, b_id).selected_for_changes);

    // explicitly don't make this one default
    let b_id = controller.create_virtual_branch(selecting(Some(false)));
    let (branches, _) = controller.list_virtual_branches(&vec![]);
    assert!(!find(&branches, b_id).selected_for_changes);

    // explicitly make this one default
    let b_id = controller.create_virtual_branch(selecting(Some(true)));
    let (branches, _) = controller.list_virtual_branches(&vec![]);
    assert!(find(&branches, b_id).selected_for_changes);
}

#[test]
fn update_virtual_branch_should_reset_selected_for_changes() {
    let mut controller = Controller::new();

    let b1_id = controller.create_virtual_branch(BranchCreateRequest::default());
    let (branches, _) = controller.list_virtual_branches(&vec![]);
    assert!(find(&branches, b1_id).selected_for_changes);

    let b2_id = controller.create_virtual_branch(BranchCreateRequest::default());
    let (branches, _) = controller.list_virtual_branches(&vec![]);
    assert!(!find(&branches, b2_id).selected_for_changes);

    let mut req = BranchUpdateRequest::new(b2_id);
    req.selected_for_changes = Some(true);
    controller.update_virtual_branch(req).unwrap();

    let (branches, _) = controller.list_virtual_branches(&vec![]);
    assert!(!find(&branches, b1_id).selected_for_changes);
    assert!(find(&branches, b2_id).selected_for_changes);
}

#[test]
fn unapply_virtual_branch_should_reset_selected_for_changes() {
    let mut controller = Controller::new();
    let diff = vec![hunk("file.txt", 1, 1)];

    let b1_id = controller.create_virtual_branch(BranchCreateRequest::default());
    let (branches, _) = controller.list_virtual_branches(&diff);
    assert!(find(&branches, b1_id).selected_for_changes);

    let b2_id = controller.create_virtual_branch(BranchCreateRequest::default());
    let (branches, _) = controller.list_virtual_branches(&diff);
    assert!(!find(&branches, b2_id).selected_for_changes);

    controller.convert_to_real_branch(b1_id).unwrap();

    assert!(controller
        .list_virtual_branches(&diff)
        .0
        .into_iter()
        .any(|b| b.selected_for_changes && b.id != b1_id))
}

#[test]
fn hunks_distribution() {
    let mut controller = Controller::new();
    controller.create_virtual_branch(BranchCreateRequest::default());

    let diff = vec![hunk("file.txt", 1, 1)];
    let (branches, _) = controller.list_virtual_branches(&diff);
    assert_eq!(branches[0].files().len(), 1);

    controller.create_virtual_branch(selecting(Some(true)));
    let diff = vec![hunk("file.txt", 1, 1), hunk("another_file.txt", 1, 1)];
    let (branches, _) = controller.list_virtual_branches(&diff);
    assert_eq!(branches[0].files().len(), 1);
    assert_eq!(branches[1].files().len(), 1);
    assert_eq!(branches[0].files(), vec!["file.txt".to_string()]);
    assert_eq!(branches[1].files(), vec!["another_file.txt".to_string()]);
}

#[test]
fn applying_first_branch() {
    let mut controller = Controller::new();
    controller.create_virtual_branch(BranchCreateRequest::default());

    let diff = vec![hunk("file.txt", 1, 1)];
    let (branches, _) = controller.list_virtual_branches(&diff);
    assert_eq!(branches.len(), 1);

    let unapplied_branch = controller.convert_to_real_branch(branches[0].id).unwrap();
    controller.create_virtual_branch_from_branch(unapplied_branch);

    let (branches, _) = controller.list_virtual_branches(&diff);
    assert_eq!(branches.len(), 1);
    assert!(branches[0].active);
    assert!(branches[0].selected_for_changes);
}

// A locked hunk must not drag along unrelated hunks of its file to its branch.
#[test]
fn new_locked_hunk_without_modifying_existing() {
    let mut controller = Controller::new();
    controller.create_virtual_branch(BranchCreateRequest::default());

    // modification 1, on the first line of a nine-line file
    let (branches, _) = controller.list_virtual_branches(&vec![hunk("file.txt", 1, 1)]);
    assert_eq!(branches[0].files().len(), 1);

    controller
        .create_commit(branches[0].id, "second commit".to_string())
        .expect("failed to create commit");

    let (branches, _) = controller.list_virtual_branches(&vec![]);
    assert_eq!(branches[0].files().len(), 0);
    assert_eq!(branches[0].commits.len(), 1);

    controller.create_virtual_branch(selecting(Some(true)));

    // modification 2, on the last line
    let (branches, _) = controller.list_virtual_branches(&vec![hunk("file.txt", 9, 9)]);
    assert_eq!(branches[0].files().len(), 0);
    assert_eq!(branches[1].files().len(), 1);

    // modification 3, on the first line again
    let diff = vec![hunk("file.txt", 1, 1), hunk("file.txt", 9, 9)];
    let (branches, _) = controller.list_virtual_branches(&diff);
    assert_eq!(branches[0].files().len(), 1);
    assert_eq!(branches[1].files().len(), 1);
}
