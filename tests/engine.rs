use virtual_branches::branch::{Commit, VirtualBranch};
use virtual_branches::controller::{Controller, Target};
use virtual_branches::credentials::{AuthKey, Credential, Helper, HttpsCredential, RemoteChoice, Scheme, SshCredential};
use virtual_branches::hunk::{Hunk, LineRange};
use virtual_branches::registry::{BranchCreateRequest, BranchError, BranchRef, BranchUpdateRequest, Registry};
use virtual_branches::resolver::{resolve, BranchClaims};

fn hunk(path: &str, start: u64, end: u64) -> Hunk {
    Hunk::new(path.to_string(), LineRange::new(start, end))
}

fn selecting(selected: Option<bool>) -> BranchCreateRequest {
    let mut req = BranchCreateRequest::new();
    req.selected_for_changes = selected;
    req
}

fn selected_count(branches: &[VirtualBranch]) -> usize {
    branches.iter().filter(|b| b.selected_for_changes).count()
}

#[test]
fn one_selected_whenever_a_branch_is_active() {
    let mut reg = Registry::new();
    assert_eq!(selected_count(&reg.list(false)), 0);
    let a = reg.create(BranchCreateRequest::new());
    assert_eq!(selected_count(&reg.list(false)), 1);
    let b = reg.create(selecting(Some(true)));
    assert_eq!(selected_count(&reg.list(false)), 1);
    let c = reg.create(selecting(Some(false)));
    assert_eq!(selected_count(&reg.list(false)), 1);
    reg.deactivate(b).unwrap();
    assert_eq!(selected_count(&reg.list(false)), 1);
    assert_eq!(selected_count(&reg.list(true)), 1);
    reg.delete(c).unwrap();
    assert_eq!(selected_count(&reg.list(false)), 1);
    reg.delete(a).unwrap();
    assert_eq!(selected_count(&reg.list(false)), 0);
    assert_eq!(reg.selected(), None);
}

#[test]
fn default_creation_selects_only_the_first() {
    let mut reg = Registry::new();
    let ids: Vec<u64> = (0..5).map(|_| reg.create(BranchCreateRequest::new())).collect();
    let branches = reg.list(false);
    assert_eq!(branches.len(), 5);
    for (i, b) in branches.iter().enumerate() {
        assert_eq!(b.id, ids[i]);
        assert_eq!(b.selected_for_changes, i == 0);
        assert!(b.active);
    }
    assert_eq!(reg.selected(), Some(ids[0]));
}

#[test]
fn default_name_is_given() {
    let mut reg = Registry::new();
    reg.create(BranchCreateRequest::new());
    let mut req = BranchCreateRequest::new();
    req.name = Some("feature".to_string());
    reg.create(req);
    let branches = reg.list(false);
    assert_eq!(branches[0].name, "Virtual branch");
    assert_eq!(branches[1].name, "feature");
}

#[test]
fn removing_selected_elects_most_recent() {
    let mut reg = Registry::new();
    let a = reg.create(BranchCreateRequest::new());
    let b = reg.create(BranchCreateRequest::new());
    let c = reg.create(BranchCreateRequest::new());
    reg.delete(a).unwrap();
    assert_eq!(reg.selected(), Some(c));
    let branches = reg.list(false);
    assert_eq!(branches.len(), 2);
    assert!(!branches[0].selected_for_changes);
    assert!(branches[1].selected_for_changes);

    reg.deactivate(c).unwrap();
    assert_eq!(reg.selected(), Some(b));
    let all = reg.list(true);
    assert_eq!(all.len(), 2);
    assert_eq!(all[1].id, c);
    assert!(!all[1].active);
    assert!(!all[1].selected_for_changes);

    reg.delete(b).unwrap();
    assert_eq!(reg.selected(), None);
    assert!(reg.list(false).is_empty());
    reg.delete(c).unwrap();
    assert!(reg.list(true).is_empty());
}

#[test]
fn removing_unselected_keeps_selection() {
    let mut reg = Registry::new();
    let a = reg.create(BranchCreateRequest::new());
    let b = reg.create(BranchCreateRequest::new());
    reg.deactivate(b).unwrap();
    assert_eq!(reg.selected(), Some(a));
}

#[test]
fn selecting_clears_every_other_flag() {
    let mut reg = Registry::new();
    let a = reg.create(BranchCreateRequest::new());
    let b = reg.create(BranchCreateRequest::new());
    let c = reg.create(BranchCreateRequest::new());
    let mut req = BranchUpdateRequest::new(c);
    req.selected_for_changes = Some(true);
    reg.update(req).unwrap();
    let branches = reg.list(false);
    assert_eq!(selected_count(&branches), 1);
    assert!(branches[2].selected_for_changes);
    assert_eq!(reg.selected(), Some(c));

    let mut req = BranchUpdateRequest::new(b);
    req.selected_for_changes = Some(true);
    reg.update(req).unwrap();
    let branches = reg.list(false);
    assert_eq!(selected_count(&branches), 1);
    assert!(branches[1].selected_for_changes);
    assert_eq!(branches[0].id, a);
}

#[test]
fn unselecting_hands_the_flag_on() {
    let mut reg = Registry::new();
    let a = reg.create(BranchCreateRequest::new());
    let mut req = BranchUpdateRequest::new(a);
    req.selected_for_changes = Some(false);
    reg.update(req).unwrap();
    // the only active branch stays selected
    assert_eq!(reg.selected(), Some(a));

    let b = reg.create(BranchCreateRequest::new());
    let mut req = BranchUpdateRequest::new(a);
    req.selected_for_changes = Some(false);
    reg.update(req).unwrap();
    assert_eq!(reg.selected(), Some(b));
}

#[test]
fn update_changes_name_and_ownership() {
    let mut reg = Registry::new();
    let a = reg.create(BranchCreateRequest::new());
    let mut req = BranchUpdateRequest::new(a);
    req.name = Some("renamed".to_string());
    req.ownership = Some(vec![hunk("f.rs", 2, 4)]);
    reg.update(req).unwrap();
    let branches = reg.list(false);
    assert_eq!(branches[0].name, "renamed");
    assert_eq!(branches[0].files(), vec!["f.rs".to_string()]);
    assert!(branches[0].selected_for_changes);
}

#[test]
fn unknown_ids_are_not_found() {
    let mut reg = Registry::new();
    reg.create(BranchCreateRequest::new());
    assert_eq!(reg.delete(42), Err(BranchError::NotFound));
    assert_eq!(reg.deactivate(42), Err(BranchError::NotFound));
    assert_eq!(reg.update(BranchUpdateRequest::new(42)), Err(BranchError::NotFound));
    assert_eq!(reg.commit(42, "m".to_string()), Err(BranchError::NotFound));
    assert!(reg.take(42).is_err());
    assert_eq!(reg.list(true).len(), 1);
}

#[test]
fn committing_nothing_is_refused() {
    let mut reg = Registry::new();
    let a = reg.create(BranchCreateRequest::new());
    assert_eq!(reg.commit(a, "empty".to_string()), Err(BranchError::NoChanges));
    assert!(reg.list(false)[0].commits.is_empty());
}

#[test]
fn commit_moves_ownership_into_locks() {
    let mut controller = Controller::new();
    let a = controller.create_virtual_branch(BranchCreateRequest::new());
    controller.list_virtual_branches(&vec![hunk("f", 1, 5)]);
    controller.create_commit(a, "first".to_string()).unwrap();
    controller.create_commit(a, "ignored".to_string()).unwrap_err();
    let (branches, _) = controller.list_virtual_branches(&vec![]);
    assert!(branches[0].ownership.is_empty());
    assert_eq!(branches[0].commits.len(), 1);
    assert_eq!(branches[0].commits[0].message, "first");
    let locks = branches[0].lock_surface();
    assert_eq!(locks.len(), 1);
    assert_eq!(locks[0].range, LineRange::new(1, 5));
    assert!(branches[0].selected_for_changes);
}

#[test]
fn locked_hunk_does_not_drag_unrelated_hunk() {
    let mut controller = Controller::new();
    let a = controller.create_virtual_branch(BranchCreateRequest::new());
    controller.list_virtual_branches(&vec![hunk("F", 1, 5)]);
    controller.create_commit(a, "lines one to five".to_string()).unwrap();
    let b = controller.create_virtual_branch(selecting(Some(true)));

    let diff = vec![hunk("F", 3, 3), hunk("F", 40, 40)];
    let (branches, _) = controller.list_virtual_branches(&diff);
    assert_eq!(branches[0].id, a);
    assert_eq!(branches[1].id, b);
    assert_eq!(branches[0].ownership.len(), 1);
    assert_eq!(branches[0].ownership[0].range, LineRange::new(3, 3));
    assert_eq!(branches[1].ownership.len(), 1);
    assert_eq!(branches[1].ownership[0].range, LineRange::new(40, 40));
}

#[test]
fn delete_auto_selected_leaves_other_selected() {
    let mut controller = Controller::new();
    let a = controller.create_virtual_branch(BranchCreateRequest::new());
    let b = controller.create_virtual_branch(BranchCreateRequest::new());
    controller.delete_virtual_branch(a).unwrap();
    let (branches, _) = controller.list_virtual_branches(&vec![]);
    assert_eq!(branches.len(), 1);
    assert_eq!(branches[0].id, b);
    assert!(branches[0].selected_for_changes);
    assert!(branches[0].active);
}

#[test]
fn reapplied_sole_branch_is_selected() {
    let mut controller = Controller::new();
    let c = controller.create_virtual_branch(BranchCreateRequest::new());
    controller.list_virtual_branches(&vec![hunk("a", 1, 2)]);
    controller.create_commit(c, "work".to_string()).unwrap();
    let reference = controller.convert_to_real_branch(c).unwrap();
    assert_eq!(reference.commits.len(), 1);
    assert!(controller.list_virtual_branches(&vec![]).0.is_empty());
    let d = controller.create_virtual_branch_from_branch(reference);
    assert_ne!(d, c);
    let (branches, _) = controller.list_virtual_branches(&vec![]);
    assert_eq!(branches.len(), 1);
    assert!(branches[0].active);
    assert!(branches[0].selected_for_changes);
    assert_eq!(branches[0].commits.len(), 1);
}

#[test]
fn applied_branch_is_unselected_beside_others() {
    let mut controller = Controller::new();
    let a = controller.create_virtual_branch(BranchCreateRequest::new());
    let reference = BranchRef { name: "remote-work".to_string(), commits: vec![] };
    let d = controller.create_virtual_branch_from_branch(reference);
    let (branches, _) = controller.list_virtual_branches(&vec![]);
    assert_eq!(branches[1].id, d);
    assert_eq!(branches[1].name, "remote-work");
    assert!(!branches[1].selected_for_changes);
    assert_eq!(controller.registry.selected(), Some(a));
}

#[test]
fn unapply_keeps_branch_parked() {
    let mut controller = Controller::new();
    let a = controller.create_virtual_branch(BranchCreateRequest::new());
    let b = controller.create_virtual_branch(BranchCreateRequest::new());
    controller.unapply_virtual_branch(a).unwrap();
    assert_eq!(controller.unapply_virtual_branch(a), Err(BranchError::NotFound));
    let all = controller.registry.list(true);
    assert_eq!(all.len(), 2);
    assert_eq!(all[0].id, b);
    assert!(all[0].selected_for_changes);
    assert_eq!(all[1].id, a);
    assert!(!all[1].active);
}

#[test]
fn set_target_drops_ownership() {
    let mut controller = Controller::new();
    controller.create_virtual_branch(BranchCreateRequest::new());
    controller.list_virtual_branches(&vec![hunk("x", 1, 1)]);
    controller.set_target(Target {
        branch: "refs/remotes/origin/master".to_string(),
        remote_url: "https://example.com/repo.git".to_string(),
        sha: "0123abcd".to_string(),
    });
    assert!(controller.registry.list(false)[0].ownership.is_empty());
    assert_eq!(controller.target.as_ref().unwrap().branch, "refs/remotes/origin/master");
}

#[test]
fn hunks_without_a_selected_branch_are_orphaned() {
    let owners = resolve(&vec![hunk("a", 1, 1)], &vec![], None);
    assert_eq!(owners, vec![None]);
}

#[test]
fn listing_without_branches_reports_orphans() {
    let mut controller = Controller::new();
    let (branches, orphans) = controller.list_virtual_branches(&vec![hunk("a", 1, 1), hunk("b", 2, 3)]);
    assert!(branches.is_empty());
    assert_eq!(orphans.len(), 2);
    assert_eq!(orphans[1].path, "b");
    controller.create_virtual_branch(BranchCreateRequest::new());
    let (branches, orphans) = controller.list_virtual_branches(&vec![hunk("a", 1, 1)]);
    assert!(orphans.is_empty());
    assert_eq!(branches[0].ownership.len(), 1);
}

#[test]
fn lock_beats_previous_owner_and_selection() {
    let claims = vec![
        BranchClaims { id: 7, locks: vec![], owned: vec![hunk("a", 10, 12), hunk("b", 1, 1)] },
        BranchClaims { id: 8, locks: vec![hunk("a", 12, 20)], owned: vec![] },
    ];
    let diff = vec![hunk("a", 10, 12), hunk("b", 1, 1), hunk("b", 2, 2), hunk("c", 12, 12)];
    let owners = resolve(&diff, &claims, Some(9));
    // overlaps the lock of 8 by one line; kept by 7; new; another file
    assert_eq!(owners, vec![Some(8), Some(7), Some(9), Some(9)]);
}

#[test]
fn first_locker_wins() {
    let claims = vec![
        BranchClaims { id: 1, locks: vec![hunk("a", 1, 3)], owned: vec![] },
        BranchClaims { id: 2, locks: vec![hunk("a", 3, 5)], owned: vec![] },
    ];
    assert_eq!(resolve(&vec![hunk("a", 3, 3)], &claims, None), vec![Some(1)]);
    assert_eq!(resolve(&vec![hunk("a", 4, 9)], &claims, None), vec![Some(2)]);
}

#[test]
fn overlap_is_inclusive() {
    assert!(LineRange::new(1, 5).overlaps(&LineRange::new(5, 9)));
    assert!(LineRange::new(5, 9).overlaps(&LineRange::new(1, 5)));
    assert!(!LineRange::new(1, 5).overlaps(&LineRange::new(6, 9)));
    assert!(LineRange::new(3, 3).overlaps(&LineRange::new(1, 5)));
    assert!(hunk("a", 1, 5).touches(&hunk("a", 2, 2)));
    assert!(!hunk("a", 1, 5).touches(&hunk("b", 2, 2)));
    assert!(hunk("a", 1, 5).same_as(&hunk("a", 1, 5)));
    assert!(!hunk("a", 1, 5).same_as(&hunk("a", 1, 6)));
}

#[test]
fn files_are_listed_once() {
    let branch = VirtualBranch {
        id: 0,
        name: "b".to_string(),
        active: true,
        selected_for_changes: true,
        ownership: vec![hunk("x", 1, 1), hunk("y", 3, 4), hunk("x", 9, 9)],
        commits: vec![Commit { message: "m".to_string(), changes: vec![hunk("z", 1, 1)] }],
    };
    assert_eq!(branch.files(), vec!["x".to_string(), "y".to_string()]);
    let copy = branch.duplicate();
    assert_eq!(copy.files(), vec!["x".to_string(), "y".to_string()]);
    assert_eq!(copy.lock_surface().len(), 1);
}

#[test]
fn file_remote_needs_no_credentials() {
    let r = Helper {}.help(Scheme::File, &AuthKey::GitCredentialsHelper, None);
    assert_eq!(r, vec![(RemoteChoice::Configured, vec![Credential::Noop])]);
}

#[test]
fn local_key_goes_over_ssh() {
    let key = AuthKey::Local { private_key_path: "/home/u/.ssh/id".to_string() };
    let want = vec![Credential::Ssh(SshCredential::Keyfile {
        key_path: "/home/u/.ssh/id".to_string(),
        passphrase: None,
    })];
    assert_eq!(Helper {}.help(Scheme::Ssh, &key, None), vec![(RemoteChoice::Configured, want.clone())]);
    assert_eq!(Helper {}.help(Scheme::Https, &key, None), vec![(RemoteChoice::AnonymousSsh, want)]);
}

#[test]
fn credential_helper_goes_over_https() {
    let key = AuthKey::GitCredentialsHelper;
    let answer = Some(("user".to_string(), "SECRET-REDACTED".to_string()));
    let want = vec![Credential::Https(HttpsCredential::CredentialHelper {
        username: "user".to_string(),
        password: "SECRET-REDACTED".to_string(),
    })];
    assert_eq!(Helper {}.help(Scheme::Https, &key, answer.clone()), vec![(RemoteChoice::Configured, want.clone())]);
    assert_eq!(Helper {}.help(Scheme::Ssh, &key, answer), vec![(RemoteChoice::AnonymousHttps, want)]);
    assert_eq!(Helper {}.help(Scheme::Https, &key, None), vec![(RemoteChoice::Configured, vec![])]);
}

#[test]
fn system_executable_needs_no_attempt() {
    assert!(Helper {}.help(Scheme::Https, &AuthKey::SystemExecutable, None).is_empty());
}
