use bintray_resource::reconcile::{reconcile, Operation, ReconciliationPlan, Upload};

fn strings(items: &[&str]) -> Vec<String> {
    items.iter().map(|s| s.to_string()).collect()
}

fn remotes(plan: &ReconciliationPlan) -> Vec<String> {
    plan.to_upload.iter().map(|u| u.remote.clone()).collect()
}

#[test]
fn orphans_are_deleted() {
    let remote = strings(&["a.txt", "b.txt", "c.txt"]);
    let local = strings(&["a.txt", "d.txt"]);
    let plan = reconcile(&remote, &local, "", false);
    assert_eq!(plan.to_delete, strings(&["b.txt", "c.txt"]));
    assert_eq!(remotes(&plan), strings(&["a.txt", "d.txt"]));
}

#[test]
fn keeping_existing_files_deletes_nothing() {
    let remote = strings(&["a.txt", "b.txt", "c.txt"]);
    let local = strings(&["a.txt", "d.txt"]);
    let plan = reconcile(&remote, &local, "", true);
    assert_eq!(plan.to_delete, Vec::<String>::new());
    assert_eq!(remotes(&plan), strings(&["a.txt", "d.txt"]));
}

#[test]
fn second_run_deletes_nothing() {
    let local = strings(&["a.txt", "d.txt"]);
    let first = reconcile(&strings(&["a.txt", "b.txt", "c.txt"]), &local, "rel/1", false);
    let mut after: Vec<String> = strings(&["a.txt", "b.txt", "c.txt"])
        .into_iter()
        .filter(|path| !first.to_delete.contains(path))
        .collect();
    after.extend(remotes(&first));
    let second = reconcile(&after, &local, "rel/1", false);
    assert_eq!(second.to_delete, Vec::<String>::new());
    assert_eq!(second.to_upload, first.to_upload);
}

#[test]
fn every_local_file_is_uploaded_under_the_prefix() {
    let local = strings(&["pkg/a.deb", "./b.deb"]);
    let plan = reconcile(&Vec::new(), &local, "/release/1.0/", false);
    assert_eq!(
        plan.to_upload,
        vec![
            Upload { local: "pkg/a.deb".to_string(), remote: "release/1.0/pkg/a.deb".to_string() },
            Upload { local: "./b.deb".to_string(), remote: "release/1.0/b.deb".to_string() },
        ]
    );
    assert_eq!(plan.to_delete, Vec::<String>::new());
}

#[test]
fn remote_entries_compare_by_normal_form() {
    let remote = strings(&["/release/1.0//a.txt", "release/1.0/./old.txt", "release/1.0/sub/../b.txt"]);
    let local = strings(&["a.txt", "b.txt"]);
    let plan = reconcile(&remote, &local, "release/1.0", false);
    assert_eq!(plan.to_delete, strings(&["release/1.0/./old.txt"]));
}

#[test]
fn without_local_files_everything_remote_is_orphaned() {
    let remote = strings(&["a.txt", "b.txt"]);
    let plan = reconcile(&remote, &Vec::new(), "p", false);
    assert_eq!(plan.to_upload, Vec::<Upload>::new());
    assert_eq!(plan.to_delete, remote);
    let kept = reconcile(&remote, &Vec::new(), "p", true);
    assert_eq!(kept.to_delete, Vec::<String>::new());
}

#[test]
fn plan_parts_are_disjoint() {
    let remote = strings(&["x/a", "x/b", "x/c", "y/a"]);
    let local = strings(&["a", "c", "e"]);
    let plan = reconcile(&remote, &local, "x", false);
    for gone in plan.to_delete.iter() {
        for upload in plan.to_upload.iter() {
            assert_ne!(gone, &upload.remote);
        }
    }
    assert_eq!(plan.to_delete, strings(&["x/b", "y/a"]));
}

#[test]
fn uploads_come_before_deletions() {
    let plan = reconcile(&strings(&["old.txt", "a.txt"]), &strings(&["a.txt", "b.txt"]), "", false);
    assert_eq!(
        plan.operations(),
        vec![
            Operation::Upload { local: "a.txt".to_string(), remote: "a.txt".to_string() },
            Operation::Upload { local: "b.txt".to_string(), remote: "b.txt".to_string() },
            Operation::Delete { remote: "old.txt".to_string() },
        ]
    );
}

#[test]
fn empty_plan_has_no_operation() {
    let plan = reconcile(&Vec::new(), &Vec::new(), "", false);
    assert_eq!(plan.operations(), Vec::<Operation>::new());
}
