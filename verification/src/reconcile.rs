//! Reconciliation of the local file set with the content that a remote
//! version already holds: which files to upload, and which remote entries
//! are orphaned by that and are to be deleted.

use vstd::prelude::*;
use crate::path::{
    lemma_normalized_is_normal,
    normalize_path,
    normalized,
    remote_target,
    remote_target_of,
    rooted,
    same_path,
};

verus! {

/// One file to upload: where it is, and where it goes.
#[derive(Debug, Clone, PartialEq, Eq)]
pub struct Upload {
    /// The local path, as it was found.
    pub local: String,
    /// The remote path, in normal form.
    pub remote: String,
}

/// The model of an `Upload`.
pub struct UploadView {
    pub local: Seq<char>,
    pub remote: Seq<char>,
}

impl DeepView for Upload {
    type V = UploadView;

    open spec fn deep_view(&self) -> UploadView {
        UploadView { local: self.local@, remote: self.remote@ }
    }
}

/// What a run is to do to the remote version.
#[derive(Debug, Clone, PartialEq, Eq)]
pub struct ReconciliationPlan {
    /// Every local file, in the order in which the files were found.
    pub to_upload: Vec<Upload>,
    /// The orphaned remote entries, in the order of the remote listing.
    pub to_delete: Vec<String>,
}

/// One step of carrying a plan out.
#[derive(Debug, Clone, PartialEq, Eq)]
pub enum Operation {
    /// Upload the local file to the remote path.
    Upload { local: String, remote: String },
    /// Delete the remote entry.
    Delete { remote: String },
}

/// The model of an `Operation`.
pub enum OperationView {
    Upload { local: Seq<char>, remote: Seq<char> },
    Delete { remote: Seq<char> },
}

impl DeepView for Operation {
    type V = OperationView;

    open spec fn deep_view(&self) -> OperationView {
        match self {
            Operation::Upload { local, remote } => OperationView::Upload {
                local: local@,
                remote: remote@,
            },
            Operation::Delete { remote } => OperationView::Delete { remote: remote@ },
        }
    }
}

/// The uploads that `locals` come to under `prefix`: each file with its
/// remote path, which is the prefix followed by the file's own path.
pub open spec fn uploads(prefix: Seq<char>, locals: Seq<Seq<char>>) -> Seq<UploadView> {
    locals.map_values(|local: Seq<char>| UploadView { local, remote: remote_target(prefix, local) })
}

/// The remote paths of `uploads`.
pub open spec fn targets(uploads: Seq<UploadView>) -> Seq<Seq<char>> {
    uploads.map_values(|upload: UploadView| upload.remote)
}

/// `path` names the same remote object as one of `targets`.
pub open spec fn is_target(path: Seq<char>, targets: Seq<Seq<char>>) -> bool {
    exists|i: int| 0 <= i < targets.len() && same_path(path, #[trigger] targets[i])
}

/// The entries of `remote` that are no target, in their order.
pub open spec fn orphans(remote: Seq<Seq<char>>, targets: Seq<Seq<char>>) -> Seq<Seq<char>>
    decreases remote.len(),
{
    if remote.len() == 0 {
        Seq::empty()
    } else {
        let before = orphans(remote.drop_last(), targets);
        if is_target(remote.last(), targets) {
            before
        } else {
            before.push(remote.last())
        }
    }
}

/// The entries of `remote` that are a target, in their order.
pub open spec fn retained(remote: Seq<Seq<char>>, targets: Seq<Seq<char>>) -> Seq<Seq<char>>
    decreases remote.len(),
{
    if remote.len() == 0 {
        Seq::empty()
    } else {
        let before = retained(remote.drop_last(), targets);
        if is_target(remote.last(), targets) {
            before.push(remote.last())
        } else {
            before
        }
    }
}

/// What is to be deleted: the orphans, or nothing where existing files are kept.
pub open spec fn deletions(
    remote: Seq<Seq<char>>,
    targets: Seq<Seq<char>>,
    keep_existing: bool,
) -> Seq<Seq<char>> {
    if keep_existing {
        Seq::empty()
    } else {
        orphans(remote, targets)
    }
}

/// What a run deletes, given the remote listing, the prefix, the local files
/// and the switch.
pub open spec fn planned_deletions(
    remote: Seq<Seq<char>>,
    prefix: Seq<char>,
    locals: Seq<Seq<char>>,
    keep_existing: bool,
) -> Seq<Seq<char>> {
    deletions(remote, targets(uploads(prefix, locals)), keep_existing)
}

/// What the remote version holds once a plan for `remote` and `targets` has
/// been carried out in full: the entries that were not deleted, and the
/// uploaded files.
pub open spec fn content_after(
    remote: Seq<Seq<char>>,
    targets: Seq<Seq<char>>,
    keep_existing: bool,
) -> Seq<Seq<char>> {
    if keep_existing {
        remote + targets
    } else {
        retained(remote, targets) + targets
    }
}

/// The steps of a plan in the order in which they are carried out: every
/// upload, then every deletion.
pub open spec fn steps(uploads: Seq<UploadView>, deletions: Seq<Seq<char>>) -> Seq<OperationView> {
    uploads.map_values(
        |upload: UploadView| OperationView::Upload { local: upload.local, remote: upload.remote },
    ) + deletions.map_values(|remote: Seq<char>| OperationView::Delete { remote })
}

/// Two paths name the same remote object exactly if their normal forms are equal.
pub proof fn lemma_same_path(a: Seq<char>, b: Seq<char>)
    ensures
        same_path(a, b) <==> normalized(a) == normalized(b),
        same_path(a, a),
        same_path(normalized(a), a),
{
    if rooted(a) == rooted(b) {
        assert(rooted(a).skip(1) =~= normalized(a));
        assert(rooted(b).skip(1) =~= normalized(b));
    }
    lemma_normalized_is_normal(a);
}

/// An orphan is an entry of the remote listing and is no target; an entry of
/// the remote listing that is no target is an orphan.
pub proof fn lemma_orphans(remote: Seq<Seq<char>>, targets: Seq<Seq<char>>)
    ensures
        forall|k: int|
            0 <= k < orphans(remote, targets).len() ==> {
                let orphan = #[trigger] orphans(remote, targets)[k];
                remote.contains(orphan) && !is_target(orphan, targets)
            },
        forall|i: int|
            0 <= i < remote.len() && !is_target(#[trigger] remote[i], targets) ==> orphans(
                remote,
                targets,
            ).contains(remote[i]),
        orphans(remote, targets).len() <= remote.len(),
    decreases remote.len(),
{
    if remote.len() > 0 {
        let init = remote.drop_last();
        let last = remote.last();
        lemma_orphans(init, targets);
        let before = orphans(init, targets);
        let all = orphans(remote, targets);
        assert forall|k: int| 0 <= k < all.len() implies {
            let orphan = #[trigger] all[k];
            remote.contains(orphan) && !is_target(orphan, targets)
        } by {
            if k < before.len() {
                assert(all[k] == before[k]);
                let j = choose|j: int| 0 <= j < init.len() && init[j] == before[k];
                assert(remote[j] == before[k]);
            } else {
                assert(all[k] == last);
                assert(remote[remote.len() - 1] == last);
            }
        }
        assert forall|i: int|
            0 <= i < remote.len() && !is_target(#[trigger] remote[i], targets) implies all.contains(
            remote[i],
        ) by {
            if i < init.len() {
                assert(init[i] == remote[i]);
                let k = choose|k: int| 0 <= k < before.len() && before[k] == init[i];
                assert(all[k] == remote[i]);
            } else {
                assert(all[all.len() - 1] == remote[i]);
            }
        }
    }
}

/// The two parts of a plan are disjoint: no entry to delete names the same
/// remote object as the remote path of an upload.
pub proof fn lemma_plan_disjoint(
    remote: Seq<Seq<char>>,
    prefix: Seq<char>,
    locals: Seq<Seq<char>>,
    keep_existing: bool,
)
    ensures
        forall|k: int, i: int|
            0 <= k < planned_deletions(remote, prefix, locals, keep_existing).len() && 0 <= i
                < locals.len() ==> !same_path(
                #[trigger] planned_deletions(remote, prefix, locals, keep_existing)[k],
                (#[trigger] uploads(prefix, locals)[i]).remote,
            ),
{
    let ts = targets(uploads(prefix, locals));
    let gone = planned_deletions(remote, prefix, locals, keep_existing);
    lemma_orphans(remote, ts);
    assert forall|k: int, i: int| 0 <= k < gone.len() && 0 <= i < locals.len() implies !same_path(
        #[trigger] gone[k],
        (#[trigger] uploads(prefix, locals)[i]).remote,
    ) by {
        let orphan = orphans(remote, ts)[k];
        assert(!is_target(orphan, ts));
        assert(ts[i] == uploads(prefix, locals)[i].remote);
    }
}

/// Where every entry of the remote listing is a target, nothing is orphaned.
pub proof fn lemma_no_orphans(remote: Seq<Seq<char>>, targets: Seq<Seq<char>>)
    requires
        forall|i: int| 0 <= i < remote.len() ==> is_target(#[trigger] remote[i], targets),
    ensures
        orphans(remote, targets) == Seq::<Seq<char>>::empty(),
    decreases remote.len(),
{
    if remote.len() > 0 {
        let init = remote.drop_last();
        assert forall|i: int| 0 <= i < init.len() implies is_target(#[trigger] init[i], targets) by {
            assert(init[i] == remote[i]);
        }
        lemma_no_orphans(init, targets);
        assert(is_target(remote[remote.len() - 1], targets));
    }
}

/// Every retained entry is a target.
pub proof fn lemma_retained(remote: Seq<Seq<char>>, targets: Seq<Seq<char>>)
    ensures
        forall|k: int|
            0 <= k < retained(remote, targets).len() ==> is_target(
                #[trigger] retained(remote, targets)[k],
                targets,
            ),
    decreases remote.len(),
{
    if remote.len() > 0 {
        let before = retained(remote.drop_last(), targets);
        let all = retained(remote, targets);
        lemma_retained(remote.drop_last(), targets);
        assert forall|k: int| 0 <= k < all.len() implies is_target(#[trigger] all[k], targets) by {
            if k < before.len() {
                assert(all[k] == before[k]);
            } else {
                assert(all[k] == remote.last());
            }
        }
    }
}

/// Running twice deletes nothing the second time: once a plan has been
/// carried out, the plan for the same local files, prefix and switch against
/// the resulting remote content has no deletion. After a run that did not
/// keep existing files this holds whatever the switch of the second run.
pub proof fn lemma_second_run_deletes_nothing(
    remote: Seq<Seq<char>>,
    prefix: Seq<char>,
    locals: Seq<Seq<char>>,
    keep_existing: bool,
)
    ensures
        planned_deletions(
            content_after(remote, targets(uploads(prefix, locals)), keep_existing),
            prefix,
            locals,
            keep_existing,
        ) == Seq::<Seq<char>>::empty(),
        planned_deletions(
            content_after(remote, targets(uploads(prefix, locals)), false),
            prefix,
            locals,
            keep_existing,
        ) == Seq::<Seq<char>>::empty(),
{
    let ts = targets(uploads(prefix, locals));
    let after = content_after(remote, ts, false);
    lemma_retained(remote, ts);
    assert forall|i: int| 0 <= i < after.len() implies is_target(#[trigger] after[i], ts) by {
        let kept = retained(remote, ts);
        if i < kept.len() {
            assert(after[i] == kept[i]);
        } else {
            let j = i - kept.len();
            assert(after[i] == ts[j]);
            lemma_same_path(ts[j], ts[j]);
        }
    }
    lemma_no_orphans(after, ts);
}

fn is_upload_target(normal: &String, uploads: &Vec<Upload>) -> (r: bool)
    requires
        normalized(normal@) == normal@,
        forall|i: int|
            0 <= i < uploads.len() ==> normalized(#[trigger] uploads[i].remote@)
                == uploads[i].remote@,
    ensures
        r == is_target(normal@, targets(uploads.deep_view())),
{
    let ghost ts = targets(uploads.deep_view());
    let mut i: usize = 0;
    while i < uploads.len()
        invariant
            i <= uploads.len(),
            ts == targets(uploads.deep_view()),
            normalized(normal@) == normal@,
            forall|j: int|
                0 <= j < uploads.len() ==> normalized(#[trigger] uploads[j].remote@)
                    == uploads[j].remote@,
            forall|j: int| 0 <= j < i ==> !same_path(normal@, #[trigger] ts[j]),
        decreases uploads.len() - i,
    {
        proof {
            assert(ts[i as int] == uploads[i as int].remote@);
            lemma_same_path(normal@, ts[i as int]);
        }
        if *normal == uploads[i].remote {
            return true;
        }
        i = i + 1;
    }
    false
}

/// The plan for a run.
///
/// Every file of `local` is uploaded, to the remote path made of `prefix` and
/// the file's own path. Unless `keep_existing` is set, every entry of `remote`
/// that does not name the same remote object as one of those remote paths is
/// deleted; with `keep_existing` set nothing is deleted.
pub fn reconcile(
    remote: &Vec<String>,
    local: &Vec<String>,
    prefix: &str,
    keep_existing: bool,
) -> (plan: ReconciliationPlan)
    ensures
        plan.to_upload.deep_view() == uploads(prefix@, local.deep_view()),
        plan.to_delete.deep_view() == planned_deletions(
            remote.deep_view(),
            prefix@,
            local.deep_view(),
            keep_existing,
        ),
{
    let ghost wanted = uploads(prefix@, local.deep_view());
    let mut to_upload: Vec<Upload> = Vec::new();
    let mut i: usize = 0;
    while i < local.len()
        invariant
            i <= local.len(),
            wanted == uploads(prefix@, local.deep_view()),
            to_upload.deep_view() == wanted.take(i as int),
            forall|j: int|
                0 <= j < to_upload.len() ==> normalized(#[trigger] to_upload[j].remote@)
                    == to_upload[j].remote@,
        decreases local.len() - i,
    {
        let target = remote_target_of(prefix, local[i].as_str());
        let upload = Upload { local: local[i].clone(), remote: target };
        let ghost before = to_upload.deep_view();
        proof {
            assert(local.deep_view()[i as int] == local[i as int]@);
            lemma_normalized_is_normal(prefix@ + seq!['/'] + local[i as int]@);
        }
        to_upload.push(upload);
        proof {
            assert(to_upload.deep_view() =~= before.push(upload.deep_view()));
            assert(wanted.take(i + 1) =~= wanted.take(i as int).push(wanted[i as int]));
        }
        i = i + 1;
    }
    proof {
        assert(wanted.take(i as int) =~= wanted);
    }
    let mut to_delete: Vec<String> = Vec::new();
    if !keep_existing {
        let ghost listing = remote.deep_view();
        let ghost ts = targets(wanted);
        let mut k: usize = 0;
        proof {
            assert(listing.take(0) =~= Seq::<Seq<char>>::empty());
        }
        while k < remote.len()
            invariant
                k <= remote.len(),
                listing == remote.deep_view(),
                ts == targets(to_upload.deep_view()),
                forall|j: int|
                    0 <= j < to_upload.len() ==> normalized(#[trigger] to_upload[j].remote@)
                        == to_upload[j].remote@,
                to_delete.deep_view() == orphans(listing.take(k as int), ts),
            decreases remote.len() - k,
        {
            let normal = normalize_path(remote[k].as_str());
            let ghost before = to_delete.deep_view();
            proof {
                let upto = listing.take(k + 1);
                assert(upto.drop_last() =~= listing.take(k as int));
                assert(upto.last() == remote[k as int]@);
                lemma_same_path(remote[k as int]@, remote[k as int]@);
                assert forall|j: int| 0 <= j < ts.len() implies same_path(
                    remote[k as int]@,
                    #[trigger] ts[j],
                ) == same_path(normal@, ts[j]) by {
                    lemma_same_path(remote[k as int]@, ts[j]);
                    lemma_same_path(normal@, ts[j]);
                }
            }
            if !is_upload_target(&normal, &to_upload) {
                to_delete.push(remote[k].clone());
                proof {
                    assert(to_delete.deep_view() =~= before.push(remote[k as int]@));
                }
            }
            k = k + 1;
        }
        proof {
            assert(listing.take(k as int) =~= listing);
        }
    }
    ReconciliationPlan { to_upload, to_delete }
}

impl ReconciliationPlan {
    /// The steps of this plan in the order in which they are to be carried
    /// out: every upload comes before the first deletion, so that nothing is
    /// deleted before what replaces it is in place.
    pub fn operations(&self) -> (r: Vec<Operation>)
        ensures
            r.deep_view() == steps(self.to_upload.deep_view(), self.to_delete.deep_view()),
    {
        let ghost wanted = steps(self.to_upload.deep_view(), self.to_delete.deep_view());
        let mut r: Vec<Operation> = Vec::new();
        let mut i: usize = 0;
        while i < self.to_upload.len()
            invariant
                i <= self.to_upload.len(),
                wanted == steps(self.to_upload.deep_view(), self.to_delete.deep_view()),
                r.deep_view() == wanted.take(i as int),
            decreases self.to_upload.len() - i,
        {
            let step = Operation::Upload {
                local: self.to_upload[i].local.clone(),
                remote: self.to_upload[i].remote.clone(),
            };
            let ghost before = r.deep_view();
            proof {
                assert(self.to_upload.deep_view()[i as int] == self.to_upload[i as int].deep_view());
            }
            r.push(step);
            proof {
                assert(r.deep_view() =~= before.push(step.deep_view()));
                assert(wanted.take(i + 1) =~= wanted.take(i as int).push(wanted[i as int]));
            }
            i = i + 1;
        }
        let n: usize = self.to_upload.len();
        let mut k: usize = 0;
        while k < self.to_delete.len()
            invariant
                k <= self.to_delete.len(),
                n == self.to_upload.len(),
                wanted == steps(self.to_upload.deep_view(), self.to_delete.deep_view()),
                r.deep_view() == wanted.take(n + k),
            decreases self.to_delete.len() - k,
        {
            let step = Operation::Delete { remote: self.to_delete[k].clone() };
            let ghost before = r.deep_view();
            proof {
                assert(self.to_delete.deep_view()[k as int] == self.to_delete[k as int]@);
            }
            r.push(step);
            proof {
                assert(r.deep_view() =~= before.push(step.deep_view()));
                assert(wanted.take(n + k + 1) =~= wanted.take(n + k).push(wanted[n + k]));
            }
            k = k + 1;
        }
        proof {
            assert(wanted.take(n + k) =~= wanted);
        }
        r
    }
}

} // verus!
