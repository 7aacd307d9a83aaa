//! What a finished run leaves behind, and why running again does nothing.
//!
//! The statements here speak of the listings before and after the third
//! phase of a run. They take the remote and the file system at their word:
//! what a step asks for appears, stamped no earlier than its source, and
//! nothing else changes.

use crate::reconcile::{
    down_doomed, down_keeps, down_step, down_steps, has_local_folder, has_local_name,
    has_remote_folder, local_file_time, names_round_trip, plain_name_of, remote_file_time,
    remote_id_by_name, remote_name_of, up_doomed, up_keeps, up_step, up_steps, DownStep,
    EntryKind, LocalEntry, RemoteEntry, UpStep,
};
use vstd::prelude::*;

verus! {

/// Whether no two entries of a scan share a name.
pub open spec fn distinct_local_names(locals: Seq<LocalEntry>) -> bool {
    forall|i: int, k: int|
        0 <= i < k < locals.len() ==> (#[trigger] locals[i]).name@ != (#[trigger] locals[k]).name@
}

/// Whether the entry is what the step for `local` leaves on the remote: a
/// file under the remote name, stamped no earlier than the local file was
/// modified, or a folder under the remote name.
pub open spec fn left_by_up(step: Option<UpStep>, local: LocalEntry, entry: RemoteEntry) -> bool {
    match step {
        Some(UpStep::Upload { remote_name, .. }) => {
            &&& entry.kind == EntryKind::File
            &&& entry.name@ == remote_name
            &&& entry.updated_at >= local.mtime
        },
        Some(UpStep::CreateFolder { remote_name, .. }) => {
            &&& entry.kind == EntryKind::Folder
            &&& entry.name@ == remote_name
        },
        _ => false,
    }
}

/// Whether the step for the local entry at `i`, planned against `listing`,
/// leaves `entry` on the remote.
pub open spec fn up_leaves(
    locals: Seq<LocalEntry>,
    listing: Seq<RemoteEntry>,
    password: Option<Seq<u8>>,
    i: int,
    entry: RemoteEntry,
) -> bool {
    0 <= i < locals.len() && left_by_up(up_step(locals[i], i, listing, password), locals[i], entry)
}

/// Whether a step transfers or creates something.
pub open spec fn up_step_changes(step: Option<UpStep>) -> bool {
    step is Some && !(step->0 is Enter)
}

/// Whether `after` is the listing that the third phase of an upward run
/// leaves behind, having started from `listing`: every entry of `listing`
/// is still there, every upload and every folder creation has left its
/// entry, and nothing else has appeared.
pub open spec fn up_outcome(
    locals: Seq<LocalEntry>,
    listing: Seq<RemoteEntry>,
    after: Seq<RemoteEntry>,
    password: Option<Seq<u8>>,
) -> bool {
    &&& forall|j: int| 0 <= j < listing.len() ==> after.contains(#[trigger] listing[j])
    &&& forall|i: int|
        0 <= i < locals.len() && up_step_changes(
            #[trigger] up_step(locals[i], i, listing, password),
        ) ==> exists|k: int|
            0 <= k < after.len() && up_leaves(locals, listing, password, i, #[trigger] after[k])
    &&& forall|k: int|
        0 <= k < after.len() ==> listing.contains(#[trigger] after[k]) || exists|i: int|
            #[trigger] up_leaves(locals, listing, password, i, after[k])
}

/// Whether an upward run keeps every entry of the listing.
pub open spec fn up_keeps_all(
    locals: Seq<LocalEntry>,
    listing: Seq<RemoteEntry>,
    password: Option<Seq<u8>>,
) -> bool {
    forall|j: int| 0 <= j < listing.len() ==> up_keeps(locals, #[trigger] listing[j], password)
}

/// In a scan without repeated names, the time found for the name of a
/// file is the time of that file.
pub proof fn lemma_local_file_time_of_entry(locals: Seq<LocalEntry>, i: int)
    requires
        distinct_local_names(locals),
        0 <= i < locals.len(),
        locals[i].kind == EntryKind::File,
    ensures
        local_file_time(locals, locals[i].name@) == Some(locals[i].mtime),
    decreases locals.len(),
{
    if i < locals.len() - 1 {
        let shorter = locals.drop_last();
        assert(locals.last() == locals[locals.len() - 1]);
        assert(locals[i].name@ != locals[locals.len() - 1].name@);
        assert forall|a: int, b: int| 0 <= a < b < shorter.len() implies (#[trigger] shorter[a]).name@
            != (#[trigger] shorter[b]).name@ by {
            assert(shorter[a] == locals[a] && shorter[b] == locals[b]);
        }
        assert(shorter[i] == locals[i]);
        lemma_local_file_time_of_entry(shorter, i);
    }
}

/// A stored name has an identifier exactly where the listing holds it.
pub proof fn lemma_remote_id_found(listing: Seq<RemoteEntry>, stored: Seq<char>)
    ensures
        remote_id_by_name(listing, stored) is Some <==> exists|j: int|
            0 <= j < listing.len() && (#[trigger] listing[j]).name@ == stored,
    decreases listing.len(),
{
    if listing.len() > 0 {
        let shorter = listing.drop_last();
        lemma_remote_id_found(shorter, stored);
        if listing.last().name@ == stored {
            assert(listing[listing.len() - 1].name@ == stored);
        } else if remote_id_by_name(shorter, stored) is Some {
            let j = choose|j: int| 0 <= j < shorter.len() && (#[trigger] shorter[j]).name@ == stored;
            assert(listing[j] == shorter[j]);
        } else {
            assert forall|j: int| 0 <= j < listing.len() implies (#[trigger] listing[j]).name@
                != stored by {
                if j < shorter.len() {
                    assert(shorter[j] == listing[j]);
                }
            }
        }
    }
}

/// Every step of a plan is the step of one of the entries it was planned
/// for.
pub proof fn lemma_up_steps_come_from_entries(
    locals: Seq<LocalEntry>,
    listing: Seq<RemoteEntry>,
    password: Option<Seq<u8>>,
    n: nat,
)
    requires
        n <= locals.len(),
    ensures
        forall|s: int|
            0 <= s < up_steps(locals, listing, password, n).len() ==> exists|i: int|
                0 <= i < n && up_step(locals[i], i, listing, password) == Some(
                    #[trigger] up_steps(locals, listing, password, n)[s],
                ),
    decreases n,
{
    if n > 0 {
        lemma_up_steps_come_from_entries(locals, listing, password, (n - 1) as nat);
        let before = up_steps(locals, listing, password, (n - 1) as nat);
        let all = up_steps(locals, listing, password, n);
        assert forall|s: int| 0 <= s < all.len() implies exists|i: int|
            0 <= i < n && up_step(locals[i], i, listing, password) == Some(#[trigger] all[s]) by {
            if s < before.len() {
                assert(all[s] == before[s]);
                let i = choose|i: int|
                    0 <= i < n - 1 && up_step(locals[i], i, listing, password) == Some(before[s]);
                assert(up_step(locals[i], i, listing, password) == Some(all[s]));
            } else {
                assert(up_step(locals[n - 1], n - 1, listing, password) == Some(all[s]));
            }
        }
    }
}

/// Running upward again does nothing: on the listing that a finished run
/// leaves behind, no remote entry is deleted, and no step uploads a file or
/// creates a folder.
///
/// This holds where the remote stamps an upload no earlier than the local
/// file was modified, which `up_outcome` asks for.
pub proof fn lemma_up_again_is_quiet(
    locals: Seq<LocalEntry>,
    listing: Seq<RemoteEntry>,
    after: Seq<RemoteEntry>,
    password: Option<Seq<u8>>,
)
    requires
        distinct_local_names(locals),
        names_round_trip(locals, password),
        up_keeps_all(locals, listing, password),
        up_outcome(locals, listing, after, password),
    ensures
        forall|j: int| 0 <= j < after.len() ==> !(#[trigger] up_doomed(locals, after, password)[j]),
        forall|s: int|
            0 <= s < up_steps(locals, after, password, locals.len()).len() ==> (#[trigger] up_steps(
                locals,
                after,
                password,
                locals.len(),
            )[s]) is Enter,
{
    assert forall|j: int| 0 <= j < after.len() implies up_keeps(locals, after[j], password) by {
        lemma_up_keeps_what_is_left(locals, listing, after, password, j);
    }
    lemma_up_steps_come_from_entries(locals, after, password, locals.len());
    let plan = up_steps(locals, after, password, locals.len());
    assert forall|s: int| 0 <= s < plan.len() implies (#[trigger] plan[s]) is Enter by {
        let i = choose|i: int|
            0 <= i < locals.len() && up_step(locals[i], i, after, password) == Some(plan[s]);
        lemma_up_name_is_listed(locals, listing, after, password, i);
    }
}

/// An upward run keeps every entry of the listing that a finished run
/// leaves behind.
pub proof fn lemma_up_keeps_what_is_left(
    locals: Seq<LocalEntry>,
    listing: Seq<RemoteEntry>,
    after: Seq<RemoteEntry>,
    password: Option<Seq<u8>>,
    k: int,
)
    requires
        distinct_local_names(locals),
        names_round_trip(locals, password),
        up_keeps_all(locals, listing, password),
        up_outcome(locals, listing, after, password),
        0 <= k < after.len(),
    ensures
        up_keeps(locals, after[k], password),
{
    let entry = after[k];
    if listing.contains(entry) {
        let j = choose|j: int| 0 <= j < listing.len() && listing[j] == entry;
        assert(up_keeps(locals, listing[j], password));
    } else {
        let i = choose|i: int| #[trigger] up_leaves(locals, listing, password, i, entry);
        let local = locals[i];
        assert(plain_name_of(remote_name_of(local.name@, password), password) == Some(local.name@));
        match up_step(local, i, listing, password) {
            Some(UpStep::Upload { .. }) => {
                lemma_local_file_time_of_entry(locals, i);
            },
            Some(UpStep::CreateFolder { .. }) => {
                assert(has_local_folder(locals, local.name@));
            },
            _ => {},
        }
    }
}

/// On the listing that a finished upward run leaves behind, the remote
/// name of every local entry is listed.
pub proof fn lemma_up_name_is_listed(
    locals: Seq<LocalEntry>,
    listing: Seq<RemoteEntry>,
    after: Seq<RemoteEntry>,
    password: Option<Seq<u8>>,
    i: int,
)
    requires
        up_outcome(locals, listing, after, password),
        0 <= i < locals.len(),
    ensures
        remote_id_by_name(after, remote_name_of(locals[i].name@, password)) is Some,
        !up_step_changes(up_step(locals[i], i, after, password)),
{
    let stored = remote_name_of(locals[i].name@, password);
    let step = up_step(locals[i], i, listing, password);
    lemma_remote_id_found(listing, stored);
    lemma_remote_id_found(after, stored);
    if up_step_changes(step) {
        let k = choose|k: int|
            0 <= k < after.len() && up_leaves(locals, listing, password, i, #[trigger] after[k]);
        assert(after[k].name@ == stored);
    } else {
        let j = choose|j: int| 0 <= j < listing.len() && (#[trigger] listing[j]).name@ == stored;
        assert(after.contains(listing[j]));
        let k = choose|k: int| 0 <= k < after.len() && after[k] == listing[j];
        assert(after[k].name@ == stored);
    }
}

/// An upward run converges: on the listing that a finished run leaves
/// behind, every local file has a remote file that stands for its name and
/// is not older than it.
///
/// This holds where the remote stamps an upload no earlier than the local
/// file was modified, which `up_outcome` asks for.
pub proof fn lemma_up_converges(
    locals: Seq<LocalEntry>,
    listing: Seq<RemoteEntry>,
    after: Seq<RemoteEntry>,
    password: Option<Seq<u8>>,
    i: int,
)
    requires
        distinct_local_names(locals),
        names_round_trip(locals, password),
        up_keeps_all(locals, listing, password),
        up_outcome(locals, listing, after, password),
        0 <= i < locals.len(),
        locals[i].kind == EntryKind::File,
    ensures
        exists|k: int|
            0 <= k < after.len() && (#[trigger] after[k]).kind == EntryKind::File && plain_name_of(
                after[k].name@,
                password,
            ) == Some(locals[i].name@) && after[k].updated_at >= locals[i].mtime,
{
    let local = locals[i];
    let stored = remote_name_of(local.name@, password);
    let step = up_step(local, i, listing, password);
    assert(plain_name_of(stored, password) == Some(local.name@));
    lemma_remote_id_found(listing, stored);
    lemma_local_file_time_of_entry(locals, i);
    if up_step_changes(step) {
        let k = choose|k: int|
            0 <= k < after.len() && up_leaves(locals, listing, password, i, #[trigger] after[k]);
        assert(after[k].kind == EntryKind::File);
    } else {
        let j = choose|j: int| 0 <= j < listing.len() && (#[trigger] listing[j]).name@ == stored;
        assert(up_keeps(locals, listing[j], password));
        if listing[j].kind == EntryKind::Folder {
            let f = choose|f: int|
                0 <= f < locals.len() && (#[trigger] locals[f]).kind == EntryKind::Folder
                    && locals[f].name@ == local.name@;
            if f < i {
                assert(locals[f].name@ != locals[i].name@);
            } else {
                assert(locals[i].name@ != locals[f].name@);
            }
        }
        assert(after.contains(listing[j]));
        let k = choose|k: int| 0 <= k < after.len() && after[k] == listing[j];
        assert(after[k].kind == EntryKind::File);
    }
}

/// Whether every name of the listing decrypts, and no two entries stand
/// for the same name.
pub open spec fn distinct_remote_names(listing: Seq<RemoteEntry>, password: Option<Seq<u8>>) -> bool {
    &&& forall|j: int|
        0 <= j < listing.len() ==> plain_name_of((#[trigger] listing[j]).name@, password) is Some
    &&& forall|j: int, k: int|
        0 <= j < k < listing.len() ==> plain_name_of((#[trigger] listing[j]).name@, password)
            != plain_name_of((#[trigger] listing[k]).name@, password)
}

/// Whether the entry is what the step for `remote` leaves in the local
/// folder: a file of that name, stamped no earlier than the remote file was
/// updated, or a folder of that name.
pub open spec fn left_by_down(step: Option<DownStep>, remote: RemoteEntry, entry: LocalEntry) -> bool {
    match step {
        Some(DownStep::Download { name, .. }) => {
            &&& entry.kind == EntryKind::File
            &&& entry.name@ == name
            &&& entry.mtime >= remote.updated_at
        },
        Some(DownStep::CreateFolder { name, .. }) => {
            &&& entry.kind == EntryKind::Folder
            &&& entry.name@ == name
        },
        _ => false,
    }
}

/// Whether the step for the remote entry at `j`, planned against `scan`,
/// leaves `entry` in the local folder.
pub open spec fn down_leaves(
    scan: Seq<LocalEntry>,
    listing: Seq<RemoteEntry>,
    password: Option<Seq<u8>>,
    j: int,
    entry: LocalEntry,
) -> bool {
    0 <= j < listing.len() && left_by_down(
        down_step(listing[j], j, scan, password),
        listing[j],
        entry,
    )
}

/// Whether a step transfers, creates or deletes something.
pub open spec fn down_step_changes(step: Option<DownStep>) -> bool {
    step is Some && !(step->0 is Enter)
}

/// Whether `after` is the scan that the third phase of a downward run
/// leaves behind, having started from `scan`: every entry of `scan` is
/// still there, every download and every folder creation has left its
/// entry, and nothing else has appeared.
pub open spec fn down_outcome(
    scan: Seq<LocalEntry>,
    listing: Seq<RemoteEntry>,
    after: Seq<LocalEntry>,
    password: Option<Seq<u8>>,
) -> bool {
    &&& forall|i: int| 0 <= i < scan.len() ==> after.contains(#[trigger] scan[i])
    &&& forall|j: int|
        0 <= j < listing.len() && down_step_changes(
            #[trigger] down_step(listing[j], j, scan, password),
        ) ==> exists|k: int|
            0 <= k < after.len() && down_leaves(scan, listing, password, j, #[trigger] after[k])
    &&& forall|k: int|
        0 <= k < after.len() ==> scan.contains(#[trigger] after[k]) || exists|j: int|
            #[trigger] down_leaves(scan, listing, password, j, after[k])
}

/// Whether a downward run keeps every entry of the scan.
pub open spec fn down_keeps_all(
    scan: Seq<LocalEntry>,
    listing: Seq<RemoteEntry>,
    password: Option<Seq<u8>>,
) -> bool {
    forall|i: int| 0 <= i < scan.len() ==> down_keeps(#[trigger] scan[i], listing, password)
}

/// In a listing without repeated names, the time found for the name of a
/// file is the time of that file.
pub proof fn lemma_remote_file_time_of_entry(
    listing: Seq<RemoteEntry>,
    password: Option<Seq<u8>>,
    j: int,
)
    requires
        distinct_remote_names(listing, password),
        0 <= j < listing.len(),
        listing[j].kind == EntryKind::File,
    ensures
        remote_file_time(listing, plain_name_of(listing[j].name@, password)->0, password) == Some(
            listing[j].updated_at,
        ),
    decreases listing.len(),
{
    if j < listing.len() - 1 {
        let shorter = listing.drop_last();
        assert(listing.last() == listing[listing.len() - 1]);
        assert(plain_name_of(listing[j].name@, password) != plain_name_of(
            listing[listing.len() - 1].name@,
            password,
        ));
        assert forall|a: int| 0 <= a < shorter.len() implies plain_name_of(
            (#[trigger] shorter[a]).name@,
            password,
        ) is Some by {
            assert(shorter[a] == listing[a]);
        }
        assert forall|a: int, b: int| 0 <= a < b < shorter.len() implies plain_name_of(
            (#[trigger] shorter[a]).name@,
            password,
        ) != plain_name_of((#[trigger] shorter[b]).name@, password) by {
            assert(shorter[a] == listing[a] && shorter[b] == listing[b]);
        }
        assert(shorter[j] == listing[j]);
        lemma_remote_file_time_of_entry(shorter, password, j);
    }
}

/// Every step of a plan is the step of one of the entries it was planned
/// for.
pub proof fn lemma_down_steps_come_from_entries(
    scan: Seq<LocalEntry>,
    listing: Seq<RemoteEntry>,
    password: Option<Seq<u8>>,
    n: nat,
)
    requires
        n <= listing.len(),
    ensures
        forall|s: int|
            0 <= s < down_steps(scan, listing, password, n).len() ==> exists|j: int|
                0 <= j < n && down_step(listing[j], j, scan, password) == Some(
                    #[trigger] down_steps(scan, listing, password, n)[s],
                ),
    decreases n,
{
    if n > 0 {
        lemma_down_steps_come_from_entries(scan, listing, password, (n - 1) as nat);
        let before = down_steps(scan, listing, password, (n - 1) as nat);
        let all = down_steps(scan, listing, password, n);
        assert forall|s: int| 0 <= s < all.len() implies exists|j: int|
            0 <= j < n && down_step(listing[j], j, scan, password) == Some(#[trigger] all[s]) by {
            if s < before.len() {
                assert(all[s] == before[s]);
                let j = choose|j: int|
                    0 <= j < n - 1 && down_step(listing[j], j, scan, password) == Some(before[s]);
                assert(down_step(listing[j], j, scan, password) == Some(all[s]));
            } else {
                assert(down_step(listing[n - 1], n - 1, scan, password) == Some(all[s]));
            }
        }
    }
}

/// A downward run keeps every entry of the scan that a finished run leaves
/// behind.
pub proof fn lemma_down_keeps_what_is_left(
    scan: Seq<LocalEntry>,
    listing: Seq<RemoteEntry>,
    after: Seq<LocalEntry>,
    password: Option<Seq<u8>>,
    k: int,
)
    requires
        distinct_remote_names(listing, password),
        down_keeps_all(scan, listing, password),
        down_outcome(scan, listing, after, password),
        0 <= k < after.len(),
    ensures
        down_keeps(after[k], listing, password),
{
    let entry = after[k];
    if scan.contains(entry) {
        let i = choose|i: int| 0 <= i < scan.len() && scan[i] == entry;
        assert(down_keeps(scan[i], listing, password));
    } else {
        let j = choose|j: int| #[trigger] down_leaves(scan, listing, password, j, entry);
        match down_step(listing[j], j, scan, password) {
            Some(DownStep::Download { .. }) => {
                lemma_remote_file_time_of_entry(listing, password, j);
            },
            Some(DownStep::CreateFolder { .. }) => {
                assert(listing[j].kind == EntryKind::Folder);
                assert(has_remote_folder(listing, entry.name@, password));
            },
            _ => {},
        }
    }
}

/// On the scan that a finished downward run leaves behind, the name of
/// every remote entry is present.
pub proof fn lemma_down_name_is_present(
    scan: Seq<LocalEntry>,
    listing: Seq<RemoteEntry>,
    after: Seq<LocalEntry>,
    password: Option<Seq<u8>>,
    j: int,
)
    requires
        distinct_remote_names(listing, password),
        down_outcome(scan, listing, after, password),
        0 <= j < listing.len(),
    ensures
        has_local_name(after, plain_name_of(listing[j].name@, password)->0),
        !down_step_changes(down_step(listing[j], j, after, password)),
{
    let name = plain_name_of(listing[j].name@, password)->0;
    let step = down_step(listing[j], j, scan, password);
    if down_step_changes(step) {
        let k = choose|k: int|
            0 <= k < after.len() && down_leaves(scan, listing, password, j, #[trigger] after[k]);
        assert(after[k].name@ == name);
    } else {
        let i = choose|i: int| 0 <= i < scan.len() && (#[trigger] scan[i]).name@ == name;
        assert(after.contains(scan[i]));
        let k = choose|k: int| 0 <= k < after.len() && after[k] == scan[i];
        assert(after[k].name@ == name);
    }
}

/// Running downward again does nothing: on the scan that a finished run
/// leaves behind, no local entry is deleted, and no step deletes a remote
/// entry, downloads a file or creates a folder.
///
/// This holds where the file system stamps a download no earlier than the
/// remote file was updated, which `down_outcome` asks for.
pub proof fn lemma_down_again_is_quiet(
    scan: Seq<LocalEntry>,
    listing: Seq<RemoteEntry>,
    after: Seq<LocalEntry>,
    password: Option<Seq<u8>>,
)
    requires
        distinct_remote_names(listing, password),
        down_keeps_all(scan, listing, password),
        down_outcome(scan, listing, after, password),
    ensures
        forall|i: int| 0 <= i < after.len() ==> !(#[trigger] down_doomed(after, listing, password)[i]),
        forall|s: int|
            0 <= s < down_steps(after, listing, password, listing.len()).len() ==> (
            #[trigger] down_steps(after, listing, password, listing.len())[s]) is Enter,
{
    assert forall|i: int| 0 <= i < after.len() implies down_keeps(after[i], listing, password) by {
        lemma_down_keeps_what_is_left(scan, listing, after, password, i);
    }
    lemma_down_steps_come_from_entries(after, listing, password, listing.len());
    let plan = down_steps(after, listing, password, listing.len());
    assert forall|s: int| 0 <= s < plan.len() implies (#[trigger] plan[s]) is Enter by {
        let j = choose|j: int|
            0 <= j < listing.len() && down_step(listing[j], j, after, password) == Some(plan[s]);
        lemma_down_name_is_present(scan, listing, after, password, j);
    }
}

/// A downward run converges: on the scan that a finished run leaves
/// behind, every remote file has a local file of its name that is not older
/// than it.
///
/// This holds where the file system stamps a download no earlier than the
/// remote file was updated, which `down_outcome` asks for.
pub proof fn lemma_down_converges(
    scan: Seq<LocalEntry>,
    listing: Seq<RemoteEntry>,
    after: Seq<LocalEntry>,
    password: Option<Seq<u8>>,
    j: int,
)
    requires
        distinct_remote_names(listing, password),
        down_keeps_all(scan, listing, password),
        down_outcome(scan, listing, after, password),
        0 <= j < listing.len(),
        listing[j].kind == EntryKind::File,
    ensures
        exists|k: int|
            0 <= k < after.len() && (#[trigger] after[k]).kind == EntryKind::File && Some(
                after[k].name@,
            ) == plain_name_of(listing[j].name@, password) && after[k].mtime
                >= listing[j].updated_at,
{
    let name = plain_name_of(listing[j].name@, password)->0;
    let step = down_step(listing[j], j, scan, password);
    lemma_remote_file_time_of_entry(listing, password, j);
    if down_step_changes(step) {
        let k = choose|k: int|
            0 <= k < after.len() && down_leaves(scan, listing, password, j, #[trigger] after[k]);
        assert(after[k].kind == EntryKind::File);
    } else {
        let i = choose|i: int| 0 <= i < scan.len() && (#[trigger] scan[i]).name@ == name;
        assert(down_keeps(scan[i], listing, password));
        if scan[i].kind == EntryKind::Folder {
            let f = choose|f: int|
                0 <= f < listing.len() && (#[trigger] listing[f]).kind == EntryKind::Folder
                    && plain_name_of(listing[f].name@, password) == Some(name);
            if f < j {
                assert(plain_name_of(listing[f].name@, password) != plain_name_of(
                    listing[j].name@,
                    password,
                ));
            } else {
                assert(plain_name_of(listing[j].name@, password) != plain_name_of(
                    listing[f].name@,
                    password,
                ));
            }
        }
        assert(after.contains(scan[i]));
        let k = choose|k: int| 0 <= k < after.len() && after[k] == scan[i];
        assert(after[k].kind == EntryKind::File);
    }
}

} // verus!
