use arsync::common::{
    create_passbook_password, find_passbook_folder, list_remote_folder_file, up_root_action,
    RootAction,
};
use arsync::custom_crypto::{decrypt_file_name, encrypt_file_name};
use arsync::reconcile::{
    down_deletions, down_transfers, find_local_file_time, find_local_folder, find_local_name,
    find_remote_id, is_file, plain_name, plain_names, relist_needed, remote_name,
    unreadable_remotes, up_deletions, up_keeps_remote, up_transfers, DownAction, EntryKind, LocalEntry, RemoteEntry,
    UpAction,
};

const T: i64 = 1_700_000_000;

fn local(name: &str, kind: EntryKind, mtime: i64) -> LocalEntry {
    LocalEntry {
        path: format!("/src/{}", name),
        name: name.to_string(),
        kind,
        mtime,
        ctime: mtime,
        size: 0,
    }
}

fn remote(name: &str, file_id: &str, kind: EntryKind, updated_at: i64) -> RemoteEntry {
    RemoteEntry {
        drive_id: "drive".to_string(),
        file_id: file_id.to_string(),
        parent_file_id: "root".to_string(),
        name: name.to_string(),
        kind,
        updated_at,
    }
}

fn up_steps(plan: &[UpAction]) -> Vec<String> {
    plan.iter()
        .map(|a| match a {
            UpAction::Upload { local, remote_name } => format!("upload {} as {}", local, remote_name),
            UpAction::Enter { local, folder_id } => format!("enter {} in {}", local, folder_id),
            UpAction::CreateFolder { local, remote_name } => {
                format!("create {} as {}", local, remote_name)
            }
        })
        .collect()
}

fn down_steps(plan: &[DownAction]) -> Vec<String> {
    plan.iter()
        .map(|a| match a {
            DownAction::DeleteRemote { remote } => format!("delete {}", remote),
            DownAction::Download { remote, name } => format!("download {} to {}", remote, name),
            DownAction::Enter { remote, name } => format!("enter {} in {}", remote, name),
            DownAction::CreateFolder { remote, name } => format!("create {} for {}", name, remote),
        })
        .collect()
}

/// The listing after an upward run whose every step did what it asked,
/// the remote stamping uploads with `now`.
fn after_up(
    locals: &[LocalEntry],
    remotes: &[RemoteEntry],
    doomed: &[usize],
    plan: &[UpAction],
    now: i64,
) -> Vec<RemoteEntry> {
    let mut after: Vec<RemoteEntry> = remotes
        .iter()
        .enumerate()
        .filter(|(j, _)| !doomed.contains(j))
        .map(|(_, e)| e.duplicate())
        .collect();
    for action in plan {
        match action {
            UpAction::Upload { local, remote_name } => {
                assert_eq!(locals[*local].kind, EntryKind::File);
                after.push(remote(remote_name, &format!("new-{}", local), EntryKind::File, now));
            }
            UpAction::CreateFolder { local, remote_name } => {
                assert_eq!(locals[*local].kind, EntryKind::Folder);
                after.push(remote(remote_name, &format!("new-{}", local), EntryKind::Folder, now));
            }
            UpAction::Enter { .. } => {}
        }
    }
    after
}

#[test]
fn up_deletes_what_the_local_side_lacks() {
    let locals = vec![local("keep.txt", EntryKind::File, T)];
    let remotes = vec![
        remote("gone.txt", "1", EntryKind::File, T),
        remote("keep.txt", "2", EntryKind::File, T),
        remote("gone", "3", EntryKind::Folder, T),
    ];
    assert_eq!(up_deletions(&locals, &remotes, &None), vec![0, 2]);
}

#[test]
fn up_compares_whole_seconds_and_ties_keep() {
    let locals = vec![
        local("older.txt", EntryKind::File, T),
        local("equal.txt", EntryKind::File, T),
        local("newer.txt", EntryKind::File, T),
    ];
    let remotes = vec![
        remote("older.txt", "1", EntryKind::File, T - 1),
        remote("equal.txt", "2", EntryKind::File, T),
        remote("newer.txt", "3", EntryKind::File, T + 1),
    ];
    assert_eq!(up_deletions(&locals, &remotes, &None), vec![0]);
    assert!(!up_keeps_remote(&locals, &remotes[0], &None));
    assert!(up_keeps_remote(&locals, &remotes[1], &None));
    assert!(up_keeps_remote(&locals, &remotes[2], &None));
}

#[test]
fn up_takes_a_file_facing_a_folder_as_absent() {
    let locals = vec![local("x", EntryKind::File, T), local("y", EntryKind::Folder, T)];
    let remotes = vec![
        remote("x", "1", EntryKind::Folder, T + 5),
        remote("y", "2", EntryKind::File, T + 5),
    ];
    assert_eq!(up_deletions(&locals, &remotes, &None), vec![0, 1]);
}

#[test]
fn up_keeps_folders_whatever_their_times() {
    let locals = vec![local("dir", EntryKind::Folder, T)];
    let remotes = vec![remote("dir", "1", EntryKind::Folder, T - 1000)];
    assert_eq!(up_deletions(&locals, &remotes, &None), Vec::<usize>::new());
}

#[test]
fn names_are_compared_exactly() {
    let locals = vec![local("a.txt", EntryKind::File, T)];
    let remotes = vec![
        remote("A.txt", "1", EntryKind::File, T),
        remote("a.txt ", "2", EntryKind::File, T),
        remote("a.txt", "3", EntryKind::File, T),
    ];
    assert_eq!(up_deletions(&locals, &remotes, &None), vec![0, 1]);
}

#[test]
fn mixed_times_upward() {
    let locals = vec![local("x.txt", EntryKind::File, T)];
    let remotes = vec![remote("x.txt", "1", EntryKind::File, T - 1)];
    let doomed = up_deletions(&locals, &remotes, &None);
    assert_eq!(doomed, vec![0]);
    let relisted: Vec<RemoteEntry> = Vec::new();
    let plan = up_transfers(&locals, &relisted, &None).unwrap();
    assert_eq!(up_steps(&plan), vec!["upload 0 as x.txt"]);
}

#[test]
fn mixed_times_downward() {
    // The local file is the newer one: a downward run deletes a local file
    // only where the remote one is strictly newer, so it stays, and there
    // is nothing to download.
    let locals = vec![local("x.txt", EntryKind::File, T)];
    let remotes = vec![remote("x.txt", "1", EntryKind::File, T - 1)];
    assert_eq!(down_deletions(&locals, &remotes, &None), Vec::<usize>::new());
    assert!(down_transfers(&locals, &remotes, &None).is_empty());
    // The other way round the local file goes and is downloaded again.
    let remotes = vec![remote("x.txt", "1", EntryKind::File, T + 1)];
    assert_eq!(down_deletions(&locals, &remotes, &None), vec![0]);
    let plan = down_transfers(&Vec::new(), &remotes, &None);
    assert_eq!(down_steps(&plan), vec!["download 0 to x.txt"]);
}

#[test]
fn up_plans_in_scan_order() {
    let locals = vec![
        local("b.txt", EntryKind::File, T),
        local("sub", EntryKind::Folder, T),
        local("a.txt", EntryKind::File, T),
        local("new", EntryKind::Folder, T),
    ];
    let remotes = vec![
        remote("a.txt", "1", EntryKind::File, T),
        remote("sub", "folder-9", EntryKind::Folder, T),
    ];
    let plan = up_transfers(&locals, &remotes, &None).unwrap();
    assert_eq!(
        up_steps(&plan),
        vec!["upload 0 as b.txt", "enter 1 in folder-9", "create 3 as new"]
    );
}

#[test]
fn up_plan_of_nothing() {
    assert!(up_transfers(&Vec::new(), &Vec::new(), &None).unwrap().is_empty());
    assert!(up_deletions(&Vec::new(), &Vec::new(), &None).is_empty());
    let remotes = vec![remote("a", "1", EntryKind::File, T)];
    assert!(up_transfers(&Vec::new(), &remotes, &None).unwrap().is_empty());
    assert_eq!(up_deletions(&Vec::new(), &remotes, &None), vec![0]);
}

#[test]
fn encrypted_up_stores_encrypted_names() {
    let password = Some(b"sync-password".to_vec());
    let locals = vec![local("a.txt", EntryKind::File, T), local("dir", EntryKind::Folder, T)];
    let plan = up_transfers(&locals, &Vec::new(), &password).unwrap();
    let a = encrypt_file_name("a.txt", b"sync-password").unwrap();
    let dir = encrypt_file_name("dir", b"sync-password").unwrap();
    assert_eq!(
        up_steps(&plan),
        vec![format!("upload 0 as {}", a), format!("create 1 as {}", dir)]
    );
    assert_eq!(remote_name(&"a.txt".to_string(), &password).unwrap(), a);
    assert_eq!(remote_name(&"a.txt".to_string(), &None).unwrap(), "a.txt");
    assert_eq!(plain_name(&a, &password), Some("a.txt".to_string()));
    assert_eq!(plain_name(&a, &None), Some(a.clone()));
}

#[test]
fn encrypted_up_finds_its_own_entries_again() {
    let password = Some(b"sync-password".to_vec());
    let locals = vec![local("a.txt", EntryKind::File, T), local("dir", EntryKind::Folder, T)];
    let remotes = vec![
        remote(&encrypt_file_name("a.txt", b"sync-password").unwrap(), "1", EntryKind::File, T),
        remote(&encrypt_file_name("dir", b"sync-password").unwrap(), "2", EntryKind::Folder, T),
    ];
    assert!(up_deletions(&locals, &remotes, &password).is_empty());
    let plan = up_transfers(&locals, &remotes, &password).unwrap();
    assert_eq!(up_steps(&plan), vec!["enter 1 in 2"]);
}

#[test]
fn garbage_name_is_deleted_and_the_run_goes_on() {
    let password = Some(b"sync-password".to_vec());
    let good = encrypt_file_name("a.txt", b"sync-password").unwrap();
    let foreign = encrypt_file_name("a.txt", b"another-password").unwrap();
    let locals = vec![local("a.txt", EntryKind::File, T)];
    let remotes = vec![
        remote("plain-name.txt", "1", EntryKind::File, T),
        remote(&good, "2", EntryKind::File, T),
        remote(&foreign, "3", EntryKind::File, T),
        remote("a.txt", "4", EntryKind::Folder, T),
    ];
    assert!(decrypt_file_name("plain-name.txt", b"sync-password").is_err());
    assert_eq!(unreadable_remotes(&remotes, &password), vec![0, 2, 3]);
    assert_eq!(up_deletions(&locals, &remotes, &password), vec![0, 2, 3]);
    assert_eq!(
        plain_names(&remotes, &password),
        vec![None, Some("a.txt".to_string()), None, None]
    );
    // Downward, the garbage is deleted too, and the rest is planned.
    assert_eq!(
        down_steps(&down_transfers(&Vec::new(), &remotes, &password)),
        vec!["delete 0", "download 1 to a.txt", "delete 2", "delete 3"]
    );
    assert_eq!(down_deletions(&locals, &remotes, &password), Vec::<usize>::new());
    // In a plain run every name reads as it stands.
    assert!(unreadable_remotes(&remotes, &None).is_empty());
}

#[test]
fn down_deletes_what_the_remote_lacks() {
    let locals = vec![
        local("gone.txt", EntryKind::File, T),
        local("keep.txt", EntryKind::File, T),
        local("gone", EntryKind::Folder, T),
        local("dir", EntryKind::Folder, T),
    ];
    let remotes = vec![
        remote("keep.txt", "1", EntryKind::File, T),
        remote("dir", "2", EntryKind::Folder, T + 100),
    ];
    assert_eq!(down_deletions(&locals, &remotes, &None), vec![0, 2]);
}

#[test]
fn down_compares_whole_seconds_and_ties_keep() {
    let locals = vec![
        local("older.txt", EntryKind::File, T - 1),
        local("equal.txt", EntryKind::File, T),
        local("newer.txt", EntryKind::File, T + 1),
    ];
    let remotes = vec![
        remote("older.txt", "1", EntryKind::File, T),
        remote("equal.txt", "2", EntryKind::File, T),
        remote("newer.txt", "3", EntryKind::File, T),
    ];
    assert_eq!(down_deletions(&locals, &remotes, &None), vec![0]);
}

#[test]
fn down_takes_a_file_facing_a_folder_as_absent() {
    let locals = vec![local("x", EntryKind::File, T + 5), local("y", EntryKind::Folder, T + 5)];
    let remotes = vec![
        remote("x", "1", EntryKind::Folder, T),
        remote("y", "2", EntryKind::File, T),
    ];
    assert_eq!(down_deletions(&locals, &remotes, &None), vec![0, 1]);
}

#[test]
fn down_plans_in_listing_order() {
    let locals = vec![local("have.txt", EntryKind::File, T), local("sub", EntryKind::Folder, T)];
    let remotes = vec![
        remote("new", "1", EntryKind::Folder, T),
        remote("have.txt", "2", EntryKind::File, T),
        remote("sub", "3", EntryKind::Folder, T),
        remote("want.txt", "4", EntryKind::File, T),
    ];
    let plan = down_transfers(&locals, &remotes, &None);
    assert_eq!(
        down_steps(&plan),
        vec!["create new for 0", "enter 2 in sub", "download 3 to want.txt"]
    );
}

#[test]
fn encrypted_down_uses_plain_names() {
    let password = Some(b"sync-password".to_vec());
    let locals = vec![local("have.txt", EntryKind::File, T)];
    let remotes = vec![
        remote(&encrypt_file_name("have.txt", b"sync-password").unwrap(), "1", EntryKind::File, T),
        remote(&encrypt_file_name("want.txt", b"sync-password").unwrap(), "2", EntryKind::File, T),
    ];
    assert!(down_deletions(&locals, &remotes, &password).is_empty());
    assert_eq!(
        down_steps(&down_transfers(&locals, &remotes, &password)),
        vec!["download 1 to want.txt"]
    );
}

#[test]
fn lookups() {
    let locals = vec![
        local("a", EntryKind::File, 10),
        local("d", EntryKind::Folder, 20),
        local("b", EntryKind::File, 30),
    ];
    assert_eq!(find_local_file_time(&locals, &"a".to_string()), Some(10));
    assert_eq!(find_local_file_time(&locals, &"b".to_string()), Some(30));
    assert_eq!(find_local_file_time(&locals, &"d".to_string()), None);
    assert_eq!(find_local_file_time(&locals, &"c".to_string()), None);
    assert!(find_local_folder(&locals, &"d".to_string()));
    assert!(!find_local_folder(&locals, &"a".to_string()));
    assert!(find_local_name(&locals, &"a".to_string()));
    assert!(find_local_name(&locals, &"d".to_string()));
    assert!(!find_local_name(&locals, &"z".to_string()));
    let remotes = vec![
        remote("a", "1", EntryKind::File, T),
        remote("b", "2", EntryKind::Folder, T),
        remote("a", "3", EntryKind::File, T),
    ];
    assert_eq!(find_remote_id(&remotes, &"a".to_string()), Some("3".to_string()));
    assert_eq!(find_remote_id(&remotes, &"b".to_string()), Some("2".to_string()));
    assert_eq!(find_remote_id(&remotes, &"c".to_string()), None);
    assert!(is_file(EntryKind::File));
    assert!(!is_file(EntryKind::Folder));
    let copy = remotes[1].duplicate();
    assert_eq!(copy.file_id, "2");
    assert_eq!(copy.name, "b");
    assert_eq!(copy.kind, EntryKind::Folder);
    assert_eq!(copy.drive_id, "drive");
    assert_eq!(copy.parent_file_id, "root");
    assert_eq!(copy.updated_at, T);
}

#[test]
fn running_up_twice_does_nothing_the_second_time() {
    for password in [None, Some(b"sync-password".to_vec())] {
        let locals = vec![
            local("a.txt", EntryKind::File, T),
            local("dir", EntryKind::Folder, T),
            local("stale.txt", EntryKind::File, T),
            local("same.txt", EntryKind::File, T),
        ];
        let stored = |name: &str| remote_name(&name.to_string(), &password).unwrap();
        let before = vec![
            remote(&stored("stale.txt"), "1", EntryKind::File, T - 10),
            remote(&stored("same.txt"), "2", EntryKind::File, T),
            remote(&stored("orphan.txt"), "3", EntryKind::File, T),
        ];
        let doomed = up_deletions(&locals, &before, &password);
        assert_eq!(doomed, vec![0, 2]);
        let relisted = after_up(&locals, &before, &doomed, &[], T);
        let plan = up_transfers(&locals, &relisted, &password).unwrap();
        assert_eq!(plan.len(), 3);
        let after = after_up(&locals, &relisted, &[], &plan, T + 60);

        assert!(up_deletions(&locals, &after, &password).is_empty());
        let again = up_transfers(&locals, &after, &password).unwrap();
        assert_eq!(up_steps(&again), vec!["enter 1 in new-1"]);
    }
}

#[test]
fn after_up_every_local_file_has_a_current_remote_file() {
    let password = Some(b"sync-password".to_vec());
    let locals = vec![
        local("a.txt", EntryKind::File, T),
        local("b.txt", EntryKind::File, T + 5),
        local("dir", EntryKind::Folder, T),
    ];
    let before = vec![remote(
        &encrypt_file_name("b.txt", b"sync-password").unwrap(),
        "1",
        EntryKind::File,
        T + 5,
    )];
    let doomed = up_deletions(&locals, &before, &password);
    assert!(doomed.is_empty());
    let plan = up_transfers(&locals, &before, &password).unwrap();
    let after = after_up(&locals, &before, &doomed, &plan, T + 60);
    let names = plain_names(&after, &password);
    for l in locals.iter().filter(|l| l.kind == EntryKind::File) {
        assert!(after.iter().zip(names.iter()).any(|(r, n)| {
            r.kind == EntryKind::File && n.as_deref() == Some(l.name.as_str()) && r.updated_at >= l.mtime
        }));
    }
}

#[test]
fn running_down_twice_does_nothing_the_second_time() {
    let remotes = vec![
        remote("a.txt", "1", EntryKind::File, T),
        remote("dir", "2", EntryKind::Folder, T),
        remote("fresh.txt", "3", EntryKind::File, T + 10),
    ];
    let scan = vec![
        local("fresh.txt", EntryKind::File, T),
        local("orphan.txt", EntryKind::File, T),
        local("a.txt", EntryKind::File, T),
    ];
    let doomed = down_deletions(&scan, &remotes, &None);
    assert_eq!(doomed, vec![0, 1]);
    let rescanned = vec![local("a.txt", EntryKind::File, T)];
    let plan = down_transfers(&rescanned, &remotes, &None);
    assert_eq!(down_steps(&plan), vec!["create dir for 1", "download 2 to fresh.txt"]);
    let after = vec![
        local("a.txt", EntryKind::File, T),
        local("dir", EntryKind::Folder, T + 60),
        local("fresh.txt", EntryKind::File, T + 60),
    ];
    assert!(down_deletions(&after, &remotes, &None).is_empty());
    assert_eq!(down_steps(&down_transfers(&after, &remotes, &None)), vec!["enter 1 in dir"]);
    for r in remotes.iter().filter(|r| r.kind == EntryKind::File) {
        assert!(after
            .iter()
            .any(|l| l.kind == EntryKind::File && l.name == r.name && l.mtime >= r.updated_at));
    }
}

#[test]
fn fresh_encrypted_up() {
    // The root is empty: a passbook is made for the password.
    let (passbook_entry, others) = find_passbook_folder(&Vec::new());
    assert!(passbook_entry.is_none());
    assert_eq!(up_root_action(true, false, others.is_empty()), Ok(RootAction::Create));
    let (sync_password, _passbook) = create_passbook_password("hunter2");
    let password = Some(sync_password.clone());

    // Root level: one file and one folder, nothing to delete.
    let root = vec![local("a.txt", EntryKind::File, T), local("dir", EntryKind::Folder, T)];
    let listing = list_remote_folder_file(&vec![remote("passbook", "p", EntryKind::File, T)]);
    assert!(listing.is_empty());
    assert!(up_deletions(&root, &listing, &password).is_empty());
    let plan = up_transfers(&root, &listing, &password).unwrap();
    let a = encrypt_file_name("a.txt", &sync_password).unwrap();
    let dir = encrypt_file_name("dir", &sync_password).unwrap();
    assert_eq!(
        up_steps(&plan),
        vec![format!("upload 0 as {}", a), format!("create 1 as {}", dir)]
    );
    assert_ne!(a, "a.txt");
    assert_ne!(dir, "dir");

    // Inside the folder: one file.
    let inner = vec![local("b.txt", EntryKind::File, T)];
    let plan = up_transfers(&inner, &Vec::new(), &password).unwrap();
    assert_eq!(plan.len(), 1);

    // The root then holds the passbook and two entries with encrypted names.
    let root_after = vec![
        remote("passbook", "p", EntryKind::File, T),
        remote(&a, "1", EntryKind::File, T),
        remote(&dir, "2", EntryKind::Folder, T),
    ];
    let (passbook_entry, others) = find_passbook_folder(&root_after);
    assert_eq!(passbook_entry.unwrap().file_id, "p");
    assert_eq!(others.len(), 2);
    assert!(unreadable_remotes(&others, &password).is_empty());
}

#[test]
fn listings_are_taken_again_after_a_deletion() {
    assert!(!relist_needed(&Vec::new()));
    assert!(relist_needed(&vec![0]));
    assert!(relist_needed(&vec![2, 5]));
    let locals = vec![local("keep.txt", EntryKind::File, T)];
    let remotes = vec![remote("keep.txt", "1", EntryKind::File, T)];
    assert!(!relist_needed(&up_deletions(&locals, &remotes, &None)));
    assert!(relist_needed(&up_deletions(&Vec::new(), &remotes, &None)));
    assert!(!relist_needed(&down_deletions(&locals, &remotes, &None)));
    assert!(relist_needed(&down_deletions(&locals, &Vec::new(), &None)));
}
