//! Reconciliation of one folder pair: which entries lose, and what is
//! transferred afterwards.
//!
//! Each direction runs in phases. The side that receives first loses every
//! entry that is absent from the authoritative side or strictly older there;
//! then, on fresh listings, what the receiving side lacks is transferred and
//! sub-folders are entered. The functions here decide; the caller scans,
//! deletes, transfers and recurses.
//!
//! Names are compared as exact character sequences, after decrypting the
//! remote name where the run is encrypted. Times are whole seconds.

use crate::custom_crypto::{
    base64_encryptable, decrypt_file_name, decrypted_file_name, encrypt_file_name,
    encrypted_file_name, CryptoError,
};
use vstd::prelude::*;
use vstd::utf8::*;

verus! {

/// What a directory entry is.
#[derive(Debug, Clone, Copy, PartialEq, Eq, Structural)]
pub enum EntryKind {
    File,
    Folder,
}

/// One entry of a local directory scan.
#[derive(Debug)]
pub struct LocalEntry {
    /// Where the entry lies.
    pub path: String,
    /// The last component of the path.
    pub name: String,
    pub kind: EntryKind,
    /// Modification time, seconds since the epoch, UTC.
    pub mtime: i64,
    /// Creation time, seconds since the epoch, UTC.
    pub ctime: i64,
    /// Length in bytes.
    pub size: u64,
}

/// One entry of a remote folder listing.
#[derive(Debug)]
pub struct RemoteEntry {
    pub drive_id: String,
    pub file_id: String,
    pub parent_file_id: String,
    /// The name as the remote stores it: encrypted in an encrypted run.
    pub name: String,
    pub kind: EntryKind,
    /// Time of the last update, seconds since the epoch, UTC.
    pub updated_at: i64,
}

impl RemoteEntry {
    /// A copy of the entry, field by field.
    pub fn duplicate(&self) -> (copy: Self)
        ensures
            copy == *self,
    {
        RemoteEntry {
            drive_id: self.drive_id.clone(),
            file_id: self.file_id.clone(),
            parent_file_id: self.parent_file_id.clone(),
            name: self.name.clone(),
            kind: self.kind,
            updated_at: self.updated_at,
        }
    }
}

/// The sync password as a plain value.
pub open spec fn password_view(password: Option<Vec<u8>>) -> Option<Seq<u8>> {
    match password {
        Some(p) => Some(p@),
        None => None,
    }
}

/// The name that a remote entry stands for: the stored name in a plain run,
/// its decryption in an encrypted one, and `None` where it does not decrypt.
pub open spec fn plain_name_of(stored: Seq<char>, password: Option<Seq<u8>>) -> Option<Seq<char>> {
    match password {
        None => Some(stored),
        Some(p) => match decrypted_file_name(stored, p) {
            Ok(name) => Some(name),
            Err(_) => None,
        },
    }
}

/// The name under which a local entry is stored on the remote.
pub open spec fn remote_name_of(name: Seq<char>, password: Option<Seq<u8>>) -> Seq<char> {
    match password {
        None => name,
        Some(p) => encrypted_file_name(name, p),
    }
}

/// Whether the remote name of a local entry can be computed.
pub open spec fn name_encryptable(name: Seq<char>, password: Option<Seq<u8>>) -> bool {
    password is None || base64_encryptable(encode_utf8(name).len())
}

/// The modification time of the local file called `name`; of the last one
/// in the scan, should a scan ever hold two.
pub open spec fn local_file_time(locals: Seq<LocalEntry>, name: Seq<char>) -> Option<i64>
    decreases locals.len(),
{
    if locals.len() == 0 {
        None
    } else if locals.last().kind == EntryKind::File && locals.last().name@ == name {
        Some(locals.last().mtime)
    } else {
        local_file_time(locals.drop_last(), name)
    }
}

/// Whether the scan holds a folder called `name`.
pub open spec fn has_local_folder(locals: Seq<LocalEntry>, name: Seq<char>) -> bool {
    exists|i: int|
        0 <= i < locals.len() && (#[trigger] locals[i]).kind == EntryKind::Folder && locals[i].name@
            == name
}

/// Whether the scan holds an entry called `name`, of either kind.
pub open spec fn has_local_name(locals: Seq<LocalEntry>, name: Seq<char>) -> bool {
    exists|i: int| 0 <= i < locals.len() && (#[trigger] locals[i]).name@ == name
}

/// Whether an upward run keeps a remote entry: its name decrypts, and it is
/// a file that is not older than the local file of that name, or a folder
/// that has a local folder of that name.
pub open spec fn up_keeps(locals: Seq<LocalEntry>, remote: RemoteEntry, password: Option<Seq<u8>>) -> bool {
    match plain_name_of(remote.name@, password) {
        None => false,
        Some(name) => match remote.kind {
            EntryKind::File => match local_file_time(locals, name) {
                Some(mtime) => remote.updated_at >= mtime,
                None => false,
            },
            EntryKind::Folder => has_local_folder(locals, name),
        },
    }
}

/// Whether `picked` lists, in rising order, exactly the indices at which
/// `chosen` holds.
pub open spec fn picks(picked: Seq<usize>, chosen: Seq<bool>) -> bool {
    &&& forall|k: int|
        0 <= k < picked.len() ==> (#[trigger] picked[k]) < chosen.len() && chosen[picked[k] as int]
    &&& forall|k: int, l: int| 0 <= k < l < picked.len() ==> picked[k] < picked[l]
    &&& forall|i: int| 0 <= i < chosen.len() && #[trigger] chosen[i] ==> picked.contains(i as usize)
}

/// For each remote entry, whether an upward run deletes it.
pub open spec fn up_doomed(
    locals: Seq<LocalEntry>,
    remotes: Seq<RemoteEntry>,
    password: Option<Seq<u8>>,
) -> Seq<bool> {
    Seq::new(remotes.len(), |j: int| !up_keeps(locals, remotes[j], password))
}

/// Where nothing is chosen, nothing is picked.
pub proof fn lemma_picks_nothing(picked: Seq<usize>, chosen: Seq<bool>)
    requires
        picks(picked, chosen),
        forall|i: int| 0 <= i < chosen.len() ==> !(#[trigger] chosen[i]),
    ensures
        picked.len() == 0,
{
    if picked.len() > 0 {
        assert(chosen[picked[0] as int]);
    }
}

/// Whether the listings must be taken again before the third phase: they
/// must where the second phase has deleted anything.
pub fn relist_needed(deleted: &Vec<usize>) -> (r: bool)
    ensures
        r == (deleted@.len() > 0),
{
    deleted.len() > 0
}

/// Decrypts the stored name of a remote entry where the run is encrypted.
pub fn plain_name(stored: &String, password: &Option<Vec<u8>>) -> (r: Option<String>)
    ensures
        r is Some <==> plain_name_of(stored@, password_view(*password)) is Some,
        r matches Some(name) ==> plain_name_of(stored@, password_view(*password)) == Some(name@),
{
    match password {
        None => Some(stored.clone()),
        Some(p) => match decrypt_file_name(stored.as_str(), p.as_slice()) {
            Ok(name) => Some(name),
            Err(_) => None,
        },
    }
}

/// Looks up the modification time of the local file called `name`.
pub fn find_local_file_time(locals: &Vec<LocalEntry>, name: &String) -> (r: Option<i64>)
    ensures
        r == local_file_time(locals@, name@),
{
    let mut found: Option<i64> = None;
    let mut i: usize = 0;
    assert(locals@.take(0) =~= Seq::<LocalEntry>::empty());
    while i < locals.len()
        invariant
            i <= locals.len(),
            found == local_file_time(locals@.take(i as int), name@),
        decreases locals.len() - i,
    {
        proof {
            assert(locals@.take(i + 1).drop_last() =~= locals@.take(i as int));
        }
        if is_file(locals[i].kind) && locals[i].name == *name {
            found = Some(locals[i].mtime);
        }
        i = i + 1;
    }
    assert(locals@.take(i as int) =~= locals@);
    found
}

/// Whether an entry kind is a file.
pub fn is_file(kind: EntryKind) -> (r: bool)
    ensures
        r == (kind == EntryKind::File),
{
    match kind {
        EntryKind::File => true,
        EntryKind::Folder => false,
    }
}

/// Looks for a local folder called `name`.
pub fn find_local_folder(locals: &Vec<LocalEntry>, name: &String) -> (r: bool)
    ensures
        r == has_local_folder(locals@, name@),
{
    let mut i: usize = 0;
    while i < locals.len()
        invariant
            i <= locals.len(),
            forall|k: int|
                0 <= k < i ==> !((#[trigger] locals@[k]).kind == EntryKind::Folder && locals@[k].name@
                    == name@),
        decreases locals.len() - i,
    {
        if !is_file(locals[i].kind) && locals[i].name == *name {
            return true;
        }
        i = i + 1;
    }
    false
}

/// Whether an upward run keeps the remote entry.
pub fn up_keeps_remote(locals: &Vec<LocalEntry>, remote: &RemoteEntry, password: &Option<Vec<u8>>) -> (r: bool)
    ensures
        r == up_keeps(locals@, *remote, password_view(*password)),
{
    match plain_name(&remote.name, password) {
        None => false,
        Some(name) => match remote.kind {
            EntryKind::File => match find_local_file_time(locals, &name) {
                Some(mtime) => remote.updated_at >= mtime,
                None => false,
            },
            EntryKind::Folder => find_local_folder(locals, &name),
        },
    }
}

/// The second phase of an upward run: the remote entries to delete, as
/// indices into the listing, in listing order.
///
/// An entry is deleted unless the run keeps it.
pub fn up_deletions(
    locals: &Vec<LocalEntry>,
    remotes: &Vec<RemoteEntry>,
    password: &Option<Vec<u8>>,
) -> (doomed: Vec<usize>)
    ensures
        picks(doomed@, up_doomed(locals@, remotes@, password_view(*password))),
{
    let mut doomed: Vec<usize> = Vec::new();
    let mut j: usize = 0;
    let ghost chosen = up_doomed(locals@, remotes@, password_view(*password));
    while j < remotes.len()
        invariant
            j <= remotes.len(),
            chosen == up_doomed(locals@, remotes@, password_view(*password)),
            picks(doomed@, chosen.take(j as int)),
        decreases remotes.len() - j,
    {
        let keep = up_keeps_remote(locals, &remotes[j], password);
        proof {
            lemma_picks_step(doomed@, chosen, j as int);
        }
        if !keep {
            doomed.push(j);
        }
        j = j + 1;
    }
    assert(chosen.take(j as int) =~= chosen);
    doomed
}

/// Going one index further keeps a pick list exact, with the index added
/// where it is chosen.
pub proof fn lemma_picks_step(picked: Seq<usize>, chosen: Seq<bool>, j: int)
    requires
        0 <= j < chosen.len(),
        j <= usize::MAX,
        picks(picked, chosen.take(j)),
    ensures
        picks(
            if chosen[j] {
                picked.push(j as usize)
            } else {
                picked
            },
            chosen.take(j + 1),
        ),
{
    let next = if chosen[j] {
        picked.push(j as usize)
    } else {
        picked
    };
    let wider = chosen.take(j + 1);
    assert forall|i: int| 0 <= i < wider.len() && #[trigger] wider[i] implies next.contains(
        i as usize,
    ) by {
        if i < j {
            assert(chosen.take(j)[i]);
            let k = choose|k: int| 0 <= k < picked.len() && picked[k] == i as usize;
            assert(next[k] == i as usize);
        } else {
            assert(next[picked.len() as int] == j as usize);
        }
    }
    assert forall|k: int| 0 <= k < next.len() implies (#[trigger] next[k]) < wider.len()
        && wider[next[k] as int] by {
        if k < picked.len() {
            assert(picked[k] < chosen.take(j).len());
            assert(chosen.take(j)[picked[k] as int]);
        }
    }
    assert forall|k: int, l: int| 0 <= k < l < next.len() implies next[k] < next[l] by {
        if l == picked.len() {
            assert(picked[k] < chosen.take(j).len());
        }
    }
}

/// One step of the third phase of an upward run.
#[derive(Debug)]
pub enum UpAction {
    /// Upload the local file at index `local` under `remote_name`.
    Upload { local: usize, remote_name: String },
    /// Reconcile the local folder at index `local` with the remote folder
    /// `folder_id`, which exists.
    Enter { local: usize, folder_id: String },
    /// Create the remote folder `remote_name`, then reconcile the local
    /// folder at index `local` with it.
    CreateFolder { local: usize, remote_name: String },
}

/// An `UpAction` as a plain value.
pub enum UpStep {
    Upload { local: int, remote_name: Seq<char> },
    Enter { local: int, folder_id: Seq<char> },
    CreateFolder { local: int, remote_name: Seq<char> },
}

impl UpStep {
    /// The index of the local entry that the step is for.
    pub open spec fn local(self) -> int {
        match self {
            UpStep::Upload { local, .. } => local,
            UpStep::Enter { local, .. } => local,
            UpStep::CreateFolder { local, .. } => local,
        }
    }
}

impl View for UpAction {
    type V = UpStep;

    open spec fn view(&self) -> UpStep {
        match *self {
            UpAction::Upload { local, remote_name } => UpStep::Upload {
                local: local as int,
                remote_name: remote_name@,
            },
            UpAction::Enter { local, folder_id } => UpStep::Enter {
                local: local as int,
                folder_id: folder_id@,
            },
            UpAction::CreateFolder { local, remote_name } => UpStep::CreateFolder {
                local: local as int,
                remote_name: remote_name@,
            },
        }
    }
}

/// The identifier of the remote entry stored under `stored`; of the last
/// one in the listing, should the listing hold two.
pub open spec fn remote_id_by_name(remotes: Seq<RemoteEntry>, stored: Seq<char>) -> Option<
    Seq<char>,
>
    decreases remotes.len(),
{
    if remotes.len() == 0 {
        None
    } else if remotes.last().name@ == stored {
        Some(remotes.last().file_id@)
    } else {
        remote_id_by_name(remotes.drop_last(), stored)
    }
}

/// What the third phase of an upward run does for one local entry: a file
/// is uploaded unless the listing holds its remote name; a folder is
/// entered, after being created where the listing lacks it.
pub open spec fn up_step(
    local: LocalEntry,
    index: int,
    remotes: Seq<RemoteEntry>,
    password: Option<Seq<u8>>,
) -> Option<UpStep> {
    let remote_name = remote_name_of(local.name@, password);
    match (local.kind, remote_id_by_name(remotes, remote_name)) {
        (EntryKind::File, Some(_)) => None,
        (EntryKind::File, None) => Some(UpStep::Upload { local: index, remote_name }),
        (EntryKind::Folder, Some(folder_id)) => Some(UpStep::Enter { local: index, folder_id }),
        (EntryKind::Folder, None) => Some(UpStep::CreateFolder { local: index, remote_name }),
    }
}

/// The steps for the first `n` local entries, in scan order.
pub open spec fn up_steps(
    locals: Seq<LocalEntry>,
    remotes: Seq<RemoteEntry>,
    password: Option<Seq<u8>>,
    n: nat,
) -> Seq<UpStep>
    decreases n,
{
    if n == 0 {
        Seq::empty()
    } else {
        let before = up_steps(locals, remotes, password, (n - 1) as nat);
        match up_step(locals[n - 1], n - 1, remotes, password) {
            Some(step) => before.push(step),
            None => before,
        }
    }
}

/// Whether every local name comes back from its remote name.
pub open spec fn names_round_trip(locals: Seq<LocalEntry>, password: Option<Seq<u8>>) -> bool {
    forall|i: int|
        0 <= i < locals.len() ==> plain_name_of(
            remote_name_of((#[trigger] locals[i]).name@, password),
            password,
        ) == Some(locals[i].name@)
}

/// Computes the name under which a local entry is stored on the remote.
///
/// The remote name stands for the local name again.
pub fn remote_name(name: &String, password: &Option<Vec<u8>>) -> (r: Result<String, CryptoError>)
    ensures
        r is Ok <==> name_encryptable(name@, password_view(*password)),
        r is Err ==> r == Err::<String, CryptoError>(CryptoError::TooLong),
        r matches Ok(stored) ==> {
            &&& stored@ == remote_name_of(name@, password_view(*password))
            &&& plain_name_of(stored@, password_view(*password)) == Some(name@)
        },
{
    match password {
        None => Ok(name.clone()),
        Some(p) => encrypt_file_name(name.as_str(), p.as_slice()),
    }
}

/// Looks up the identifier of the remote entry stored under `stored`.
pub fn find_remote_id(remotes: &Vec<RemoteEntry>, stored: &String) -> (r: Option<String>)
    ensures
        r is Some <==> remote_id_by_name(remotes@, stored@) is Some,
        r matches Some(id) ==> remote_id_by_name(remotes@, stored@) == Some(id@),
{
    let mut found: Option<String> = None;
    let mut j: usize = 0;
    assert(remotes@.take(0) =~= Seq::<RemoteEntry>::empty());
    while j < remotes.len()
        invariant
            j <= remotes.len(),
            found is Some <==> remote_id_by_name(remotes@.take(j as int), stored@) is Some,
            found matches Some(id) ==> remote_id_by_name(remotes@.take(j as int), stored@) == Some(
                id@,
            ),
        decreases remotes.len() - j,
    {
        proof {
            assert(remotes@.take(j + 1).drop_last() =~= remotes@.take(j as int));
        }
        if remotes[j].name == *stored {
            found = Some(remotes[j].file_id.clone());
        }
        j = j + 1;
    }
    assert(remotes@.take(j as int) =~= remotes@);
    found
}

/// The steps of a plan as plain values.
pub open spec fn up_plan_view(plan: Seq<UpAction>) -> Seq<UpStep> {
    plan.map_values(|a: UpAction| a@)
}

/// The third phase of an upward run: what to transfer and which folders to
/// enter, in scan order, against a listing taken after the deletions.
///
/// Fails, before any step, when the remote name of a local entry cannot be
/// computed.
pub fn up_transfers(
    locals: &Vec<LocalEntry>,
    remotes: &Vec<RemoteEntry>,
    password: &Option<Vec<u8>>,
) -> (r: Result<Vec<UpAction>, CryptoError>)
    ensures
        r is Ok <==> forall|i: int|
            0 <= i < locals@.len() ==> name_encryptable(
                (#[trigger] locals@[i]).name@,
                password_view(*password),
            ),
        r is Err ==> r == Err::<Vec<UpAction>, CryptoError>(CryptoError::TooLong),
        r matches Ok(plan) ==> {
            &&& up_plan_view(plan@) == up_steps(
                locals@,
                remotes@,
                password_view(*password),
                locals@.len(),
            )
            &&& names_round_trip(locals@, password_view(*password))
            &&& forall|s: int|
                0 <= s < plan@.len() ==> 0 <= (#[trigger] plan@[s])@.local() < locals@.len()
        },
{
    let ghost pw = password_view(*password);
    let mut plan: Vec<UpAction> = Vec::new();
    let mut i: usize = 0;
    assert(up_plan_view(plan@) =~= up_steps(locals@, remotes@, pw, 0));
    while i < locals.len()
        invariant
            i <= locals.len(),
            pw == password_view(*password),
            up_plan_view(plan@) == up_steps(locals@, remotes@, pw, i as nat),
            forall|s: int| 0 <= s < plan@.len() ==> 0 <= (#[trigger] plan@[s])@.local() < i,
            forall|k: int| 0 <= k < i ==> name_encryptable((#[trigger] locals@[k]).name@, pw),
            forall|k: int|
                0 <= k < i ==> plain_name_of(
                    remote_name_of((#[trigger] locals@[k]).name@, pw),
                    pw,
                ) == Some(locals@[k].name@),
        decreases locals.len() - i,
    {
        let ghost before = plan@;
        let stored = match remote_name(&locals[i].name, password) {
            Ok(stored) => stored,
            Err(e) => {
                return Err(e);
            },
        };
        let found = find_remote_id(remotes, &stored);
        match locals[i].kind {
            EntryKind::File => {
                if found.is_none() {
                    plan.push(UpAction::Upload { local: i, remote_name: stored });
                }
            },
            EntryKind::Folder => {
                match found {
                    Some(folder_id) => {
                        plan.push(UpAction::Enter { local: i, folder_id });
                    },
                    None => {
                        plan.push(UpAction::CreateFolder { local: i, remote_name: stored });
                    },
                }
            },
        }
        proof {
            let step = up_step(locals@[i as int], i as int, remotes@, pw);
            if step is Some {
                assert(plan@ == before.push(plan@.last()));
                assert(plan@.last()@ == step->0);
                assert(up_plan_view(plan@) =~= up_plan_view(before).push(step->0));
            }
        }
        i = i + 1;
    }
    Ok(plan)
}

/// The update time of the remote file that stands for `name`; of the last
/// one in the listing, should the listing hold two.
pub open spec fn remote_file_time(
    remotes: Seq<RemoteEntry>,
    name: Seq<char>,
    password: Option<Seq<u8>>,
) -> Option<i64>
    decreases remotes.len(),
{
    if remotes.len() == 0 {
        None
    } else if remotes.last().kind == EntryKind::File && plain_name_of(
        remotes.last().name@,
        password,
    ) == Some(name) {
        Some(remotes.last().updated_at)
    } else {
        remote_file_time(remotes.drop_last(), name, password)
    }
}

/// Whether the listing holds a folder that stands for `name`.
pub open spec fn has_remote_folder(
    remotes: Seq<RemoteEntry>,
    name: Seq<char>,
    password: Option<Seq<u8>>,
) -> bool {
    exists|j: int|
        0 <= j < remotes.len() && (#[trigger] remotes[j]).kind == EntryKind::Folder
            && plain_name_of(remotes[j].name@, password) == Some(name)
}

/// Whether a downward run keeps a local entry: it is a folder that has a
/// remote folder of its name, or a file that is not older than the remote
/// file of its name. A file facing a folder, or a folder facing a file,
/// counts as absent.
pub open spec fn down_keeps(
    local: LocalEntry,
    remotes: Seq<RemoteEntry>,
    password: Option<Seq<u8>>,
) -> bool {
    match local.kind {
        EntryKind::Folder => has_remote_folder(remotes, local.name@, password),
        EntryKind::File => match remote_file_time(remotes, local.name@, password) {
            Some(updated_at) => local.mtime >= updated_at,
            None => false,
        },
    }
}

/// For each remote entry, whether its name fails to decrypt.
pub open spec fn unreadable(remotes: Seq<RemoteEntry>, password: Option<Seq<u8>>) -> Seq<bool> {
    Seq::new(remotes.len(), |j: int| plain_name_of(remotes[j].name@, password) is None)
}

/// For each local entry, whether a downward run deletes it.
pub open spec fn down_doomed(
    locals: Seq<LocalEntry>,
    remotes: Seq<RemoteEntry>,
    password: Option<Seq<u8>>,
) -> Seq<bool> {
    Seq::new(locals.len(), |i: int| !down_keeps(locals[i], remotes, password))
}

/// Whether `names` holds, entry by entry, the names that the listing
/// stands for.
pub open spec fn names_of(
    names: Seq<Option<String>>,
    remotes: Seq<RemoteEntry>,
    password: Option<Seq<u8>>,
) -> bool {
    &&& names.len() == remotes.len()
    &&& forall|j: int|
        0 <= j < names.len() ==> ((#[trigger] names[j]) is Some <==> plain_name_of(
            remotes[j].name@,
            password,
        ) is Some)
    &&& forall|j: int|
        0 <= j < names.len() && (#[trigger] names[j]) is Some ==> plain_name_of(
            remotes[j].name@,
            password,
        ) == Some(names[j]->0@)
}

/// Decrypts the stored names of a listing, entry by entry.
pub fn plain_names(remotes: &Vec<RemoteEntry>, password: &Option<Vec<u8>>) -> (names: Vec<
    Option<String>,
>)
    ensures
        names_of(names@, remotes@, password_view(*password)),
{
    let mut names: Vec<Option<String>> = Vec::new();
    let mut j: usize = 0;
    while j < remotes.len()
        invariant
            j <= remotes.len(),
            names_of(names@, remotes@.take(j as int), password_view(*password)),
        decreases remotes.len() - j,
    {
        let name = plain_name(&remotes[j].name, password);
        names.push(name);
        j = j + 1;
    }
    assert(remotes@.take(j as int) =~= remotes@);
    names
}

/// The remote entries whose names do not decrypt, as indices into the
/// listing, in listing order. A run deletes them whatever its direction.
pub fn unreadable_remotes(remotes: &Vec<RemoteEntry>, password: &Option<Vec<u8>>) -> (doomed: Vec<
    usize,
>)
    ensures
        picks(doomed@, unreadable(remotes@, password_view(*password))),
{
    let mut doomed: Vec<usize> = Vec::new();
    let mut j: usize = 0;
    let ghost chosen = unreadable(remotes@, password_view(*password));
    while j < remotes.len()
        invariant
            j <= remotes.len(),
            chosen == unreadable(remotes@, password_view(*password)),
            picks(doomed@, chosen.take(j as int)),
        decreases remotes.len() - j,
    {
        let name = plain_name(&remotes[j].name, password);
        proof {
            lemma_picks_step(doomed@, chosen, j as int);
        }
        if name.is_none() {
            doomed.push(j);
        }
        j = j + 1;
    }
    assert(chosen.take(j as int) =~= chosen);
    doomed
}

/// Looks up the update time of the remote file that stands for `name`.
fn find_remote_file_time(
    remotes: &Vec<RemoteEntry>,
    names: &Vec<Option<String>>,
    name: &String,
    Ghost(password): Ghost<Option<Seq<u8>>>,
) -> (r: Option<i64>)
    requires
        names_of(names@, remotes@, password),
    ensures
        r == remote_file_time(remotes@, name@, password),
{
    let mut found: Option<i64> = None;
    let mut j: usize = 0;
    assert(remotes@.take(0) =~= Seq::<RemoteEntry>::empty());
    while j < remotes.len()
        invariant
            j <= remotes.len(),
            names_of(names@, remotes@, password),
            found == remote_file_time(remotes@.take(j as int), name@, password),
        decreases remotes.len() - j,
    {
        proof {
            assert(remotes@.take(j + 1).drop_last() =~= remotes@.take(j as int));
        }
        if is_file(remotes[j].kind) {
            match &names[j] {
                Some(n) => {
                    if *n == *name {
                        found = Some(remotes[j].updated_at);
                    }
                },
                None => {},
            }
        }
        j = j + 1;
    }
    assert(remotes@.take(j as int) =~= remotes@);
    found
}

/// Looks for a remote folder that stands for `name`.
fn find_remote_folder(
    remotes: &Vec<RemoteEntry>,
    names: &Vec<Option<String>>,
    name: &String,
    Ghost(password): Ghost<Option<Seq<u8>>>,
) -> (r: bool)
    requires
        names_of(names@, remotes@, password),
    ensures
        r == has_remote_folder(remotes@, name@, password),
{
    let mut j: usize = 0;
    while j < remotes.len()
        invariant
            j <= remotes.len(),
            names_of(names@, remotes@, password),
            forall|k: int|
                0 <= k < j ==> !((#[trigger] remotes@[k]).kind == EntryKind::Folder
                    && plain_name_of(remotes@[k].name@, password) == Some(name@)),
        decreases remotes.len() - j,
    {
        if !is_file(remotes[j].kind) {
            match &names[j] {
                Some(n) => {
                    if *n == *name {
                        return true;
                    }
                },
                None => {},
            }
        }
        j = j + 1;
    }
    false
}

/// The second phase of a downward run: the local entries to delete, as
/// indices into the scan, in scan order.
///
/// An entry is deleted unless the run keeps it.
pub fn down_deletions(
    locals: &Vec<LocalEntry>,
    remotes: &Vec<RemoteEntry>,
    password: &Option<Vec<u8>>,
) -> (doomed: Vec<usize>)
    ensures
        picks(doomed@, down_doomed(locals@, remotes@, password_view(*password))),
{
    let ghost pw = password_view(*password);
    let names = plain_names(remotes, password);
    let mut doomed: Vec<usize> = Vec::new();
    let mut i: usize = 0;
    let ghost chosen = down_doomed(locals@, remotes@, pw);
    while i < locals.len()
        invariant
            i <= locals.len(),
            names_of(names@, remotes@, pw),
            chosen == down_doomed(locals@, remotes@, pw),
            picks(doomed@, chosen.take(i as int)),
        decreases locals.len() - i,
    {
        let keep = match locals[i].kind {
            EntryKind::Folder => find_remote_folder(remotes, &names, &locals[i].name, Ghost(pw)),
            EntryKind::File => match find_remote_file_time(
                remotes,
                &names,
                &locals[i].name,
                Ghost(pw),
            ) {
                Some(updated_at) => locals[i].mtime >= updated_at,
                None => false,
            },
        };
        proof {
            lemma_picks_step(doomed@, chosen, i as int);
        }
        if !keep {
            doomed.push(i);
        }
        i = i + 1;
    }
    assert(chosen.take(i as int) =~= chosen);
    doomed
}

/// One step of the third phase of a downward run.
#[derive(Debug)]
pub enum DownAction {
    /// Delete the remote entry at index `remote`: its name does not decrypt.
    DeleteRemote { remote: usize },
    /// Download the remote file at index `remote` to a local file `name`.
    Download { remote: usize, name: String },
    /// Reconcile the remote folder at index `remote` with the local folder
    /// `name`, which exists.
    Enter { remote: usize, name: String },
    /// Create the local folder `name`, then reconcile the remote folder at
    /// index `remote` with it.
    CreateFolder { remote: usize, name: String },
}

/// A `DownAction` as a plain value.
pub enum DownStep {
    DeleteRemote { remote: int },
    Download { remote: int, name: Seq<char> },
    Enter { remote: int, name: Seq<char> },
    CreateFolder { remote: int, name: Seq<char> },
}

impl DownStep {
    /// The index of the remote entry that the step is for.
    pub open spec fn remote(self) -> int {
        match self {
            DownStep::DeleteRemote { remote } => remote,
            DownStep::Download { remote, .. } => remote,
            DownStep::Enter { remote, .. } => remote,
            DownStep::CreateFolder { remote, .. } => remote,
        }
    }
}

impl View for DownAction {
    type V = DownStep;

    open spec fn view(&self) -> DownStep {
        match *self {
            DownAction::DeleteRemote { remote } => DownStep::DeleteRemote { remote: remote as int },
            DownAction::Download { remote, name } => DownStep::Download {
                remote: remote as int,
                name: name@,
            },
            DownAction::Enter { remote, name } => DownStep::Enter {
                remote: remote as int,
                name: name@,
            },
            DownAction::CreateFolder { remote, name } => DownStep::CreateFolder {
                remote: remote as int,
                name: name@,
            },
        }
    }
}

/// What the third phase of a downward run does for one remote entry: an
/// entry whose name does not decrypt is deleted; a file is downloaded
/// unless the scan holds its name; a folder is entered, after being created
/// where the scan lacks its name.
pub open spec fn down_step(
    remote: RemoteEntry,
    index: int,
    locals: Seq<LocalEntry>,
    password: Option<Seq<u8>>,
) -> Option<DownStep> {
    match plain_name_of(remote.name@, password) {
        None => Some(DownStep::DeleteRemote { remote: index }),
        Some(name) => match (remote.kind, has_local_name(locals, name)) {
            (EntryKind::File, true) => None,
            (EntryKind::File, false) => Some(DownStep::Download { remote: index, name }),
            (EntryKind::Folder, true) => Some(DownStep::Enter { remote: index, name }),
            (EntryKind::Folder, false) => Some(DownStep::CreateFolder { remote: index, name }),
        },
    }
}

/// The steps for the first `n` remote entries, in listing order.
pub open spec fn down_steps(
    locals: Seq<LocalEntry>,
    remotes: Seq<RemoteEntry>,
    password: Option<Seq<u8>>,
    n: nat,
) -> Seq<DownStep>
    decreases n,
{
    if n == 0 {
        Seq::empty()
    } else {
        let before = down_steps(locals, remotes, password, (n - 1) as nat);
        match down_step(remotes[n - 1], n - 1, locals, password) {
            Some(step) => before.push(step),
            None => before,
        }
    }
}

/// Looks for a local entry called `name`, of either kind.
pub fn find_local_name(locals: &Vec<LocalEntry>, name: &String) -> (r: bool)
    ensures
        r == has_local_name(locals@, name@),
{
    let mut i: usize = 0;
    while i < locals.len()
        invariant
            i <= locals.len(),
            forall|k: int| 0 <= k < i ==> (#[trigger] locals@[k]).name@ != name@,
        decreases locals.len() - i,
    {
        if locals[i].name == *name {
            return true;
        }
        i = i + 1;
    }
    false
}

/// The steps of a plan as plain values.
pub open spec fn down_plan_view(plan: Seq<DownAction>) -> Seq<DownStep> {
    plan.map_values(|a: DownAction| a@)
}

/// The third phase of a downward run: what to transfer and which folders
/// to enter, in listing order, against a scan and a listing taken after the
/// deletions.
pub fn down_transfers(
    locals: &Vec<LocalEntry>,
    remotes: &Vec<RemoteEntry>,
    password: &Option<Vec<u8>>,
) -> (plan: Vec<DownAction>)
    ensures
        down_plan_view(plan@) == down_steps(
            locals@,
            remotes@,
            password_view(*password),
            remotes@.len(),
        ),
        forall|s: int| 0 <= s < plan@.len() ==> 0 <= (#[trigger] plan@[s])@.remote() < remotes@.len(),
{
    let ghost pw = password_view(*password);
    let mut plan: Vec<DownAction> = Vec::new();
    let mut j: usize = 0;
    assert(down_plan_view(plan@) =~= down_steps(locals@, remotes@, pw, 0));
    while j < remotes.len()
        invariant
            j <= remotes.len(),
            pw == password_view(*password),
            down_plan_view(plan@) == down_steps(locals@, remotes@, pw, j as nat),
            forall|s: int| 0 <= s < plan@.len() ==> 0 <= (#[trigger] plan@[s])@.remote() < j,
        decreases remotes.len() - j,
    {
        let ghost before = plan@;
        match plain_name(&remotes[j].name, password) {
            None => {
                plan.push(DownAction::DeleteRemote { remote: j });
            },
            Some(name) => {
                let present = find_local_name(locals, &name);
                match remotes[j].kind {
                    EntryKind::File => {
                        if !present {
                            plan.push(DownAction::Download { remote: j, name });
                        }
                    },
                    EntryKind::Folder => {
                        if present {
                            plan.push(DownAction::Enter { remote: j, name });
                        } else {
                            plan.push(DownAction::CreateFolder { remote: j, name });
                        }
                    },
                }
            },
        }
        proof {
            let step = down_step(remotes@[j as int], j as int, locals@, pw);
            if step is Some {
                assert(plan@ == before.push(plan@.last()));
                assert(plan@.last()@ == step->0);
                assert(down_plan_view(plan@) =~= down_plan_view(before).push(step->0));
            }
        }
        j = j + 1;
    }
    plan
}

} // verus!
