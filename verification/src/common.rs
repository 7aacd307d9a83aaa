//! The passbook and the listings around it.
//!
//! An encrypted folder keeps, at its root, a file called `passbook`. It
//! holds the random key that encrypts the folder, wrapped under the user's
//! password, beside a known word encrypted under the same password. The
//! word tells whether a password is the right one; the user's password never
//! encrypts anything else. The file is reserved: no listing that the
//! reconciliation sees ever shows it.

use crate::custom_crypto::{
    decrypt_base64, decrypt_file_name, decrypted_base64, decrypted_file_name,
    encrypt_buff_to_base64, encrypt_file_name, encrypted_base64, encrypted_file_name, CryptoError,
};
use crate::reconcile::RemoteEntry;
use rand::Rng;
use vstd::prelude::*;
use vstd::string::*;
use vstd::utf8::*;

verus! {

/// Length of a generated sync password.
pub const SYNC_PASSWORD_LEN: usize = 64;

/// The contents of the passbook file.
#[derive(Debug)]
pub struct Passbook {
    /// The sync password, encrypted under the user's password, as base64.
    pub key_encrypted: String,
    /// The word `test`, encrypted under the user's password, as base64.
    pub test_encrypted: String,
}

/// Why a run cannot settle on a sync password.
#[derive(Debug, Clone, Copy, PartialEq, Eq, Structural)]
pub enum PasswordError {
    /// The known word does not come back: the password is wrong.
    WrongPassword,
    /// The password is right, but the wrapped key does not decrypt.
    DamagedKey(CryptoError),
    /// The folder has a passbook and no password was given.
    PasswordRequired,
    /// A password was given and the folder has no passbook to check it.
    NoPassbook,
    /// A password was given, the folder has no passbook and is not empty.
    FolderNotEmpty,
}

/// The reserved name.
pub open spec fn passbook_name() -> Seq<char> {
    "passbook"@
}

/// The known word of the passbook.
pub open spec fn known_word() -> Seq<char> {
    "test"@
}

/// Whether a byte is an ASCII letter or digit.
pub open spec fn is_alphanumeric(b: u8) -> bool {
    (48 <= b <= 57) || (65 <= b <= 90) || (97 <= b <= 122)
}

/// The entries that the reconciliation sees: all but those called
/// `passbook`, in listing order.
pub open spec fn visible_entries(entries: Seq<RemoteEntry>) -> Seq<RemoteEntry> {
    entries.filter(|e: RemoteEntry| e.name@ != passbook_name())
}

/// The passbook entry of a listing: the last entry called `passbook`.
pub open spec fn passbook_entry(entries: Seq<RemoteEntry>) -> Option<RemoteEntry>
    decreases entries.len(),
{
    if entries.len() == 0 {
        None
    } else if entries.last().name@ == passbook_name() {
        Some(entries.last())
    } else {
        passbook_entry(entries.drop_last())
    }
}

/// What checking a passbook against a password gives: the sync password,
/// or the reason why there is none.
pub open spec fn passbook_key(
    key_encrypted: Seq<char>,
    test_encrypted: Seq<char>,
    password: Seq<u8>,
) -> Result<Seq<u8>, PasswordError> {
    if decrypted_file_name(test_encrypted, password) == Ok::<Seq<char>, CryptoError>(known_word()) {
        match decrypted_base64(key_encrypted, password) {
            Ok(key) => Ok(key),
            Err(e) => Err(PasswordError::DamagedKey(e)),
        }
    } else {
        Err(PasswordError::WrongPassword)
    }
}

/// A password under which the known word does not come back is refused as
/// wrong, whatever the wrapped key holds: nothing of the key is handed out.
pub proof fn lemma_wrong_password_is_refused(
    key_encrypted: Seq<char>,
    test_encrypted: Seq<char>,
    password: Seq<u8>,
)
    requires
        decrypted_file_name(test_encrypted, password) != Ok::<Seq<char>, CryptoError>(known_word()),
    ensures
        passbook_key(key_encrypted, test_encrypted, password) == Err::<Seq<u8>, PasswordError>(
            PasswordError::WrongPassword,
        ),
{
}

/// Draws `len` bytes with `rand::thread_rng` from the `Alphanumeric`
/// distribution, which yields ASCII letters and digits only. Which ones is
/// left to chance.
#[verifier::external_body]
fn random_string(len: usize) -> (bytes: Vec<u8>)
    ensures
        bytes@.len() == len,
        forall|i: int| 0 <= i < bytes@.len() ==> is_alphanumeric(#[trigger] bytes@[i]),
{
    rand::thread_rng().sample_iter(&rand::distributions::Alphanumeric).take(len).collect::<Vec<u8>>()
}

/// Whether a stored name is the reserved one.
pub fn is_passbook_name(name: &String) -> (r: bool)
    ensures
        r == (name@ == passbook_name()),
{
    let reserved = String::from_str("passbook");
    *name == reserved
}

/// Splits the listing of a root folder into its passbook entry, if it has
/// one, and the entries of the user.
pub fn find_passbook_folder(entries: &Vec<RemoteEntry>) -> (r: (Option<RemoteEntry>, Vec<RemoteEntry>))
    ensures
        r.0 == passbook_entry(entries@),
        r.1@ == visible_entries(entries@),
        forall|k: int| 0 <= k < r.1@.len() ==> (#[trigger] r.1@[k]).name@ != passbook_name(),
{
    let mut passbook: Option<RemoteEntry> = None;
    let mut others: Vec<RemoteEntry> = Vec::new();
    let mut j: usize = 0;
    proof {
        reveal(Seq::filter);
        assert(entries@.take(0) =~= Seq::<RemoteEntry>::empty());
    }
    while j < entries.len()
        invariant
            j <= entries.len(),
            passbook == passbook_entry(entries@.take(j as int)),
            others@ == visible_entries(entries@.take(j as int)),
            forall|k: int| 0 <= k < others@.len() ==> (#[trigger] others@[k]).name@ != passbook_name(),
        decreases entries.len() - j,
    {
        proof {
            reveal(Seq::filter);
            assert(entries@.take(j + 1).drop_last() =~= entries@.take(j as int));
        }
        if is_passbook_name(&entries[j].name) {
            passbook = Some(entries[j].duplicate());
        } else {
            others.push(entries[j].duplicate());
        }
        j = j + 1;
    }
    assert(entries@.take(j as int) =~= entries@);
    (passbook, others)
}

/// The listing of a folder as the reconciliation sees it: without any
/// entry called `passbook`.
pub fn list_remote_folder_file(entries: &Vec<RemoteEntry>) -> (visible: Vec<RemoteEntry>)
    ensures
        visible@ == visible_entries(entries@),
        forall|k: int| 0 <= k < visible@.len() ==> (#[trigger] visible@[k]).name@ != passbook_name(),
{
    find_passbook_folder(entries).1
}

/// Checks a password against a passbook and unwraps the sync password.
///
/// The password is right when the known word comes back under it.
pub fn check_passbook_password(passbook: &Passbook, password: &str) -> (r: Result<
    Vec<u8>,
    PasswordError,
>)
    ensures
        match r {
            Ok(key) => passbook_key(
                passbook.key_encrypted@,
                passbook.test_encrypted@,
                password.spec_bytes(),
            ) == Ok::<Seq<u8>, PasswordError>(key@),
            Err(e) => passbook_key(
                passbook.key_encrypted@,
                passbook.test_encrypted@,
                password.spec_bytes(),
            ) == Err::<Seq<u8>, PasswordError>(e),
        },
{
    let word = String::from_str("test");
    let right = match decrypt_file_name(passbook.test_encrypted.as_str(), password.as_bytes()) {
        Ok(t) => t == word,
        Err(_) => false,
    };
    if !right {
        return Err(PasswordError::WrongPassword);
    }
    match decrypt_base64(passbook.key_encrypted.as_str(), password.as_bytes()) {
        Ok(key) => Ok(key),
        Err(e) => Err(PasswordError::DamagedKey(e)),
    }
}

/// Makes a fresh sync password and the passbook that wraps it under the
/// user's password.
///
/// Checking the passbook against the same password gives the sync
/// password back.
pub fn create_passbook_password(password: &str) -> (r: (Vec<u8>, Passbook))
    ensures
        r.0@.len() == SYNC_PASSWORD_LEN,
        forall|i: int| 0 <= i < r.0@.len() ==> is_alphanumeric(#[trigger] r.0@[i]),
        r.1.key_encrypted@ == encrypted_base64(r.0@, password.spec_bytes()),
        r.1.test_encrypted@ == encrypted_file_name(known_word(), password.spec_bytes()),
        passbook_key(r.1.key_encrypted@, r.1.test_encrypted@, password.spec_bytes()) == Ok::<
            Seq<u8>,
            PasswordError,
        >(r.0@),
{
    let key = random_string(SYNC_PASSWORD_LEN);
    let word = "test";
    proof {
        reveal_strlit("test");
        assert(is_ascii_chars(word@));
        is_ascii_chars_encode_utf8(word@);
    }
    let key_encrypted = encrypt_buff_to_base64(key.as_slice(), password.as_bytes()).unwrap();
    let test_encrypted = encrypt_file_name(word, password.as_bytes()).unwrap();
    (key, Passbook { key_encrypted, test_encrypted })
}

/// How a run settles its sync password at the root.
#[derive(Debug, Clone, Copy, PartialEq, Eq, Structural)]
pub enum RootAction {
    /// Check the password against the passbook.
    Verify,
    /// Make a passbook for the password.
    Create,
    /// Run without encryption.
    Unencrypted,
}

/// The policy of an upward run. With a password: check it where the folder
/// has a passbook, make one where the folder is empty, and refuse a folder
/// that holds files without one. Without a password the run is plain.
pub fn up_root_action(password_given: bool, passbook_exists: bool, others_empty: bool) -> (r:
    Result<RootAction, PasswordError>)
    ensures
        r == if !password_given {
            Ok::<RootAction, PasswordError>(RootAction::Unencrypted)
        } else if passbook_exists {
            Ok::<RootAction, PasswordError>(RootAction::Verify)
        } else if others_empty {
            Ok::<RootAction, PasswordError>(RootAction::Create)
        } else {
            Err::<RootAction, PasswordError>(PasswordError::FolderNotEmpty)
        },
{
    if !password_given {
        Ok(RootAction::Unencrypted)
    } else if passbook_exists {
        Ok(RootAction::Verify)
    } else if others_empty {
        Ok(RootAction::Create)
    } else {
        Err(PasswordError::FolderNotEmpty)
    }
}

/// The policy of a downward run: a password goes with a passbook, and no
/// password with none.
pub fn down_root_action(password_given: bool, passbook_exists: bool) -> (r: Result<
    RootAction,
    PasswordError,
>)
    ensures
        r == match (passbook_exists, password_given) {
            (true, true) => Ok::<RootAction, PasswordError>(RootAction::Verify),
            (true, false) => Err::<RootAction, PasswordError>(PasswordError::PasswordRequired),
            (false, true) => Err::<RootAction, PasswordError>(PasswordError::NoPassbook),
            (false, false) => Ok::<RootAction, PasswordError>(RootAction::Unencrypted),
        },
{
    match (passbook_exists, password_given) {
        (true, true) => Ok(RootAction::Verify),
        (true, false) => Err(PasswordError::PasswordRequired),
        (false, true) => Err(PasswordError::NoPassbook),
        (false, false) => Ok(RootAction::Unencrypted),
    }
}

} // verus!
