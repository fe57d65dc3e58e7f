//! The system credential store, as the rest of the library sees it: an
//! entry that remembers the service and account it was opened for, and a
//! receipt for each password handed to it.

use vstd::prelude::*;

use crate::settings::KeyringFailure;

verus! {

/// The credential store's entry type.
#[verifier::external_type_specification]
#[verifier::external_body]
pub struct ExKeyringEntry(keyring::Entry);

/// The credential store's error type.
#[verifier::external_type_specification]
#[verifier::external_body]
pub struct ExKeyringError(keyring::Error);

/// A store entry together with the service and account it was opened for.
/// Only `open_entry` builds one.
pub struct OpenedEntry {
    entry: keyring::Entry,
    target: Ghost<(Seq<char>, Seq<char>)>,
}

impl OpenedEntry {
    /// The service and account handed to the store when this entry was
    /// opened.
    pub closed spec fn target(&self) -> (Seq<char>, Seq<char>) {
        self.target@
    }
}

/// A record of one password handed to the store: the text, the entry it
/// was written to, and whether the store accepted it. Only `store_password`
/// builds one.
pub struct StoreReceipt {
    text: Ghost<Seq<char>>,
    target: Ghost<(Seq<char>, Seq<char>)>,
    accepted: Ghost<bool>,
}

impl StoreReceipt {
    /// The text handed to the store.
    pub closed spec fn text(&self) -> Seq<char> {
        self.text@
    }

    /// The service and account of the entry it was handed to.
    pub closed spec fn target(&self) -> (Seq<char>, Seq<char>) {
        self.target@
    }

    /// Whether the store reported the write as done.
    pub closed spec fn accepted(&self) -> bool {
        self.accepted@
    }
}

/// Opens the store entry of `service` and `user`.
///
/// Trusted: calls `keyring::Entry::new(service, user)`, which builds a
/// credential with the platform's default builder. Whether that succeeds
/// depends on the platform store and is left unsaid; an entry it gives back
/// is recorded as opened for exactly these two arguments.
#[verifier::external_body]
pub(crate) fn open_entry(service: &str, user: &str) -> (r: Result<OpenedEntry, keyring::Error>)
    ensures
        r matches Ok(e) ==> e.target() == (service@, user@),
{
    match keyring::Entry::new(service, user) {
        Ok(entry) => Ok(OpenedEntry { entry, target: Ghost((service@, user@)) }),
        Err(error) => Err(error),
    }
}

/// Writes a password into a store entry.
///
/// Trusted: calls `keyring::Entry::set_password(password)` on the entry.
/// The receipt records `password`, the entry's service and account, and
/// whether the call returned `Ok`. Which outcome comes back rests on the
/// platform store and is left unsaid.
#[verifier::external_body]
pub(crate) fn store_password(entry: &OpenedEntry, password: &str) -> (r: (
    Result<(), keyring::Error>,
    StoreReceipt,
))
    ensures
        r.1.text() == password@,
        r.1.target() == entry.target(),
        r.1.accepted() == r.0 is Ok,
{
    let outcome = entry.entry.set_password(password);
    let receipt = StoreReceipt {
        text: Ghost(password@),
        target: Ghost(entry.target@),
        accepted: Ghost(outcome is Ok),
    };
    (outcome, receipt)
}

/// Reads the password of a store entry.
///
/// Trusted: calls `keyring::Entry::get_password`; what comes back rests on
/// the platform store, so nothing is stated of it.
#[verifier::external_body]
pub(crate) fn load_password(entry: &OpenedEntry) -> Result<String, keyring::Error> {
    entry.entry.get_password()
}

/// Deletes the credential behind a store entry.
///
/// Trusted: calls `keyring::Entry::delete_credential`; its outcome rests on
/// the platform store, so nothing is stated of it.
#[verifier::external_body]
pub(crate) fn remove_credential(entry: &OpenedEntry) -> Result<(), keyring::Error> {
    entry.entry.delete_credential()
}

/// Describes a credential store error.
///
/// Trusted: tells `keyring::Error::NoEntry` apart from the other variants and
/// takes the error's `Display` text. The source gives `NoEntry` the text
/// stated below; the text of the other variants carries platform details
/// and is left unsaid.
#[verifier::external_body]
pub(crate) fn describe_failure(error: keyring::Error) -> (f: KeyringFailure)
    ensures
        f.missing ==> f.description@ == "No matching entry found in secure storage"@,
{
    match error {
        keyring::Error::NoEntry => KeyringFailure { missing: true, description: error.to_string() },
        other => KeyringFailure { missing: false, description: other.to_string() },
    }
}

} // verus!
