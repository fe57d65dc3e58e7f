//! The user's OpenRouter key: its format, and its place in the system
//! credential store.

use vstd::prelude::*;
use vstd::string::{StrSliceExecFns, StringExecFns};

use crate::credential_entry::{
    describe_failure, load_password, open_entry, remove_credential, store_password, OpenedEntry,
    StoreReceipt,
};
use crate::text::{chars_of, copy_range, is_blank, string_of, trim, trim_range, trimmed};

verus! {

/// A credential store error as plain values: whether it says that no entry
/// exists, and its text.
#[derive(Clone, Debug)]
pub struct KeyringFailure {
    pub missing: bool,
    pub description: String,
}

/// Whether a key is configured; the key itself is never part of it.
#[derive(Clone, Copy, Debug, PartialEq, Eq, Structural)]
pub struct OpenRouterKeyStatus {
    pub configured: bool,
}

/// The message shown for a key that is not an OpenRouter key.
pub open spec fn invalid_key_message() -> Seq<char> {
    "Введите корректный ключ OpenRouter вида sk-or-…"@
}

/// A character allowed in a key: ASCII letters and digits, `-` and `_`.
pub open spec fn is_key_char(c: char) -> bool {
    ||| '0' <= c <= '9'
    ||| 'a' <= c <= 'z'
    ||| 'A' <= c <= 'Z'
    ||| c == '-'
    ||| c == '_'
}

/// A trimmed key is well formed when it starts with `sk-or-`, has only
/// allowed characters and is at least 24 long. All allowed characters are
/// ASCII, so its length in characters is its length in bytes.
pub open spec fn key_well_formed(t: Seq<char>) -> bool {
    &&& t.len() >= 6
    &&& t.subrange(0, 6) == "sk-or-"@
    &&& t.len() >= 24
    &&& forall|i: int| 0 <= i < t.len() ==> is_key_char(#[trigger] t[i])
}

/// The key without surrounding whitespace when it is well formed.
pub open spec fn validated_key(key: Seq<char>) -> Result<Seq<char>, Seq<char>> {
    if key_well_formed(trim(key)) {
        Ok(trim(key))
    } else {
        Err(invalid_key_message())
    }
}

pub open spec fn result_view<T: View>(r: Result<T, String>) -> Result<T::V, Seq<char>> {
    match r {
        Ok(v) => Ok(v@),
        Err(e) => Err(e@),
    }
}

pub open spec fn status_view(r: Result<OpenRouterKeyStatus, String>) -> Result<bool, Seq<char>> {
    match r {
        Ok(s) => Ok(s.configured),
        Err(e) => Err(e@),
    }
}

/// Validation is idempotent: a key it accepts is accepted again, unchanged.
pub proof fn lemma_validated_key_is_stable(key: Seq<char>)
    requires
        validated_key(key) is Ok,
    ensures
        validated_key(validated_key(key)->Ok_0) == validated_key(key),
{
    let t = trim(key);
    assert(key_well_formed(t));
    assert(is_key_char(t[0]));
    assert(is_key_char(t[t.len() - 1]));
    crate::text::lemma_trim_fixed(t);
}

fn is_key_character(c: char) -> (b: bool)
    ensures
        b == is_key_char(c),
{
    ('0' <= c && c <= '9') || ('a' <= c && c <= 'z') || ('A' <= c && c <= 'Z') || c == '-' || c
        == '_'
}

/// Checks the format of a key and strips surrounding whitespace.
pub fn validate_openrouter_key(key: &str) -> (r: Result<String, String>)
    ensures
        result_view(r) == validated_key(key@),
{
    let cs = chars_of(key);
    let (a, b) = trim_range(&cs, 0, cs.len());
    assert(cs@.subrange(0, cs@.len() as int) =~= cs@);
    let t = copy_range(&cs, a, b);
    let ghost tv = trim(key@);
    assert(t@ == tv);
    let prefix = ['s', 'k', '-', 'o', 'r', '-'];
    proof {
        reveal_strlit("sk-or-");
        assert(prefix@ =~= "sk-or-"@);
    }
    let mut well_formed = t.len() >= 24;
    if well_formed {
        let mut i: usize = 0;
        while i < 6
            invariant
                0 <= i <= 6,
                t.len() >= 24,
                t@ == tv,
                prefix@ == "sk-or-"@,
                well_formed ==> forall|j: int| 0 <= j < i ==> t@[j] == prefix@[j],
                !well_formed ==> t@.subrange(0, 6) != "sk-or-"@,
            decreases 6 - i,
        {
            if t[i] != prefix[i] {
                if well_formed {
                    proof {
                        reveal_strlit("sk-or-");
                        assert(t@.subrange(0, 6)[i as int] != "sk-or-"@[i as int]);
                    }
                }
                well_formed = false;
            }
            i = i + 1;
        }
        proof {
            reveal_strlit("sk-or-");
            if well_formed {
                assert(t@.subrange(0, 6) =~= "sk-or-"@);
            }
        }
    }
    if well_formed {
        let mut i: usize = 0;
        while i < t.len()
            invariant
                0 <= i <= t.len(),
                t@ == tv,
                well_formed ==> forall|j: int| 0 <= j < i ==> is_key_char(#[trigger] t@[j]),
                !well_formed ==> !(forall|j: int| 0 <= j < t@.len() ==> is_key_char(#[trigger] t@[j])),
            decreases t.len() - i,
        {
            if !is_key_character(t[i]) {
                well_formed = false;
            }
            i = i + 1;
        }
    }
    if well_formed {
        Ok(string_of(&t))
    } else {
        Err(String::from_str("Введите корректный ключ OpenRouter вида sk-or-…"))
    }
}


/// The message for a failed store operation: the context, a colon and the
/// store's description of the error.
pub open spec fn failure_message(context: Seq<char>, description: Seq<char>) -> Seq<char> {
    context + ": "@ + description
}

/// Builds the message for a failed store operation.
pub fn credential_error(context: &str, failure: &KeyringFailure) -> (m: String)
    ensures
        m@ == failure_message(context@, failure.description@),
{
    let mut m = String::from_str(context);
    m.append(": ");
    m.append(failure.description.as_str());
    m
}

/// A store result as plain values: the password read, or whether the error
/// says that no entry exists and its text.
pub open spec fn lookup_view(r: Result<String, KeyringFailure>) -> Result<Seq<char>, (bool, Seq<char>)> {
    match r {
        Ok(s) => Ok(s@),
        Err(f) => Err((f.missing, f.description@)),
    }
}

pub open spec fn done_view(r: Result<(), KeyringFailure>) -> Result<(), (bool, Seq<char>)> {
    match r {
        Ok(()) => Ok(()),
        Err(f) => Err((f.missing, f.description@)),
    }
}

/// The status for what the store returned: a stored key counts as
/// configured unless it is blank; no entry means not configured; any other
/// error is reported.
pub open spec fn status_outcome(lookup: Result<Seq<char>, (bool, Seq<char>)>) -> Result<bool, Seq<char>> {
    match lookup {
        Ok(key) => Ok(!is_blank(key)),
        Err((missing, text)) => if missing {
            Ok(false)
        } else {
            Err(failure_message("Не удалось проверить сохранённый ключ"@, text))
        },
    }
}

/// The key for what the store returned: a stored key must pass validation;
/// every error, a missing entry included, is reported.
pub open spec fn read_outcome(lookup: Result<Seq<char>, (bool, Seq<char>)>) -> Result<Seq<char>, Seq<char>> {
    match lookup {
        Ok(key) => validated_key(key),
        Err((_, text)) => Err(failure_message("Не удалось прочитать сохранённый ключ"@, text)),
    }
}

/// The status after a deletion: a deleted or absent entry is not
/// configured; any other error is reported.
pub open spec fn delete_outcome(done: Result<(), (bool, Seq<char>)>) -> Result<bool, Seq<char>> {
    match done {
        Ok(()) => Ok(false),
        Err((missing, text)) => if missing {
            Ok(false)
        } else {
            Err(failure_message("Не удалось удалить ключ"@, text))
        },
    }
}

/// The status after storing a validated key.
pub open spec fn save_outcome(done: Result<(), (bool, Seq<char>)>) -> Result<bool, Seq<char>> {
    match done {
        Ok(()) => Ok(true),
        Err((_, text)) => Err(failure_message("Не удалось сохранить ключ"@, text)),
    }
}

/// Whether a stored key counts as configured.
pub fn status_from_lookup(lookup: Result<String, KeyringFailure>) -> (r: Result<
    OpenRouterKeyStatus,
    String,
>)
    ensures
        status_view(r) == status_outcome(lookup_view(lookup)),
{
    match lookup {
        Ok(key) => {
            let t = trimmed(key.as_str());
            Ok(OpenRouterKeyStatus { configured: t.as_str().unicode_len() != 0 })
        },
        Err(failure) => {
            if failure.missing {
                Ok(OpenRouterKeyStatus { configured: false })
            } else {
                Err(credential_error("Не удалось проверить сохранённый ключ", &failure))
            }
        },
    }
}

/// The key to use for what the store returned.
pub fn key_from_lookup(lookup: Result<String, KeyringFailure>) -> (r: Result<String, String>)
    ensures
        result_view(r) == read_outcome(lookup_view(lookup)),
{
    match lookup {
        Ok(key) => validate_openrouter_key(key.as_str()),
        Err(failure) => Err(credential_error("Не удалось прочитать сохранённый ключ", &failure)),
    }
}

/// The status after a deletion attempt.
pub fn status_after_delete(done: Result<(), KeyringFailure>) -> (r: Result<
    OpenRouterKeyStatus,
    String,
>)
    ensures
        status_view(r) == delete_outcome(done_view(done)),
{
    match done {
        Ok(()) => Ok(OpenRouterKeyStatus { configured: false }),
        Err(failure) => {
            if failure.missing {
                Ok(OpenRouterKeyStatus { configured: false })
            } else {
                Err(credential_error("Не удалось удалить ключ", &failure))
            }
        },
    }
}

/// The status after storing a key.
pub fn status_after_save(done: Result<(), KeyringFailure>) -> (r: Result<
    OpenRouterKeyStatus,
    String,
>)
    ensures
        status_view(r) == save_outcome(done_view(done)),
{
    match done {
        Ok(()) => Ok(OpenRouterKeyStatus { configured: true }),
        Err(failure) => Err(credential_error("Не удалось сохранить ключ", &failure)),
    }
}

fn failure_of<T>(r: Result<T, keyring::Error>) -> (f: Result<T, KeyringFailure>)
    ensures
        r is Ok <==> f is Ok,
        r matches Ok(v) ==> f == Ok::<T, KeyringFailure>(v),
{
    match r {
        Ok(v) => Ok(v),
        Err(e) => Err(describe_failure(e)),
    }
}

/// The OpenRouter key in the system credential store: the store entry, and
/// the receipt of the last key this store handed to it.
pub struct OpenRouterCredentialStore {
    entry: OpenedEntry,
    written: Option<StoreReceipt>,
}

impl OpenRouterCredentialStore {
    /// The service whose entry this store reads and writes.
    pub closed spec fn service_name(&self) -> Seq<char> {
        self.entry.target().0
    }

    /// The account whose entry this store reads and writes.
    pub closed spec fn account_name(&self) -> Seq<char> {
        self.entry.target().1
    }

    /// The text this store last handed to its own entry to be written, if
    /// any.
    pub closed spec fn last_written(&self) -> Option<Seq<char>> {
        match self.written {
            Some(receipt) => if receipt.target() == self.entry.target() {
                Some(receipt.text())
            } else {
                None
            },
            None => None,
        }
    }

    /// Whether the store reported the last write of this store's own entry
    /// as done.
    pub closed spec fn last_write_accepted(&self) -> bool {
        match self.written {
            Some(receipt) => receipt.target() == self.entry.target() && receipt.accepted(),
            None => false,
        }
    }

    /// The application's store: the `Simple Dub` service.
    pub fn new() -> (r: Result<Self, String>)
        ensures
            r matches Ok(s) ==> s.service_name() == "Simple Dub"@ && s.account_name()
                == "openrouter-api-key"@ && s.last_written() is None,
            r matches Err(m) ==> exists|text: Seq<char>|
                m@ == failure_message("Не удалось открыть хранилище ключей"@, text),
    {
        Self::with_service("Simple Dub")
    }

    /// A store under its own service name, so that tests leave the
    /// application's entry alone.
    pub fn with_service(service: &str) -> (r: Result<Self, String>)
        ensures
            r matches Ok(s) ==> s.service_name() == service@ && s.account_name()
                == "openrouter-api-key"@ && s.last_written() is None,
            r matches Err(m) ==> exists|text: Seq<char>|
                m@ == failure_message("Не удалось открыть хранилище ключей"@, text),
    {
        let account = "openrouter-api-key";
        match open_entry(service, account) {
            Ok(entry) => Ok(OpenRouterCredentialStore { entry, written: None }),
            Err(e) => {
                let failure = describe_failure(e);
                Err(credential_error("Не удалось открыть хранилище ключей", &failure))
            },
        }
    }

    /// Stores a validated key: the key without surrounding whitespace is
    /// handed to the credential store. An invalid key is refused before the
    /// store is touched.
    pub fn save(&mut self, key: &str) -> (r: Result<OpenRouterKeyStatus, String>)
        ensures
            final(self).service_name() == old(self).service_name(),
            final(self).account_name() == old(self).account_name(),
            validated_key(key@) matches Err(m) ==> status_view(r) == Err::<bool, Seq<char>>(m)
                && final(self).last_written() == old(self).last_written(),
            validated_key(key@) matches Ok(t) ==> final(self).last_written() == Some(t),
            validated_key(key@) is Ok ==> (r is Ok <==> final(self).last_write_accepted()),
            validated_key(key@) is Ok ==> exists|done: Result<(), (bool, Seq<char>)>|
                status_view(r) == save_outcome(done),
    {
        match validate_openrouter_key(key) {
            Err(m) => Err(m),
            Ok(normalized) => {
                let (written, receipt) = store_password(&self.entry, normalized.as_str());
                self.written = Some(receipt);
                status_after_save(failure_of(written))
            },
        }
    }

    /// Whether a key is configured, without returning it.
    pub fn status(&self) -> (r: Result<OpenRouterKeyStatus, String>)
        ensures
            exists|lookup: Result<Seq<char>, (bool, Seq<char>)>|
                status_view(r) == status_outcome(lookup),
    {
        status_from_lookup(failure_of(load_password(&self.entry)))
    }

    /// The stored key, for the translation request only.
    pub fn read(&self) -> (r: Result<String, String>)
        ensures
            exists|lookup: Result<Seq<char>, (bool, Seq<char>)>|
                result_view(r) == read_outcome(lookup),
    {
        key_from_lookup(failure_of(load_password(&self.entry)))
    }

    /// Deletes the key; an absent entry counts as deleted.
    pub fn delete(&self) -> (r: Result<OpenRouterKeyStatus, String>)
        ensures
            exists|done: Result<(), (bool, Seq<char>)>| status_view(r) == delete_outcome(done),
    {
        status_after_delete(failure_of(remove_credential(&self.entry)))
    }
}

} // verus!
