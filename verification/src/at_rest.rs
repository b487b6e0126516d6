//! At-rest protection for the local mirror.
//!
//! The store is a full copy of your mail in a SQLite file. We use the
//! platform's own file encryption, best-effort by design: a system that cannot
//! do it is not a reason to refuse to run. But it is verified rather than
//! assumed. EFS can be restricted so that the encryption call reports success
//! while encrypting nothing, and believing it would be worse than not trying.
//!
//! The calls into the filesystem are the application's; what their answers
//! mean is decided here.

use vstd::prelude::*;

verus! {

/// How the local mirror is protected at rest, and who is responsible for it.
///
/// A boolean could not tell "we asked for encryption and it did not happen"
/// apart from "this platform protects the whole volume", and those two deserve
/// opposite words in the settings panel.
#[derive(Debug, Clone, Copy, PartialEq, Eq)]
pub enum Protection {
    /// We marked the file for encryption and the filesystem confirms the
    /// attribute is set.
    Encrypted,
    /// We asked and the attribute is not set: the mail is on disk in the clear.
    Refused,
    /// The platform encrypts at the volume level instead. We neither perform
    /// nor verify that, and say so rather than taking credit for it.
    Volume,
}

/// Why protecting the store failed.
#[derive(Debug, Clone, PartialEq, Eq)]
pub enum AtRestError {
    /// The encryption call itself failed for this path.
    CouldNotEncrypt(String),
    /// The call reported success but the attribute is not set: encryption is
    /// refused on this system.
    AttributeNotSet(String),
}

/// `FILE_ATTRIBUTE_ENCRYPTED`.
pub const FILE_ATTRIBUTE_ENCRYPTED: u32 = 0x4000;

/// What is protecting the store: on Windows, whether the attribute is set;
/// elsewhere the volume, which is not ours to claim either way.
pub fn protection(on_windows: bool, attribute_set: bool) -> (r: Protection)
    ensures
        r == if !on_windows {
            Protection::Volume
        } else if attribute_set {
            Protection::Encrypted
        } else {
            Protection::Refused
        },
{
    if on_windows {
        if attribute_set {
            Protection::Encrypted
        } else {
            Protection::Refused
        }
    } else {
        Protection::Volume
    }
}

/// Whether the filesystem marked a path encrypted, from its attributes; a
/// path whose metadata could not be read is not.
pub fn is_encrypted(file_attributes: Option<u32>) -> (r: bool)
    ensures
        r == match file_attributes {
            Some(a) => a & FILE_ATTRIBUTE_ENCRYPTED != 0,
            None => false,
        },
{
    match file_attributes {
        Some(a) => a & FILE_ATTRIBUTE_ENCRYPTED != 0,
        None => false,
    }
}

/// What marking a path for encryption came to. Elsewhere than Windows there
/// is nothing to do. On Windows the attribute is trusted, not the call's
/// return value: success is reported only when the attribute is set.
pub fn protect(on_windows: bool, call_succeeded: bool, attribute_set: bool, path: &str) -> (r:
    Result<(), AtRestError>)
    ensures
        r is Ok <==> (!on_windows || (call_succeeded && attribute_set)),
        r matches Err(AtRestError::CouldNotEncrypt(p)) ==> p@ == path@ && !call_succeeded,
        r matches Err(AtRestError::AttributeNotSet(p)) ==> p@ == path@ && call_succeeded
            && !attribute_set,
{
    if !on_windows {
        return Ok(());
    }
    if !call_succeeded {
        return Err(AtRestError::CouldNotEncrypt(path.to_owned()));
    }
    if !attribute_set {
        return Err(AtRestError::AttributeNotSet(path.to_owned()));
    }
    Ok(())
}

/// The 16 bytes SQLite writes at the head of every database file.
pub open spec fn sqlite_magic() -> Seq<u8> {
    seq![83u8, 81, 76, 105, 116, 101, 32, 102, 111, 114, 109, 97, 116, 32, 51, 0]
}

/// Whether a file is a plain, unencrypted SQLite database, from its first 16
/// bytes; a file that could not be read that far is not.
pub fn is_plaintext_sqlite(header: Option<&[u8]>) -> (r: bool)
    ensures
        r == match header {
            Some(h) => h@ == sqlite_magic(),
            None => false,
        },
{
    let h = match header {
        Some(h) => h,
        None => {
            return false;
        },
    };
    let magic: [u8; 16] = [83, 81, 76, 105, 116, 101, 32, 102, 111, 114, 109, 97, 116, 32, 51, 0];
    assert(magic@ =~= sqlite_magic());
    if h.len() != 16 {
        assert(h@.len() != sqlite_magic().len());
        return false;
    }
    let mut i: usize = 0;
    while i < 16
        invariant
            i <= 16,
            header == Some(h),
            h@.len() == 16,
            magic@ == sqlite_magic(),
            forall|k: int| 0 <= k < i ==> h@[k] == magic@[k],
        decreases 16 - i,
    {
        if h[i] != magic[i] {
            assert(h@[i as int] != sqlite_magic()[i as int]);
            return false;
        }
        i += 1;
    }
    assert(h@ =~= magic@);
    true
}

} // verus!
