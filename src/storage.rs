use vstd::prelude::*;

use crate::error::Error;

verus! {

/// Id of a set of private key data.
#[derive(Clone, Copy, Debug, PartialEq, Eq, Structural)]
pub struct PrvKeyDataId(pub u64);

/// Id of an account.
#[derive(Clone, Copy, Debug, PartialEq, Eq, Structural)]
pub struct AccountId(pub u64);

/// Key under which an account is stored.
#[derive(Clone, Copy, Debug, PartialEq, Eq, Structural)]
pub struct AccountStorageKey(pub u64);

/// Kind of an account.
#[derive(Clone, Copy, Debug, PartialEq, Eq, Structural)]
pub enum AccountKind {
    Legacy,
    Bip32,
    MultiSig,
}

pub uninterp spec fn lower_of(s: Seq<char>) -> Seq<char>;

/// Relies on str::to_lowercase: the lower-case form depends on the characters alone.
#[verifier::external_body]
fn lowercase(s: &str) -> (r: String)
    ensures
        r@ == lower_of(s@),
{
    s.to_lowercase()
}

/// The account kind a lower-case name stands for.
pub open spec fn kind_named(name: Seq<char>) -> Option<AccountKind> {
    if name == "legacy"@ {
        Some(AccountKind::Legacy)
    } else if name == "bip32"@ {
        Some(AccountKind::Bip32)
    } else if name == "multisig"@ {
        Some(AccountKind::MultiSig)
    } else {
        None
    }
}

impl AccountKind {
    pub open spec fn spec_name(self) -> Seq<char> {
        match self {
            AccountKind::Legacy => "legacy"@,
            AccountKind::Bip32 => "bip32"@,
            AccountKind::MultiSig => "multisig"@,
        }
    }

    /// The kind's name.
    pub fn to_string(&self) -> (r: String)
        ensures
            r@ == self.spec_name(),
    {
        match self {
            AccountKind::Legacy => "legacy".to_owned(),
            AccountKind::Bip32 => "bip32".to_owned(),
            AccountKind::MultiSig => "multisig".to_owned(),
        }
    }

    /// The kind a lower-case name stands for.
    pub fn from_lowercase_name(name: &String) -> (r: Result<AccountKind, Error>)
        ensures
            r == match kind_named(name@) {
                Some(k) => Ok::<AccountKind, Error>(k),
                None => Err(Error::InvalidAccountKind),
            },
    {
        if *name == "legacy".to_owned() {
            Ok(AccountKind::Legacy)
        } else if *name == "bip32".to_owned() {
            Ok(AccountKind::Bip32)
        } else if *name == "multisig".to_owned() {
            Ok(AccountKind::MultiSig)
        } else {
            Err(Error::InvalidAccountKind)
        }
    }

    /// The kind a name stands for, in any case.
    pub fn from_str(s: &str) -> (r: Result<AccountKind, Error>)
        ensures
            r == match kind_named(lower_of(s@)) {
                Some(k) => Ok::<AccountKind, Error>(k),
                None => Err(Error::InvalidAccountKind),
            },
    {
        let name = lowercase(s);
        Self::from_lowercase_name(&name)
    }
}

/// User-facing settings of an account.
#[derive(Clone, Debug, Default)]
pub struct AccountSettings {
    pub name: Option<String>,
    pub meta: Option<Vec<u8>>,
}

/// The private key data an account is associated with.
#[derive(Clone, Debug)]
pub enum AssocPrvKeyDataIds {
    Unassigned,
    Single(PrvKeyDataId),
    Multiple(Vec<PrvKeyDataId>),
}

impl AssocPrvKeyDataIds {
    /// An association with the listed ids; `None` for no list. An empty list
    /// is refused.
    pub fn try_from_ids(ids: Option<Vec<PrvKeyDataId>>) -> (r: Result<AssocPrvKeyDataIds, Error>)
        ensures
            match ids {
                None => r matches Ok(AssocPrvKeyDataIds::Unassigned),
                Some(v) => if v@.len() == 0 {
                    r == Err::<AssocPrvKeyDataIds, Error>(Error::AssocPrvKeyDataIdsEmpty)
                } else {
                    r matches Ok(AssocPrvKeyDataIds::Multiple(w)) && w@ == v@
                },
            },
    {
        match ids {
            None => Ok(AssocPrvKeyDataIds::Unassigned),
            Some(v) => {
                if v.len() == 0 {
                    Err(Error::AssocPrvKeyDataIdsEmpty)
                } else {
                    Ok(AssocPrvKeyDataIds::Multiple(v))
                }
            },
        }
    }

    /// The single associated id; fails for any other association.
    pub fn try_single(&self) -> (r: Result<PrvKeyDataId, Error>)
        ensures
            match self {
                AssocPrvKeyDataIds::Single(id) => r == Ok::<PrvKeyDataId, Error>(*id),
                _ => r == Err::<PrvKeyDataId, Error>(Error::UnexpectedAssocPrvKeyDataIds),
            },
    {
        match self {
            AssocPrvKeyDataIds::Single(id) => Ok(*id),
            _ => Err(Error::UnexpectedAssocPrvKeyDataIds),
        }
    }

    /// The associated list of ids; fails for any other association.
    pub fn try_multiple(self) -> (r: Result<Vec<PrvKeyDataId>, Error>)
        ensures
            match self {
                AssocPrvKeyDataIds::Multiple(ids) => r matches Ok(v) && v@ == ids@,
                _ => r == Err::<Vec<PrvKeyDataId>, Error>(Error::UnexpectedAssocPrvKeyDataIds),
            },
    {
        match self {
            AssocPrvKeyDataIds::Multiple(ids) => Ok(ids),
            _ => Err(Error::UnexpectedAssocPrvKeyDataIds),
        }
    }

    /// The associated list of ids, `None` when unassigned; fails for a single id.
    pub fn try_optional(self) -> (r: Result<Option<Vec<PrvKeyDataId>>, Error>)
        ensures
            match self {
                AssocPrvKeyDataIds::Unassigned => r matches Ok(None),
                AssocPrvKeyDataIds::Multiple(ids) => r matches Ok(Some(v)) && v@ == ids@,
                AssocPrvKeyDataIds::Single(_) => r == Err::<Option<Vec<PrvKeyDataId>>, Error>(
                    Error::UnexpectedAssocPrvKeyDataIds,
                ),
            },
    {
        match self {
            AssocPrvKeyDataIds::Unassigned => Ok(None),
            AssocPrvKeyDataIds::Multiple(ids) => Ok(Some(ids)),
            AssocPrvKeyDataIds::Single(_) => Err(Error::UnexpectedAssocPrvKeyDataIds),
        }
    }

    pub open spec fn spec_contains(&self, id: PrvKeyDataId) -> bool {
        match self {
            AssocPrvKeyDataIds::Unassigned => false,
            AssocPrvKeyDataIds::Single(single) => *single == id,
            AssocPrvKeyDataIds::Multiple(multiple) => multiple@.contains(id),
        }
    }

    /// Whether `id` is among the associated ids.
    pub fn contains(&self, id: &PrvKeyDataId) -> (r: bool)
        ensures
            r == self.spec_contains(*id),
    {
        match self {
            AssocPrvKeyDataIds::Unassigned => false,
            AssocPrvKeyDataIds::Single(single) => *single == *id,
            AssocPrvKeyDataIds::Multiple(multiple) => {
                let mut i: usize = 0;
                while i < multiple.len()
                    invariant
                        i <= multiple@.len(),
                        self.spec_contains(*id) == multiple@.contains(*id),
                        forall|j: int| 0 <= j < i ==> multiple@[j] != *id,
                    decreases multiple@.len() - i,
                {
                    if multiple[i] == *id {
                        assert(multiple@[i as int] == *id);
                        assert(multiple@.contains(*id));
                        return true;
                    }
                    i += 1;
                }
                false
            },
        }
    }
}

/// An account as it is stored.
#[derive(Clone, Debug)]
pub struct AccountStorage {
    pub kind: AccountKind,
    pub id: AccountId,
    pub storage_key: AccountStorageKey,
    pub prv_key_data_ids: AssocPrvKeyDataIds,
    pub settings: AccountSettings,
    pub serialized: Vec<u8>,
}

impl AccountStorage {
    pub fn new(
        kind: AccountKind,
        id: &AccountId,
        storage_key: &AccountStorageKey,
        prv_key_data_ids: AssocPrvKeyDataIds,
        settings: AccountSettings,
        serialized: &[u8],
    ) -> (r: AccountStorage)
        ensures
            r.kind == kind,
            r.id == *id,
            r.storage_key == *storage_key,
            r.prv_key_data_ids == prv_key_data_ids,
            r.settings == settings,
            r.serialized@ == serialized@,
    {
        AccountStorage {
            id: *id,
            storage_key: *storage_key,
            kind,
            prv_key_data_ids,
            settings,
            serialized: vstd::slice::slice_to_vec(serialized),
        }
    }

    pub fn id(&self) -> (r: &AccountId)
        ensures
            *r == self.id,
    {
        &self.id
    }

    pub fn storage_key(&self) -> (r: &AccountStorageKey)
        ensures
            *r == self.storage_key,
    {
        &self.storage_key
    }

    pub fn serialized(&self) -> (r: &[u8])
        ensures
            r@ == self.serialized@,
    {
        self.serialized.as_slice()
    }
}

/// Folder that holds wallet files.
#[derive(Clone, Debug)]
pub struct Location {
    pub folder: String,
}

impl Location {
    pub fn new(folder: &str) -> (r: Location)
        ensures
            r.folder@ == folder@,
    {
        Location { folder: folder.to_owned() }
    }
}

/// Where a wallet lives: in memory only, or in a file under a location.
#[derive(Clone, Debug)]
pub enum Store {
    Resident,
    Storage(Location),
}

/// The open store of a wallet and whether it holds changes not yet written.
pub struct LocalStoreInner {
    pub store: Store,
    pub is_modified: bool,
}

impl LocalStoreInner {
    pub fn new(store: Store) -> (r: LocalStoreInner)
        ensures
            r.store == store,
            !r.is_modified,
    {
        LocalStoreInner { store, is_modified: false }
    }

    /// Records whether there are unwritten changes; a resident store never has any.
    pub fn set_modified(&mut self, modified: bool)
        ensures
            final(self).store == old(self).store,
            final(self).is_modified == match old(self).store {
                Store::Resident => old(self).is_modified,
                Store::Storage(_) => modified,
            },
    {
        match self.store {
            Store::Resident => {},
            Store::Storage(_) => {
                self.is_modified = modified;
            },
        }
    }

    /// Whether there are unwritten changes; always false for a resident store.
    pub fn is_modified(&self) -> (r: bool)
        ensures
            r == match self.store {
                Store::Resident => false,
                Store::Storage(_) => self.is_modified,
            },
    {
        match self.store {
            Store::Resident => false,
            Store::Storage(_) => self.is_modified,
        }
    }
}

} // verus!
