//! The RAM file store that descriptors read and write: every file has a
//! path, contents, an owning user and permission bits, and each access is
//! checked against the caller's credentials.
use vstd::prelude::*;

use crate::bytes::{bytes_eq, copy_bytes};
use crate::security::{access_allowed, can_access, AccessKind, Credentials, FileMode, SecurityError, UserId};

verus! {

/// Bytes per block-device sector.
pub const SECTOR_SIZE: usize = 512;

/// Sectors of the simulated boot disk.
pub const DEFAULT_SECTOR_COUNT: usize = 256;

pub struct StoredFile {
    pub path: Vec<u8>,
    pub contents: Vec<u8>,
    pub owner: UserId,
    pub mode: FileMode,
}

pub struct FileStore {
    pub files: Vec<StoredFile>,
}

/// Index of the first file stored under `path`.
pub open spec fn index_of(files: Seq<StoredFile>, path: Seq<u8>) -> Option<int> {
    if exists|i: int| 0 <= i < files.len() && (#[trigger] files[i]).path@ == path {
        Some(choose|i: int| 0 <= i < files.len() && (#[trigger] files[i]).path@ == path && (forall|j: int| 0 <= j < i ==> (#[trigger] files[j]).path@ != path))
    } else {
        None
    }
}

/// `index_of` is the first position holding `path`.
pub proof fn lemma_index_of_first(files: Seq<StoredFile>, path: Seq<u8>, i: int)
    requires
        0 <= i < files.len(),
        files[i].path@ == path,
        forall|j: int| 0 <= j < i ==> (#[trigger] files[j]).path@ != path,
    ensures
        index_of(files, path) == Some(i),
{
    let w = choose|k: int| 0 <= k < files.len() && (#[trigger] files[k]).path@ == path && (forall|j: int| 0 <= j < k ==> (#[trigger] files[j]).path@ != path);
    assert(0 <= i < files.len() && files[i].path@ == path && (forall|j: int| 0 <= j < i ==> (#[trigger] files[j]).path@ != path));
    if w < i {
        assert(files[w].path@ != path);
    } else if w > i {
        assert(files[i].path@ != path);
    }
}

impl FileStore {
    pub fn new() -> (r: Self)
        ensures
            r.files@.len() == 0,
    {
        FileStore { files: Vec::new() }
    }

    /// The stored file named `path`, if any.
    pub open spec fn lookup(&self, path: Seq<u8>) -> Option<StoredFile> {
        match index_of(self.files@, path) {
            Some(i) => Some(self.files@[i]),
            None => None,
        }
    }
}

fn find_file(files: &Vec<StoredFile>, path: &[u8]) -> (r: Option<usize>)
    ensures
        match r {
            Some(i) => i < files@.len() && files@[i as int].path@ == path@ && (forall|j: int|
                0 <= j < i ==> (#[trigger] files@[j]).path@ != path@),
            None => forall|j: int| 0 <= j < files@.len() ==> (#[trigger] files@[j]).path@ != path@,
        },
        r matches Some(i) ==> index_of(files@, path@) == Some(i as int),
        r is None ==> index_of(files@, path@) is None,
{
    let mut i: usize = 0;
    while i < files.len()
        invariant
            i <= files@.len(),
            forall|j: int| 0 <= j < i ==> (#[trigger] files@[j]).path@ != path@,
        decreases files@.len() - i,
    {
        if bytes_eq(files[i].path.as_slice(), path) {
            proof {
                let w = choose|k: int| 0 <= k < files@.len() && (#[trigger] files@[k]).path@ == path@ && (forall|j: int| 0 <= j < k ==> (#[trigger] files@[j]).path@ != path@);
                assert(0 <= i < files@.len() && files@[i as int].path@ == path@ && (forall|j: int| 0 <= j < i ==> (#[trigger] files@[j]).path@ != path@));
                if w < i {
                } else if w > i {
                    assert(files@[i as int].path@ != path@);
                }
            }
            return Some(i);
        }
        i += 1;
    }
    None
}

/// Read `path` as `credentials`: `Ok(None)` when no such file exists, the
/// contents when read access is granted, `PermissionDenied` otherwise.
pub fn read_file_checked(store: &FileStore, credentials: Credentials, path: &[u8]) -> (r: Result<
    Option<Vec<u8>>,
    SecurityError,
>)
    ensures
        store.lookup(path@) is None ==> r == Ok::<Option<Vec<u8>>, SecurityError>(None),
        store.lookup(path@) matches Some(f) ==> {
            &&& access_allowed(credentials, f.owner, f.mode.spec_bits(), AccessKind::Read) ==> r is Ok
                && r->Ok_0 is Some && r->Ok_0->Some_0@ == f.contents@
            &&& !access_allowed(credentials, f.owner, f.mode.spec_bits(), AccessKind::Read) ==> r
                == Err::<Option<Vec<u8>>, SecurityError>(SecurityError::PermissionDenied)
        },
{
    match find_file(&store.files, path) {
        None => Ok(None),
        Some(i) => {
            let f = &store.files[i];
            match can_access(credentials, f.owner, f.mode, AccessKind::Read) {
                Ok(_) => Ok(Some(copy_bytes(f.contents.as_slice()))),
                Err(e) => Err(e),
            }
        },
    }
}

/// Write `payload` to `path` as `credentials`: an existing file needs write
/// access and has its contents replaced; a new file is created owned by the
/// writer with read-write bits.
pub fn write_file_checked(
    store: &mut FileStore,
    credentials: Credentials,
    path: &[u8],
    payload: &[u8],
) -> (r: Result<(), SecurityError>)
    ensures
        old(store).lookup(path@) is None ==> r is Ok && final(store).files@.len() == old(store).files@.len() + 1
            && final(store).files@.last().path@ == path@ && final(store).files@.last().contents@ == payload@
            && final(store).files@.last().owner == credentials.user
            && final(store).files@.last().mode.spec_bits() == 3
            && final(store).files@.drop_last() == old(store).files@,
        old(store).lookup(path@) matches Some(f) ==> {
            &&& access_allowed(credentials, f.owner, f.mode.spec_bits(), AccessKind::Write) ==> r is Ok
                && final(store).files@ == old(store).files@.update(
                index_of(old(store).files@, path@)->Some_0,
                StoredFile { contents: final(store).files@[index_of(old(store).files@, path@)->Some_0].contents, ..f },
            ) && final(store).files@[index_of(old(store).files@, path@)->Some_0].contents@ == payload@
            &&& !access_allowed(credentials, f.owner, f.mode.spec_bits(), AccessKind::Write) ==> r
                == Err::<(), SecurityError>(SecurityError::PermissionDenied) && final(store).files@
                == old(store).files@
        },
        r is Ok ==> final(store).lookup(path@) is Some && final(store).lookup(path@)->Some_0.contents@
            == payload@,
        r is Ok && old(store).lookup(path@) is None ==> final(store).lookup(path@)->Some_0.owner
            == credentials.user && final(store).lookup(path@)->Some_0.mode.spec_bits() == 3,
        r is Ok && old(store).lookup(path@) is Some ==> final(store).lookup(path@)->Some_0.owner
            == old(store).lookup(path@)->Some_0.owner && final(store).lookup(path@)->Some_0.mode
            == old(store).lookup(path@)->Some_0.mode,
{
    match find_file(&store.files, path) {
        None => {
            let ghost before = store.files@;
            store.files.push(
                StoredFile {
                    path: copy_bytes(path),
                    contents: copy_bytes(payload),
                    owner: credentials.user,
                    mode: FileMode::user_file(),
                },
            );
            assert(forall|j: int| 0 <= j < before.len() ==> (#[trigger] store.files@[j]) == before[j]);
            proof {
                lemma_index_of_first(store.files@, path@, before.len() as int);
            }
            Ok(())
        },
        Some(i) => {
            let owner = store.files[i].owner;
            let mode = store.files[i].mode;
            match can_access(credentials, owner, mode, AccessKind::Write) {
                Ok(_) => {
                    let mut f = store.files.remove(i);
                    f.contents = copy_bytes(payload);
                    store.files.insert(i, f);
                    proof {
                        assert(forall|j: int| 0 <= j < i ==> (#[trigger] store.files@[j]) == old(store).files@[j]);
                        lemma_index_of_first(store.files@, path@, i as int);
                    }
                    Ok(())
                },
                Err(e) => Err(e),
            }
        },
    }
}

/// Add or replace a file without an access check (image setup).
pub fn install_file(store: &mut FileStore, path: &[u8], contents: &[u8], owner: UserId, mode: FileMode)
    ensures
        final(store).lookup(path@) is Some,
        final(store).lookup(path@)->Some_0.contents@ == contents@,
        final(store).lookup(path@)->Some_0.owner == owner,
        final(store).lookup(path@)->Some_0.mode == mode,
{
    match find_file(&store.files, path) {
        None => {
            let ghost before = store.files@;
            store.files.push(
                StoredFile { path: copy_bytes(path), contents: copy_bytes(contents), owner, mode },
            );
            assert(store.files@[before.len() as int].path@ == path@);
            assert(forall|j: int| 0 <= j < before.len() ==> (#[trigger] store.files@[j]) == before[j]);
            proof {
                lemma_index_of_first(store.files@, path@, before.len() as int);
            }
        },
        Some(i) => {
            let mut f = store.files.remove(i);
            f.contents = copy_bytes(contents);
            f.owner = owner;
            f.mode = mode;
            let ghost before = store.files@;
            store.files.insert(i, f);
            proof {
                assert(forall|j: int| 0 <= j < i ==> (#[trigger] store.files@[j]) == old(store).files@[j]);
                lemma_index_of_first(store.files@, path@, i as int);
            }
        },
    }
}

/// Read after write: once `credentials` have written `payload` to `path`,
/// a read of `path` by the same credentials returns `payload`, provided they
/// may read the file (always so for a file the write created).
pub proof fn lemma_read_after_write(before: FileStore, after: FileStore, credentials: Credentials, path: Seq<u8>, payload: Seq<u8>)
    requires
        after.lookup(path) is Some,
        after.lookup(path)->Some_0.contents@ == payload,
        before.lookup(path) is None ==> after.lookup(path)->Some_0.owner == credentials.user
            && after.lookup(path)->Some_0.mode.spec_bits() == 3,
    ensures
        before.lookup(path) is None ==> access_allowed(credentials, after.lookup(path)->Some_0.owner,
            after.lookup(path)->Some_0.mode.spec_bits(), AccessKind::Read),
{
    if before.lookup(path) is None {
        assert((3u8 & 1u8) != 0u8) by (bit_vector);
    }
}

} // verus!
