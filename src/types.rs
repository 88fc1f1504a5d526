use vstd::prelude::*;
use crate::order::{bytes_lt, compare_bytes};

verus! {

/// Largest length, in bytes, of a collection name or a file key.
pub const MAX_KEY_LEN: usize = 32;

/// Errors returned by the library's operations.
#[derive(Clone, Copy, Debug, PartialEq, Eq, Structural)]
pub enum FilesError {
    DuplicateUsername,
    IdentityAlreadyRegistered,
    UserNotFound,
    Denied,
    KeyTooLong,
    NotFound,
}

/// Rights that an owner can grant on a collection, ordered from weakest to
/// strongest.
#[derive(Clone, Copy, Debug, PartialEq, Eq, Structural)]
pub enum AccessRights {
    Read,
    ReadWrite,
    ReadWriteManage,
}

/// Numeric rank of a rights level; the owner ranks above every grant.
pub open spec fn rank(r: AccessRights) -> int {
    match r {
        AccessRights::Read => 1,
        AccessRights::ReadWrite => 2,
        AccessRights::ReadWriteManage => 3,
    }
}

/// Executable counterpart of `rank`.
pub fn rights_rank(r: AccessRights) -> (n: u8)
    ensures
        n as int == rank(r),
{
    match r {
        AccessRights::Read => 1,
        AccessRights::ReadWrite => 2,
        AccessRights::ReadWriteManage => 3,
    }
}

/// Byte-wise equality of two byte vectors.
pub fn bytes_eq(a: &Vec<u8>, b: &Vec<u8>) -> (r: bool)
    ensures
        r == (a@ == b@),
{
    if a.len() != b.len() {
        return false;
    }
    let mut i: usize = 0;
    while i < a.len()
        invariant
            a@.len() == b@.len(),
            0 <= i <= a@.len(),
            a@.subrange(0, i as int) == b@.subrange(0, i as int),
        decreases a@.len() - i,
    {
        if a[i] != b[i] {
            assert(a@[i as int] != b@[i as int]);
            return false;
        }
        assert(a@.subrange(0, i + 1) == a@.subrange(0, i as int).push(a@[i as int]));
        assert(b@.subrange(0, i + 1) == b@.subrange(0, i as int).push(b@[i as int]));
        i = i + 1;
    }
    assert(a@ == a@.subrange(0, a@.len() as int));
    assert(b@ == b@.subrange(0, b@.len() as int));
    true
}

/// Copy of a byte vector.
pub fn copy_bytes(a: &Vec<u8>) -> (r: Vec<u8>)
    ensures
        r@ == a@,
{
    let mut r: Vec<u8> = Vec::new();
    let mut i: usize = 0;
    while i < a.len()
        invariant
            0 <= i <= a@.len(),
            r@ == a@.subrange(0, i as int),
        decreases a@.len() - i,
    {
        r.push(a[i]);
        assert(a@.subrange(0, i + 1) == a@.subrange(0, i as int).push(a@[i as int]));
        i = i + 1;
    }
    assert(a@ == a@.subrange(0, a@.len() as int));
    r
}

/// Opaque identity of a caller, as issued by the hosting environment.
#[derive(Debug)]
pub struct Identity {
    pub bytes: Vec<u8>,
}

impl View for Identity {
    type V = Seq<u8>;

    open spec fn view(&self) -> Seq<u8> {
        self.bytes@
    }
}

impl Identity {
    pub fn from_bytes(bytes: Vec<u8>) -> (r: Identity)
        ensures
            r@ == bytes@,
    {
        Identity { bytes }
    }

    pub fn same(&self, other: &Identity) -> (r: bool)
        ensures
            r == (self@ == other@),
    {
        bytes_eq(&self.bytes, &other.bytes)
    }

    /// Negative, zero or positive as `self` comes before, equals or comes
    /// after `other` in byte order.
    pub fn compare(&self, other: &Identity) -> (r: i8)
        ensures
            r < 0 <==> bytes_lt(self@, other@),
            r == 0 <==> self@ == other@,
            r > 0 <==> bytes_lt(other@, self@),
    {
        compare_bytes(self.bytes.as_slice(), other.bytes.as_slice())
    }

    pub fn duplicate(&self) -> (r: Identity)
        ensures
            r@ == self@,
    {
        Identity { bytes: copy_bytes(&self.bytes) }
    }
}

/// A byte string of at most `MAX_KEY_LEN` bytes: a collection name or a file
/// key.
#[derive(Debug)]
pub struct Blob {
    bytes: Vec<u8>,
}

impl View for Blob {
    type V = Seq<u8>;

    closed spec fn view(&self) -> Seq<u8> {
        self.bytes@
    }
}

impl Blob {
    /// Builds a key from `bytes`, refusing more than `MAX_KEY_LEN` bytes.
    pub fn try_from_bytes(bytes: &Vec<u8>) -> (r: Result<Blob, FilesError>)
        ensures
            bytes@.len() <= MAX_KEY_LEN <==> r is Ok,
            r is Ok ==> r->Ok_0@ == bytes@,
            r is Err ==> r->Err_0 == FilesError::KeyTooLong,
    {
        if bytes.len() > MAX_KEY_LEN {
            Err(FilesError::KeyTooLong)
        } else {
            Ok(Blob { bytes: copy_bytes(bytes) })
        }
    }

    pub fn to_bytes(&self) -> (r: Vec<u8>)
        ensures
            r@ == self@,
    {
        copy_bytes(&self.bytes)
    }

    pub fn same(&self, other: &Blob) -> (r: bool)
        ensures
            r == (self@ == other@),
    {
        bytes_eq(&self.bytes, &other.bytes)
    }

    /// Negative, zero or positive as `self` comes before, equals or comes
    /// after `other` in byte order.
    pub fn compare(&self, other: &Blob) -> (r: i8)
        ensures
            r < 0 <==> bytes_lt(self@, other@),
            r == 0 <==> self@ == other@,
            r > 0 <==> bytes_lt(other@, self@),
    {
        compare_bytes(self.bytes.as_slice(), other.bytes.as_slice())
    }

    pub fn duplicate(&self) -> (r: Blob)
        ensures
            r@ == self@,
    {
        Blob { bytes: copy_bytes(&self.bytes) }
    }
}

/// Converts caller-supplied bytes into a bounded key.
pub fn bytebuf_to_blob(buf: &Vec<u8>) -> (r: Result<Blob, FilesError>)
    ensures
        buf@.len() <= MAX_KEY_LEN <==> r is Ok,
        r is Ok ==> r->Ok_0@ == buf@,
        r is Err ==> r->Err_0 == FilesError::KeyTooLong,
{
    Blob::try_from_bytes(buf)
}

} // verus!
