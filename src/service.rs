use vstd::prelude::*;
use crate::access::{authorized, collection_list_view, grantee_list_view, grantees_of, rights_at, shared_with,
    AccessControl};
use crate::directory::{opt_string_view, opt_user_view, user_named, user_with_identity, matching_users, users_of,
    User, UserDirectory, UserView, SEARCH_LIMIT};
use crate::store::{blob_list_view, files_of, listing_view, previous_view, record_at, strings_view, uploaded_record,
    keys_ascending, lemma_listing_matches_store, FileMetadata, FileStore, MetadataView};
use crate::types::{bytebuf_to_blob, AccessRights, Blob, FilesError, Identity, MAX_KEY_LEN};

verus! {

/// A name or key of at most `MAX_KEY_LEN` bytes.
pub open spec fn fits(b: Seq<u8>) -> bool {
    b.len() <= MAX_KEY_LEN
}

pub open spec fn bytes_list_view(v: Seq<Vec<u8>>) -> Seq<Seq<u8>> {
    v.map_values(|b: Vec<u8>| b@)
}

pub open spec fn bytes_pair_list_view(v: Seq<(Identity, Vec<u8>)>) -> Seq<(Seq<u8>, Seq<u8>)> {
    v.map_values(|p: (Identity, Vec<u8>)| (p.0@, p.1@))
}

/// The whole service: user directory, grants, and stored files.
pub struct FileSharing {
    pub directory: UserDirectory,
    pub access: AccessControl,
    pub store: FileStore,
}

impl FileSharing {
    pub open spec fn wf(&self) -> bool {
        self.directory.wf() && self.access.wf() && self.store.wf()
    }

    pub fn new() -> (r: FileSharing)
        ensures
            r.wf(),
            r.directory.users_view() == Seq::<UserView>::empty(),
            r.access.rights() == Map::<crate::access::GrantKey, AccessRights>::empty(),
            r.store.files() == Map::<crate::store::FileId, crate::store::FileRecord>::empty(),
    {
        FileSharing { directory: UserDirectory::new(), access: AccessControl::new(), store: FileStore::new() }
    }

    /// Registers `caller` under `username` at time `now`.
    pub fn register_user(&mut self, caller: Identity, username: String, display_name: Option<String>, now: u64) -> (r: Result<User, FilesError>)
        requires
            old(self).wf(),
        ensures
            final(self).wf(),
            final(self).access == old(self).access,
            final(self).store == old(self).store,
            user_named(old(self).directory.users_view(), username@) is Some
                ==> r == Err::<User, FilesError>(FilesError::DuplicateUsername)
                    && final(self).directory.users_view() == old(self).directory.users_view(),
            user_named(old(self).directory.users_view(), username@) is None
                && user_with_identity(old(self).directory.users_view(), caller@) is Some
                ==> r == Err::<User, FilesError>(FilesError::IdentityAlreadyRegistered)
                    && final(self).directory.users_view() == old(self).directory.users_view(),
            user_named(old(self).directory.users_view(), username@) is None
                && user_with_identity(old(self).directory.users_view(), caller@) is None
                ==> r is Ok && r->Ok_0@ == (UserView {
                    username: username@,
                    principal: caller@,
                    display_name: opt_string_view(display_name),
                    created_at: now,
                }) && exists|p: int| 0 <= p <= old(self).directory.users@.len()
                    && final(self).directory.users_view() == old(self).directory.users_view().insert(p, r->Ok_0@),
    {
        self.directory.register_user(caller, username, display_name, now)
    }

    pub fn get_user_by_username(&self, username: &String) -> (r: Option<User>)
        requires
            self.wf(),
        ensures
            opt_user_view(r) == user_named(self.directory.users_view(), username@),
    {
        self.directory.get_user_by_username(username)
    }

    pub fn get_my_user_profile(&self, caller: &Identity) -> (r: Option<User>)
        requires
            self.wf(),
        ensures
            opt_user_view(r) == user_with_identity(self.directory.users_view(), caller@),
    {
        self.directory.get_my_user_profile(caller)
    }

    pub fn search_users(&self, query: &String) -> (r: Vec<User>)
        requires
            self.wf(),
        ensures
            users_of(r@) == matching_users(self.directory.users_view(), query@).take(
                vstd::math::min(SEARCH_LIMIT as int, matching_users(self.directory.users_view(), query@).len() as int)),
            crate::directory::sorted_by_name(users_of(r@)),
    {
        self.directory.search_users(query)
    }

    /// Collections of other owners that `caller` has been granted access to.
    pub fn get_accessible_shared_collections(&self, caller: &Identity) -> (r: Vec<(Identity, Vec<u8>)>)
        ensures
            bytes_pair_list_view(r@) == shared_with(self.access.records(), caller@),
    {
        let names = self.access.get_accessible_shared_map_names(caller);
        let mut out: Vec<(Identity, Vec<u8>)> = Vec::new();
        let mut i: usize = 0;
        while i < names.len()
            invariant
                0 <= i <= names@.len(),
                out@.len() == i,
                forall|j: int| 0 <= j < i ==> (#[trigger] out@[j]).0@ == names@[j].0@ && out@[j].1@ == names@[j].1@,
            decreases names@.len() - i,
        {
            out.push((names[i].0.duplicate(), names[i].1.to_bytes()));
            i = i + 1;
        }
        assert(bytes_pair_list_view(out@) =~= collection_list_view(names@));
        out
    }

    /// Every grant on a collection, for its owner or a holder of
    /// `ReadWriteManage`.
    pub fn get_shared_user_access_for_collection(
        &self,
        caller: &Identity,
        collection_owner: &Identity,
        collection_name: &Vec<u8>,
    ) -> (r: Result<Vec<(Identity, AccessRights)>, FilesError>)
        requires
            self.wf(),
        ensures
            !fits(collection_name@) ==> r == Err::<Vec<(Identity, AccessRights)>, FilesError>(FilesError::KeyTooLong),
            fits(collection_name@) && !authorized(self.access.rights(), collection_owner@, collection_name@, caller@,
                AccessRights::ReadWriteManage) ==> r == Err::<Vec<(Identity, AccessRights)>, FilesError>(
                FilesError::Denied),
            fits(collection_name@) && authorized(self.access.rights(), collection_owner@, collection_name@, caller@,
                AccessRights::ReadWriteManage) ==> r is Ok && grantee_list_view(r->Ok_0@) == grantees_of(
                self.access.records(), collection_owner@, collection_name@),
    {
        let name = bytebuf_to_blob(collection_name)?;
        self.access.get_shared_user_access_for_map(caller, collection_owner, &name)
    }

    /// Every file of a collection with its key, ciphertext and metadata, for
    /// the owner or a holder of any grant on it.
    pub fn get_files_in_collection_with_metadata(
        &self,
        caller: &Identity,
        collection_owner: &Identity,
        collection_name: &Vec<u8>,
    ) -> (r: Result<Vec<(Vec<u8>, Vec<u8>, FileMetadata)>, FilesError>)
        requires
            self.wf(),
        ensures
            !fits(collection_name@) ==> r == Err::<Vec<(Vec<u8>, Vec<u8>, FileMetadata)>, FilesError>(
                FilesError::KeyTooLong),
            fits(collection_name@) && !authorized(self.access.rights(), collection_owner@, collection_name@, caller@,
                AccessRights::Read) ==> r == Err::<Vec<(Vec<u8>, Vec<u8>, FileMetadata)>, FilesError>(
                FilesError::Denied),
            fits(collection_name@) && authorized(self.access.rights(), collection_owner@, collection_name@, caller@,
                AccessRights::Read) ==> r is Ok && listing_view(r->Ok_0@) == files_of(self.store.records(),
                collection_owner@, collection_name@),
            r is Ok ==> keys_ascending(listing_view(r->Ok_0@)),
            r is Ok ==> forall|k: Seq<u8>, v: Seq<u8>, m: MetadataView|
                #[trigger] listing_view(r->Ok_0@).contains((k, v, m)) <==> record_at(self.store.files(),
                    (collection_owner@, collection_name@, k)) == Some((v, m)),
    {
        let name = bytebuf_to_blob(collection_name)?;
        self.access.authorize(collection_owner, &name, caller, AccessRights::Read)?;
        let files = self.store.list(collection_owner, &name);
        proof {
            crate::store::lemma_sorted_unique(self.store.records());
            assert forall|k: Seq<u8>, v: Seq<u8>, m: MetadataView|
                #[trigger] listing_view(files@).contains((k, v, m)) <==> record_at(self.store.files(),
                    (collection_owner@, collection_name@, k)) == Some((v, m)) by {
                lemma_listing_matches_store(self.store.records(), collection_owner@, collection_name@, k, v, m);
            }
        }
        Ok(files)
    }

    /// Names of the collections of `caller` that hold at least one file.
    pub fn get_my_collections(&self, caller: &Identity) -> (r: Vec<Vec<u8>>)
        ensures
            bytes_list_view(r@) == crate::store::names_of(self.store.records(), caller@),
    {
        let names = self.store.owned_names(caller);
        let mut out: Vec<Vec<u8>> = Vec::new();
        let mut i: usize = 0;
        while i < names.len()
            invariant
                0 <= i <= names@.len(),
                out@.len() == i,
                forall|j: int| 0 <= j < i ==> (#[trigger] out@[j])@ == names@[j]@,
            decreases names@.len() - i,
        {
            out.push(names[i].to_bytes());
            i = i + 1;
        }
        assert(bytes_list_view(out@) =~= blob_list_view(names@));
        out
    }

    /// Stores an encrypted file under `file_id` in a collection, for the
    /// owner or a holder of at least `ReadWrite`; returns the previous
    /// ciphertext and metadata under that key, if any.
    pub fn upload_file_to_collection(
        &mut self,
        caller: &Identity,
        collection_owner: &Identity,
        collection_name: &Vec<u8>,
        file_id: &Vec<u8>,
        encrypted_file_data: Vec<u8>,
        filename: String,
        content_type: String,
        file_size: u64,
        tags: Vec<String>,
        description: Option<String>,
        now: u64,
    ) -> (r: Result<Option<(Vec<u8>, FileMetadata)>, FilesError>)
        requires
            old(self).wf(),
        ensures
            final(self).wf(),
            final(self).directory == old(self).directory,
            final(self).access == old(self).access,
            !fits(collection_name@) || !fits(file_id@) ==> r == Err::<Option<(Vec<u8>, FileMetadata)>, FilesError>(
                FilesError::KeyTooLong),
            fits(collection_name@) && fits(file_id@) && !authorized(old(self).access.rights(), collection_owner@,
                collection_name@, caller@, AccessRights::ReadWrite) ==> r == Err::<
                Option<(Vec<u8>, FileMetadata)>,
                FilesError,
            >(FilesError::Denied),
            r is Err ==> final(self).store == old(self).store,
            fits(collection_name@) && fits(file_id@) && authorized(old(self).access.rights(), collection_owner@,
                collection_name@, caller@, AccessRights::ReadWrite) ==> {
                let id = (collection_owner@, collection_name@, file_id@);
                let prev = record_at(old(self).store.files(), id);
                &&& r is Ok
                &&& previous_view(r->Ok_0) == prev
                &&& final(self).store.files() == old(self).store.files().insert(
                    id,
                    uploaded_record(prev, encrypted_file_data@, filename@, content_type@, file_size, caller@,
                        strings_view(tags@), opt_string_view(description), now),
                )
            },
    {
        let name = bytebuf_to_blob(collection_name)?;
        let key = bytebuf_to_blob(file_id)?;
        self.access.authorize(collection_owner, &name, caller, AccessRights::ReadWrite)?;
        let prev = self.store.put(caller, collection_owner, &name, &key, encrypted_file_data, filename, content_type,
            file_size, tags, description, now);
        Ok(prev)
    }

    /// Removes the file under `file_id` from a collection, for the owner or
    /// a holder of at least `ReadWrite`; returns its ciphertext and metadata,
    /// if it was there.
    pub fn remove_file_from_collection(
        &mut self,
        caller: &Identity,
        collection_owner: &Identity,
        collection_name: &Vec<u8>,
        file_id: &Vec<u8>,
    ) -> (r: Result<Option<(Vec<u8>, FileMetadata)>, FilesError>)
        requires
            old(self).wf(),
        ensures
            final(self).wf(),
            final(self).directory == old(self).directory,
            final(self).access == old(self).access,
            !fits(collection_name@) || !fits(file_id@) ==> r == Err::<Option<(Vec<u8>, FileMetadata)>, FilesError>(
                FilesError::KeyTooLong),
            fits(collection_name@) && fits(file_id@) && !authorized(old(self).access.rights(), collection_owner@,
                collection_name@, caller@, AccessRights::ReadWrite) ==> r == Err::<
                Option<(Vec<u8>, FileMetadata)>,
                FilesError,
            >(FilesError::Denied),
            r is Err ==> final(self).store == old(self).store,
            fits(collection_name@) && fits(file_id@) && authorized(old(self).access.rights(), collection_owner@,
                collection_name@, caller@, AccessRights::ReadWrite) ==> {
                let id = (collection_owner@, collection_name@, file_id@);
                &&& r is Ok
                &&& previous_view(r->Ok_0) == record_at(old(self).store.files(), id)
                &&& final(self).store.files() == old(self).store.files().remove(id)
            },
    {
        let name = bytebuf_to_blob(collection_name)?;
        let key = bytebuf_to_blob(file_id)?;
        self.access.authorize(collection_owner, &name, caller, AccessRights::ReadWrite)?;
        let prev = self.store.delete(collection_owner, &name, &key);
        Ok(prev)
    }

    /// Grants the user registered as `username` the rights `access_rights`
    /// on the collection `collection_name` of `caller`; returns the rights
    /// held before.
    pub fn share_collection_with_user(
        &mut self,
        caller: &Identity,
        collection_name: &Vec<u8>,
        username: &String,
        access_rights: AccessRights,
    ) -> (r: Result<Option<AccessRights>, FilesError>)
        requires
            old(self).wf(),
        ensures
            final(self).wf(),
            final(self).directory == old(self).directory,
            final(self).store == old(self).store,
            user_named(old(self).directory.users_view(), username@) is None ==> r == Err::<
                Option<AccessRights>,
                FilesError,
            >(FilesError::UserNotFound),
            user_named(old(self).directory.users_view(), username@) is Some && !fits(collection_name@) ==> r == Err::<
                Option<AccessRights>,
                FilesError,
            >(FilesError::KeyTooLong),
            r is Err ==> final(self).access.rights() == old(self).access.rights(),
            user_named(old(self).directory.users_view(), username@) is Some && fits(collection_name@)
                && user_named(old(self).directory.users_view(), username@)->Some_0.principal == caller@
                ==> r == Err::<Option<AccessRights>, FilesError>(FilesError::Denied),
            user_named(old(self).directory.users_view(), username@) is Some && fits(collection_name@)
                && user_named(old(self).directory.users_view(), username@)->Some_0.principal != caller@ ==> {
                let id = (caller@, collection_name@, user_named(old(self).directory.users_view(), username@)->Some_0.principal);
                &&& r == Ok::<Option<AccessRights>, FilesError>(rights_at(old(self).access.rights(), id))
                &&& final(self).access.rights() == old(self).access.rights().insert(id, access_rights)
            },
    {
        let user = match self.directory.get_user_by_username(username) {
            Some(u) => u,
            None => return Err(FilesError::UserNotFound),
        };
        let name = bytebuf_to_blob(collection_name)?;
        self.access.set_user_rights(caller, caller, &name, user.principal, access_rights)
    }

    /// Withdraws the grant of the user registered as `username` on the
    /// collection `collection_name` of `caller`; returns the rights held
    /// before.
    pub fn remove_user_from_collection(
        &mut self,
        caller: &Identity,
        collection_name: &Vec<u8>,
        username: &String,
    ) -> (r: Result<Option<AccessRights>, FilesError>)
        requires
            old(self).wf(),
        ensures
            final(self).wf(),
            final(self).directory == old(self).directory,
            final(self).store == old(self).store,
            user_named(old(self).directory.users_view(), username@) is None ==> r == Err::<
                Option<AccessRights>,
                FilesError,
            >(FilesError::UserNotFound),
            user_named(old(self).directory.users_view(), username@) is Some && !fits(collection_name@) ==> r == Err::<
                Option<AccessRights>,
                FilesError,
            >(FilesError::KeyTooLong),
            r is Err ==> final(self).access.rights() == old(self).access.rights(),
            user_named(old(self).directory.users_view(), username@) is Some && fits(collection_name@)
                && user_named(old(self).directory.users_view(), username@)->Some_0.principal == caller@
                ==> r == Err::<Option<AccessRights>, FilesError>(FilesError::Denied),
            user_named(old(self).directory.users_view(), username@) is Some && fits(collection_name@)
                && user_named(old(self).directory.users_view(), username@)->Some_0.principal != caller@ ==> {
                let id = (caller@, collection_name@, user_named(old(self).directory.users_view(), username@)->Some_0.principal);
                &&& r == Ok::<Option<AccessRights>, FilesError>(rights_at(old(self).access.rights(), id))
                &&& final(self).access.rights() == old(self).access.rights().remove(id)
            },
    {
        let user = match self.directory.get_user_by_username(username) {
            Some(u) => u,
            None => return Err(FilesError::UserNotFound),
        };
        let name = bytebuf_to_blob(collection_name)?;
        self.access.remove_user(caller, caller, &name, &user.principal)
    }
}

} // verus!
