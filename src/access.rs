use vstd::prelude::*;
use crate::keyed::{as_map, unique_keys, lemma_as_map_index, lemma_as_map_absent,
    lemma_as_map_push, lemma_as_map_update, lemma_as_map_remove};
use crate::types::{rank, rights_rank, AccessRights, Blob, FilesError, Identity};

verus! {

/// Key of a grant: collection owner, collection name, grantee.
pub type GrantKey = (Seq<u8>, Seq<u8>, Seq<u8>);

/// Rights held by `grantee` on the collection `name` of `owner`.
pub struct Grant {
    pub owner: Identity,
    pub name: Blob,
    pub grantee: Identity,
    pub rights: AccessRights,
}

pub open spec fn grant_record(g: Grant) -> (GrantKey, AccessRights) {
    ((g.owner@, g.name@, g.grantee@), g.rights)
}

/// Whether `caller` may act at `level` on the collection `name` of `owner`:
/// the owner always may; anyone else needs a grant at least as strong.
pub open spec fn authorized(
    rights: Map<GrantKey, AccessRights>,
    owner: Seq<u8>,
    name: Seq<u8>,
    caller: Seq<u8>,
    level: AccessRights,
) -> bool {
    caller == owner || (rights.contains_key((owner, name, caller)) && rank(rights[(owner, name, caller)]) >= rank(level))
}

/// Whether `caller` may set or withdraw the rights of `grantee` on the
/// collection: it takes management rights, and the owner's own rights never
/// change.
pub open spec fn may_manage(
    rights: Map<GrantKey, AccessRights>,
    owner: Seq<u8>,
    name: Seq<u8>,
    caller: Seq<u8>,
    grantee: Seq<u8>,
) -> bool {
    authorized(rights, owner, name, caller, AccessRights::ReadWriteManage) && !(caller == owner && grantee == owner)
}

pub open spec fn rights_at(rights: Map<GrantKey, AccessRights>, k: GrantKey) -> Option<AccessRights> {
    if rights.contains_key(k) {
        Some(rights[k])
    } else {
        None
    }
}

/// Grantees of the collection `name` of `owner`, with their rights, in the
/// order in which the grants are held.
pub open spec fn grantees_of(s: Seq<(GrantKey, AccessRights)>, owner: Seq<u8>, name: Seq<u8>) -> Seq<(Seq<u8>, AccessRights)>
    decreases s.len(),
{
    if s.len() == 0 {
        Seq::empty()
    } else {
        let rest = grantees_of(s.drop_last(), owner, name);
        let last = s.last();
        if last.0.0 == owner && last.0.1 == name {
            rest.push((last.0.2, last.1))
        } else {
            rest
        }
    }
}

/// Collections of other owners, as (owner, name), on which `who` holds a
/// grant.
pub open spec fn shared_with(s: Seq<(GrantKey, AccessRights)>, who: Seq<u8>) -> Seq<(Seq<u8>, Seq<u8>)>
    decreases s.len(),
{
    if s.len() == 0 {
        Seq::empty()
    } else {
        let rest = shared_with(s.drop_last(), who);
        let last = s.last();
        if last.0.2 == who && last.0.0 != who {
            rest.push((last.0.0, last.0.1))
        } else {
            rest
        }
    }
}

pub open spec fn grantee_list_view(v: Seq<(Identity, AccessRights)>) -> Seq<(Seq<u8>, AccessRights)> {
    v.map_values(|p: (Identity, AccessRights)| (p.0@, p.1))
}

pub open spec fn collection_list_view(v: Seq<(Identity, Blob)>) -> Seq<(Seq<u8>, Seq<u8>)> {
    v.map_values(|p: (Identity, Blob)| (p.0@, p.1@))
}

/// The grants of all collections.
pub struct AccessControl {
    pub grants: Vec<Grant>,
}

impl AccessControl {
    pub open spec fn records(&self) -> Seq<(GrantKey, AccessRights)> {
        self.grants@.map_values(|g: Grant| grant_record(g))
    }

    /// Rights of each (owner, name, grantee).
    pub open spec fn rights(&self) -> Map<GrantKey, AccessRights> {
        as_map(self.records())
    }

    pub open spec fn wf(&self) -> bool {
        unique_keys(self.records())
    }

    pub fn new() -> (r: AccessControl)
        ensures
            r.wf(),
            r.rights() == Map::<GrantKey, AccessRights>::empty(),
    {
        let r = AccessControl { grants: Vec::new() };
        assert(r.rights() =~= Map::<GrantKey, AccessRights>::empty());
        r
    }

    fn find(&self, owner: &Identity, name: &Blob, grantee: &Identity) -> (r: Option<usize>)
        requires
            self.wf(),
        ensures
            r is None ==> !self.rights().contains_key((owner@, name@, grantee@)),
            r is Some ==> r->Some_0 < self.grants@.len() && self.records()[r->Some_0 as int].0 == (owner@, name@, grantee@),
    {
        let mut i: usize = 0;
        while i < self.grants.len()
            invariant
                0 <= i <= self.grants@.len(),
                forall|j: int| 0 <= j < i ==> (#[trigger] self.records()[j]).0 != (owner@, name@, grantee@),
            decreases self.grants@.len() - i,
        {
            let g = &self.grants[i];
            if g.owner.same(owner) && g.name.same(name) && g.grantee.same(grantee) {
                return Some(i);
            }
            i = i + 1;
        }
        proof {
            lemma_as_map_absent(self.records(), (owner@, name@, grantee@));
        }
        None
    }

    /// Rights granted to `grantee` on the collection `name` of `owner`.
    pub fn rights_for(&self, owner: &Identity, name: &Blob, grantee: &Identity) -> (r: Option<AccessRights>)
        requires
            self.wf(),
        ensures
            r == rights_at(self.rights(), (owner@, name@, grantee@)),
    {
        match self.find(owner, name, grantee) {
            Some(i) => {
                proof {
                    lemma_as_map_index(self.records(), i as int);
                }
                Some(self.grants[i].rights)
            },
            None => None,
        }
    }

    /// Succeeds exactly when `caller` may act at `level` on the collection.
    pub fn authorize(&self, owner: &Identity, name: &Blob, caller: &Identity, level: AccessRights) -> (r: Result<(), FilesError>)
        requires
            self.wf(),
        ensures
            r is Ok <==> authorized(self.rights(), owner@, name@, caller@, level),
            r is Err ==> r->Err_0 == FilesError::Denied,
    {
        if caller.same(owner) {
            return Ok(());
        }
        match self.rights_for(owner, name, caller) {
            Some(held) => {
                if rights_rank(held) >= rights_rank(level) {
                    Ok(())
                } else {
                    Err(FilesError::Denied)
                }
            },
            None => Err(FilesError::Denied),
        }
    }

    /// Gives `grantee` the rights `rights` on the collection, returning the
    /// rights held before. Only the owner or a holder of `ReadWriteManage`
    /// may do so, and the owner not for itself.
    pub fn set_user_rights(
        &mut self,
        caller: &Identity,
        owner: &Identity,
        name: &Blob,
        grantee: Identity,
        rights: AccessRights,
    ) -> (r: Result<Option<AccessRights>, FilesError>)
        requires
            old(self).wf(),
        ensures
            final(self).wf(),
            may_manage(old(self).rights(), owner@, name@, caller@, grantee@) ==> {
                &&& r == Ok::<Option<AccessRights>, FilesError>(rights_at(old(self).rights(), (owner@, name@, grantee@)))
                &&& final(self).rights() == old(self).rights().insert((owner@, name@, grantee@), rights)
            },
            !may_manage(old(self).rights(), owner@, name@, caller@, grantee@) ==> {
                &&& r == Err::<Option<AccessRights>, FilesError>(FilesError::Denied)
                &&& final(self).rights() == old(self).rights()
            },
    {
        if self.authorize(owner, name, caller, AccessRights::ReadWriteManage).is_err() {
            return Err(FilesError::Denied);
        }
        if caller.same(owner) && grantee.same(owner) {
            return Err(FilesError::Denied);
        }
        let ghost before = self.records();
        match self.find(owner, name, &grantee) {
            Some(i) => {
                let prev = self.grants[i].rights;
                proof {
                    lemma_as_map_index(before, i as int);
                    lemma_as_map_update(before, i as int, rights);
                }
                let g = Grant { owner: owner.duplicate(), name: name.duplicate(), grantee, rights };
                self.grants.set(i, g);
                assert(self.records() =~= before.update(i as int, (before[i as int].0, rights)));
                Ok(Some(prev))
            },
            None => {
                let g = Grant { owner: owner.duplicate(), name: name.duplicate(), grantee, rights };
                let ghost rec = grant_record(g);
                self.grants.push(g);
                assert(self.records() =~= before.push(rec));
                proof {
                    lemma_as_map_push(before, rec);
                }
                Ok(None)
            },
        }
    }

    /// Withdraws the grant of `grantee` on the collection, returning the
    /// rights held before. Only the owner or a holder of `ReadWriteManage`
    /// may do so, and the owner not for itself.
    pub fn remove_user(&mut self, caller: &Identity, owner: &Identity, name: &Blob, grantee: &Identity) -> (r: Result<Option<AccessRights>, FilesError>)
        requires
            old(self).wf(),
        ensures
            final(self).wf(),
            may_manage(old(self).rights(), owner@, name@, caller@, grantee@) ==> {
                &&& r == Ok::<Option<AccessRights>, FilesError>(rights_at(old(self).rights(), (owner@, name@, grantee@)))
                &&& final(self).rights() == old(self).rights().remove((owner@, name@, grantee@))
            },
            !may_manage(old(self).rights(), owner@, name@, caller@, grantee@) ==> {
                &&& r == Err::<Option<AccessRights>, FilesError>(FilesError::Denied)
                &&& final(self).rights() == old(self).rights()
            },
    {
        if self.authorize(owner, name, caller, AccessRights::ReadWriteManage).is_err() {
            return Err(FilesError::Denied);
        }
        if caller.same(owner) && grantee.same(owner) {
            return Err(FilesError::Denied);
        }
        let ghost before = self.records();
        match self.find(owner, name, grantee) {
            Some(i) => {
                proof {
                    lemma_as_map_index(before, i as int);
                    lemma_as_map_remove(before, i as int);
                }
                let g = self.grants.remove(i);
                assert(self.records() =~= before.remove(i as int));
                Ok(Some(g.rights))
            },
            None => {
                assert(old(self).rights().remove((owner@, name@, grantee@)) =~= old(self).rights());
                Ok(None)
            },
        }
    }

    /// Every grant on the collection, for the owner or a holder of
    /// `ReadWriteManage`.
    pub fn get_shared_user_access_for_map(&self, caller: &Identity, owner: &Identity, name: &Blob) -> (r: Result<Vec<(Identity, AccessRights)>, FilesError>)
        requires
            self.wf(),
        ensures
            authorized(self.rights(), owner@, name@, caller@, AccessRights::ReadWriteManage) <==> r is Ok,
            r is Ok ==> grantee_list_view(r->Ok_0@) == grantees_of(self.records(), owner@, name@),
            r is Err ==> r->Err_0 == FilesError::Denied,
    {
        if self.authorize(owner, name, caller, AccessRights::ReadWriteManage).is_err() {
            return Err(FilesError::Denied);
        }
        let mut out: Vec<(Identity, AccessRights)> = Vec::new();
        let mut i: usize = 0;
        while i < self.grants.len()
            invariant
                0 <= i <= self.grants@.len(),
                grantee_list_view(out@) == grantees_of(self.records().take(i as int), owner@, name@),
            decreases self.grants@.len() - i,
        {
            let ghost s = self.records().take(i + 1);
            assert(s.drop_last() =~= self.records().take(i as int));
            assert(s.last() == self.records()[i as int]);
            let g = &self.grants[i];
            if g.owner.same(owner) && g.name.same(name) {
                out.push((g.grantee.duplicate(), g.rights));
            }
            assert(grantee_list_view(out@) =~= grantees_of(s, owner@, name@));
            i = i + 1;
        }
        assert(self.records().take(self.grants@.len() as int) =~= self.records());
        Ok(out)
    }

    /// Collections of other owners, as (owner, name), on which `caller`
    /// holds a grant.
    pub fn get_accessible_shared_map_names(&self, caller: &Identity) -> (r: Vec<(Identity, Blob)>)
        ensures
            collection_list_view(r@) == shared_with(self.records(), caller@),
    {
        let mut out: Vec<(Identity, Blob)> = Vec::new();
        let mut i: usize = 0;
        while i < self.grants.len()
            invariant
                0 <= i <= self.grants@.len(),
                collection_list_view(out@) == shared_with(self.records().take(i as int), caller@),
            decreases self.grants@.len() - i,
        {
            let ghost s = self.records().take(i + 1);
            assert(s.drop_last() =~= self.records().take(i as int));
            assert(s.last() == self.records()[i as int]);
            let g = &self.grants[i];
            if g.grantee.same(caller) && !g.owner.same(caller) {
                out.push((g.owner.duplicate(), g.name.duplicate()));
            }
            assert(collection_list_view(out@) =~= shared_with(s, caller@));
            i = i + 1;
        }
        assert(self.records().take(self.grants@.len() as int) =~= self.records());
        out
    }
}

/// Authorization is monotone in the level asked for, and the owner passes at
/// every level.
pub proof fn lemma_authorization_monotone(
    rights: Map<GrantKey, AccessRights>,
    owner: Seq<u8>,
    name: Seq<u8>,
    caller: Seq<u8>,
    level: AccessRights,
    lower: AccessRights,
)
    requires
        authorized(rights, owner, name, caller, level),
        rank(lower) <= rank(level),
    ensures
        authorized(rights, owner, name, caller, lower),
        authorized(rights, owner, name, owner, lower),
{
}

/// A non-owner that holds only `Read` can neither manage nor write.
pub proof fn lemma_reader_cannot_write(
    rights: Map<GrantKey, AccessRights>,
    owner: Seq<u8>,
    name: Seq<u8>,
    caller: Seq<u8>,
)
    requires
        caller != owner,
        rights_at(rights, (owner, name, caller)) == Some(AccessRights::Read),
    ensures
        !authorized(rights, owner, name, caller, AccessRights::ReadWrite),
        !authorized(rights, owner, name, caller, AccessRights::ReadWriteManage),
        forall|grantee: Seq<u8>| !may_manage(rights, owner, name, caller, grantee),
{
}

} // verus!
