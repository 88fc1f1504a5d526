use vstd::prelude::*;
use crate::directory::{copy_opt_string, opt_string_view};
use crate::keyed::{as_map, unique_keys, lemma_as_map_index, lemma_as_map_absent,
    lemma_as_map_insert, lemma_as_map_update, lemma_as_map_remove};
use crate::order::{bytes_lt, triple_lt, lemma_bytes_lt_irreflexive, lemma_triple_lt_irreflexive,
    lemma_triple_lt_total, lemma_triple_lt_transitive};
use crate::types::{copy_bytes, Blob, Identity};

verus! {

/// Plaintext, searchable description of a stored file.
#[derive(Debug)]
pub struct FileMetadata {
    pub filename: String,
    pub content_type: String,
    pub file_size: u64,
    pub creation_date: u64,
    pub last_modification_date: u64,
    pub uploaded_by: Identity,
    pub tags: Vec<String>,
    pub description: Option<String>,
}

/// Mathematical value of a `FileMetadata`.
pub struct MetadataView {
    pub filename: Seq<char>,
    pub content_type: Seq<char>,
    pub file_size: u64,
    pub creation_date: u64,
    pub last_modification_date: u64,
    pub uploaded_by: Seq<u8>,
    pub tags: Seq<Seq<char>>,
    pub description: Option<Seq<char>>,
}

pub open spec fn strings_view(v: Seq<String>) -> Seq<Seq<char>> {
    v.map_values(|s: String| s@)
}

pub fn copy_strings(v: &Vec<String>) -> (r: Vec<String>)
    ensures
        strings_view(r@) == strings_view(v@),
{
    let mut r: Vec<String> = Vec::new();
    let mut i: usize = 0;
    while i < v.len()
        invariant
            0 <= i <= v@.len(),
            r@.len() == i,
            strings_view(r@) == strings_view(v@.take(i as int)),
        decreases v@.len() - i,
    {
        let ghost prev = r@;
        r.push(v[i].clone());
        assert(v@.take(i + 1) =~= v@.take(i as int).push(v@[i as int]));
        assert(r@ =~= prev.push(v@[i as int]));
        assert forall|j: int| 0 <= j < i implies #[trigger] strings_view(r@)[j] == strings_view(v@.take(i + 1))[j] by {
            assert(strings_view(prev)[j] == strings_view(v@.take(i as int))[j]);
        }
        assert(strings_view(r@) =~= strings_view(v@.take(i + 1)));
        i = i + 1;
    }
    assert(v@.take(v@.len() as int) =~= v@);
    r
}

impl View for FileMetadata {
    type V = MetadataView;

    open spec fn view(&self) -> MetadataView {
        MetadataView {
            filename: self.filename@,
            content_type: self.content_type@,
            file_size: self.file_size,
            creation_date: self.creation_date,
            last_modification_date: self.last_modification_date,
            uploaded_by: self.uploaded_by@,
            tags: strings_view(self.tags@),
            description: opt_string_view(self.description),
        }
    }
}

/// Metadata of a file first uploaded by `caller` at time `now`.
pub open spec fn fresh_metadata(
    filename: Seq<char>,
    content_type: Seq<char>,
    file_size: u64,
    caller: Seq<u8>,
    tags: Seq<Seq<char>>,
    description: Option<Seq<char>>,
    now: u64,
) -> MetadataView {
    MetadataView {
        filename,
        content_type,
        file_size,
        creation_date: now,
        last_modification_date: now,
        uploaded_by: caller,
        tags,
        description,
    }
}

/// Metadata `m` after a new upload at time `now`: the name, tags and
/// description are replaced; type, size, creation date and uploader stay.
pub open spec fn refreshed_metadata(
    m: MetadataView,
    filename: Seq<char>,
    tags: Seq<Seq<char>>,
    description: Option<Seq<char>>,
    now: u64,
) -> MetadataView {
    MetadataView { filename, last_modification_date: now, tags, description, ..m }
}

impl FileMetadata {
    pub fn new(
        filename: String,
        content_type: String,
        file_size: u64,
        caller: Identity,
        tags: Vec<String>,
        description: Option<String>,
        now: u64,
    ) -> (r: FileMetadata)
        ensures
            r@ == fresh_metadata(filename@, content_type@, file_size, caller@, strings_view(tags@),
                opt_string_view(description), now),
    {
        FileMetadata {
            filename,
            content_type,
            file_size,
            creation_date: now,
            last_modification_date: now,
            uploaded_by: caller,
            tags,
            description,
        }
    }

    pub fn update(self, filename: String, tags: Vec<String>, description: Option<String>, now: u64) -> (r: FileMetadata)
        ensures
            r@ == refreshed_metadata(self@, filename@, strings_view(tags@), opt_string_view(description), now),
    {
        FileMetadata {
            filename,
            creation_date: self.creation_date,
            last_modification_date: now,
            uploaded_by: self.uploaded_by,
            content_type: self.content_type,
            file_size: self.file_size,
            tags,
            description,
        }
    }

    pub fn duplicate(&self) -> (r: FileMetadata)
        ensures
            r@ == self@,
    {
        FileMetadata {
            filename: self.filename.clone(),
            content_type: self.content_type.clone(),
            file_size: self.file_size,
            creation_date: self.creation_date,
            last_modification_date: self.last_modification_date,
            uploaded_by: self.uploaded_by.duplicate(),
            tags: copy_strings(&self.tags),
            description: copy_opt_string(&self.description),
        }
    }
}

/// Key of a file: collection owner, collection name, file key.
pub type FileId = (Seq<u8>, Seq<u8>, Seq<u8>);

/// What is stored under a file's key: its ciphertext and its metadata.
pub type FileRecord = (Seq<u8>, MetadataView);

/// One stored file: ciphertext and metadata under one key.
pub struct FileEntry {
    pub owner: Identity,
    pub name: Blob,
    pub key: Blob,
    pub value: Vec<u8>,
    pub metadata: FileMetadata,
}

pub open spec fn entry_record(e: FileEntry) -> (FileId, FileRecord) {
    ((e.owner@, e.name@, e.key@), (e.value@, e.metadata@))
}

/// Files of the collection `name` of `owner`, as (key, ciphertext,
/// metadata), in storage order.
pub open spec fn files_of(s: Seq<(FileId, FileRecord)>, owner: Seq<u8>, name: Seq<u8>) -> Seq<(Seq<u8>, Seq<u8>, MetadataView)>
    decreases s.len(),
{
    if s.len() == 0 {
        Seq::empty()
    } else {
        let rest = files_of(s.drop_last(), owner, name);
        let last = s.last();
        if last.0.0 == owner && last.0.1 == name {
            rest.push((last.0.2, last.1.0, last.1.1))
        } else {
            rest
        }
    }
}

/// Names of the collections of `owner` that hold at least one file, each
/// once, in order of first appearance.
pub open spec fn names_of(s: Seq<(FileId, FileRecord)>, owner: Seq<u8>) -> Seq<Seq<u8>>
    decreases s.len(),
{
    if s.len() == 0 {
        Seq::empty()
    } else {
        let rest = names_of(s.drop_last(), owner);
        let last = s.last();
        if last.0.0 == owner && !rest.contains(last.0.1) {
            rest.push(last.0.1)
        } else {
            rest
        }
    }
}

pub open spec fn listing_view(v: Seq<(Vec<u8>, Vec<u8>, FileMetadata)>) -> Seq<(Seq<u8>, Seq<u8>, MetadataView)> {
    v.map_values(|t: (Vec<u8>, Vec<u8>, FileMetadata)| (t.0@, t.1@, t.2@))
}

pub open spec fn previous_view(o: Option<(Vec<u8>, FileMetadata)>) -> Option<FileRecord> {
    match o {
        Some(p) => Some((p.0@, p.1@)),
        None => None,
    }
}

pub open spec fn record_at(m: Map<FileId, FileRecord>, k: FileId) -> Option<FileRecord> {
    if m.contains_key(k) {
        Some(m[k])
    } else {
        None
    }
}

/// What an upload stores under a key whose previous record was `prev`.
pub open spec fn uploaded_record(
    prev: Option<FileRecord>,
    value: Seq<u8>,
    filename: Seq<char>,
    content_type: Seq<char>,
    file_size: u64,
    caller: Seq<u8>,
    tags: Seq<Seq<char>>,
    description: Option<Seq<char>>,
    now: u64,
) -> FileRecord {
    match prev {
        Some(p) => (value, refreshed_metadata(p.1, filename, tags, description, now)),
        None => (value, fresh_metadata(filename, content_type, file_size, caller, tags, description, now)),
    }
}

pub open spec fn blob_list_view(v: Seq<Blob>) -> Seq<Seq<u8>> {
    v.map_values(|b: Blob| b@)
}

fn contains_blob(v: &Vec<Blob>, b: &Blob) -> (r: bool)
    ensures
        r == blob_list_view(v@).contains(b@),
{
    let mut i: usize = 0;
    while i < v.len()
        invariant
            0 <= i <= v@.len(),
            forall|j: int| 0 <= j < i ==> (#[trigger] v@[j])@ != b@,
        decreases v@.len() - i,
    {
        if v[i].same(b) {
            assert(blob_list_view(v@)[i as int] == b@);
            return true;
        }
        i = i + 1;
    }
    proof {
        if blob_list_view(v@).contains(b@) {
            let j = choose|j: int| 0 <= j < blob_list_view(v@).len() && blob_list_view(v@)[j] == b@;
            assert(v@[j]@ == b@);
        }
    }
    false
}

/// Keys strictly ascend along `s`.
pub open spec fn sorted_ids(s: Seq<(FileId, FileRecord)>) -> bool {
    forall|i: int, j: int| 0 <= i < j < s.len() ==> triple_lt(#[trigger] s[i].0, #[trigger] s[j].0)
}

pub proof fn lemma_sorted_unique(s: Seq<(FileId, FileRecord)>)
    requires
        sorted_ids(s),
    ensures
        unique_keys(s),
{
    assert forall|i: int, j: int| 0 <= i < s.len() && 0 <= j < s.len() && #[trigger] s[i].0 == #[trigger] s[j].0 implies i == j by {
        lemma_triple_lt_irreflexive(s[i].0);
        if i < j {
            assert(triple_lt(s[i].0, s[j].0));
        } else if j < i {
            assert(triple_lt(s[j].0, s[i].0));
        }
    }
}

/// Whether the key (owner, name, key) comes before the key of `e`.
fn id_before(owner: &Identity, name: &Blob, key: &Blob, e: &FileEntry) -> (r: bool)
    ensures
        r == triple_lt((owner@, name@, key@), entry_record(*e).0),
{
    let c = owner.compare(&e.owner);
    if c != 0 {
        return c < 0;
    }
    let c = name.compare(&e.name);
    if c != 0 {
        return c < 0;
    }
    key.compare(&e.key) < 0
}

/// Ciphertexts and metadata of all files, one record per key.
pub struct FileStore {
    pub entries: Vec<FileEntry>,
}

impl FileStore {
    pub open spec fn records(&self) -> Seq<(FileId, FileRecord)> {
        self.entries@.map_values(|e: FileEntry| entry_record(e))
    }

    /// Ciphertext and metadata stored under each key.
    pub open spec fn files(&self) -> Map<FileId, FileRecord> {
        as_map(self.records())
    }

    /// Records are kept in ascending key order.
    pub open spec fn wf(&self) -> bool {
        sorted_ids(self.records())
    }

    pub fn new() -> (r: FileStore)
        ensures
            r.wf(),
            r.files() == Map::<FileId, FileRecord>::empty(),
    {
        let r = FileStore { entries: Vec::new() };
        assert(r.files() =~= Map::<FileId, FileRecord>::empty());
        assert(r.records() =~= Seq::<(FileId, FileRecord)>::empty());
        r
    }

    fn find(&self, owner: &Identity, name: &Blob, key: &Blob) -> (r: Option<usize>)
        requires
            self.wf(),
        ensures
            r is None ==> !self.files().contains_key((owner@, name@, key@)),
            r is Some ==> r->Some_0 < self.entries@.len() && self.records()[r->Some_0 as int].0 == (owner@, name@, key@),
    {
        let mut i: usize = 0;
        while i < self.entries.len()
            invariant
                0 <= i <= self.entries@.len(),
                forall|j: int| 0 <= j < i ==> (#[trigger] self.records()[j]).0 != (owner@, name@, key@),
            decreases self.entries@.len() - i,
        {
            let e = &self.entries[i];
            if e.owner.same(owner) && e.name.same(name) && e.key.same(key) {
                return Some(i);
            }
            i = i + 1;
        }
        proof {
            lemma_as_map_absent(self.records(), (owner@, name@, key@));
        }
        None
    }

    /// Stores `value` under the key, with fresh metadata for a new key or
    /// the refreshed metadata of the existing one; returns the previous
    /// ciphertext and metadata, if any.
    pub fn put(
        &mut self,
        caller: &Identity,
        owner: &Identity,
        name: &Blob,
        key: &Blob,
        value: Vec<u8>,
        filename: String,
        content_type: String,
        file_size: u64,
        tags: Vec<String>,
        description: Option<String>,
        now: u64,
    ) -> (r: Option<(Vec<u8>, FileMetadata)>)
        requires
            old(self).wf(),
        ensures
            final(self).wf(),
            previous_view(r) == record_at(old(self).files(), (owner@, name@, key@)),
            final(self).files() == old(self).files().insert(
                (owner@, name@, key@),
                uploaded_record(record_at(old(self).files(), (owner@, name@, key@)), value@, filename@,
                    content_type@, file_size, caller@, strings_view(tags@), opt_string_view(description), now),
            ),
    {
        let ghost before = self.records();
        let ghost id = (owner@, name@, key@);
        let ghost rec = uploaded_record(record_at(self.files(), id), value@, filename@,
            content_type@, file_size, caller@, strings_view(tags@), opt_string_view(description), now);
        match self.find(owner, name, key) {
            Some(i) => {
                proof {
                    lemma_sorted_unique(before);
                    lemma_as_map_index(before, i as int);
                    lemma_as_map_update(before, i as int, rec);
                }
                let prev_value = copy_bytes(&self.entries[i].value);
                let prev_meta = self.entries[i].metadata.duplicate();
                let new_meta = self.entries[i].metadata.duplicate().update(filename, tags, description, now);
                let e = FileEntry { owner: owner.duplicate(), name: name.duplicate(), key: key.duplicate(), value, metadata: new_meta };
                self.entries.set(i, e);
                assert(self.records() =~= before.update(i as int, (before[i as int].0, rec)));
                assert forall|a: int, b: int| 0 <= a < b < self.records().len()
                    implies triple_lt(#[trigger] self.records()[a].0, #[trigger] self.records()[b].0) by {
                    assert(self.records()[a].0 == before[a].0 && self.records()[b].0 == before[b].0);
                }
                Some((prev_value, prev_meta))
            },
            None => {
                let meta = FileMetadata::new(filename, content_type, file_size, caller.duplicate(), tags, description, now);
                let e = FileEntry { owner: owner.duplicate(), name: name.duplicate(), key: key.duplicate(), value, metadata: meta };
                assert(entry_record(e) == (id, rec));
                let p = self.insertion_point(owner, name, key);
                self.entries.insert(p, e);
                let ghost after = self.records();
                assert(after =~= before.insert(p as int, (id, rec)));
                proof {
                    lemma_sorted_unique(before);
                    lemma_as_map_insert(before, p as int, (id, rec));
                    assert forall|a: int, b: int| 0 <= a < b < after.len()
                        implies triple_lt(#[trigger] after[a].0, #[trigger] after[b].0) by {
                        let a1 = if a < p { a } else { a - 1 };
                        let b1 = if b < p { b } else { b - 1 };
                        if a < p && b > p {
                            assert(after[a] == before[a1] && after[b] == before[b1]);
                        } else if a < p && b == p {
                            assert(after[a] == before[a1]);
                        } else if a == p {
                            assert(after[b] == before[b1]);
                        } else if b < p {
                            assert(after[a] == before[a1] && after[b] == before[b1]);
                        } else {
                            assert(after[a] == before[a1] && after[b] == before[b1]);
                        }
                    }
                }
                None
            },
        }
    }

    /// Position at which a record with a new key keeps the order.
    fn insertion_point(&self, owner: &Identity, name: &Blob, key: &Blob) -> (p: usize)
        requires
            self.wf(),
            !self.files().contains_key((owner@, name@, key@)),
        ensures
            p <= self.entries@.len(),
            forall|q: int| 0 <= q < p ==> triple_lt((#[trigger] self.records()[q]).0, (owner@, name@, key@)),
            forall|q: int| p <= q < self.entries@.len() ==> triple_lt((owner@, name@, key@), (#[trigger] self.records()[q]).0),
    {
        let ghost id = (owner@, name@, key@);
        let ghost s = self.records();
        let mut p: usize = 0;
        while p < self.entries.len()
            invariant
                self.wf(),
                s == self.records(),
                id == (owner@, name@, key@),
                !self.files().contains_key(id),
                0 <= p <= self.entries@.len(),
                forall|q: int| 0 <= q < p ==> triple_lt((#[trigger] s[q]).0, id),
            decreases self.entries@.len() - p,
        {
            let e = &self.entries[p];
            let before_here = id_before(owner, name, key, e);
            assert(s[p as int] == entry_record(*e));
            assert(before_here == triple_lt(id, s[p as int].0));
            if before_here {
                assert forall|q: int| p <= q < self.entries@.len() implies triple_lt(id, (#[trigger] s[q]).0) by {
                    if q > p {
                        assert(sorted_ids(s));
                        assert(triple_lt(s[p as int].0, s[q].0));
                        lemma_triple_lt_transitive(id, s[p as int].0, s[q].0);
                    }
                }
                return p;
            }
            proof {
                assert(s[p as int] == entry_record(self.entries@[p as int]));
                if s[p as int].0 == id {
                    assert(crate::keyed::has_key(s, id));
                }
                lemma_triple_lt_total(id, s[p as int].0);
                assert(triple_lt(s[p as int].0, id));
            }
            p = p + 1;
        }
        p
    }

    /// Removes the file under the key; returns its ciphertext and metadata,
    /// if it was there.
    pub fn delete(&mut self, owner: &Identity, name: &Blob, key: &Blob) -> (r: Option<(Vec<u8>, FileMetadata)>)
        requires
            old(self).wf(),
        ensures
            final(self).wf(),
            previous_view(r) == record_at(old(self).files(), (owner@, name@, key@)),
            final(self).files() == old(self).files().remove((owner@, name@, key@)),
    {
        let ghost before = self.records();
        match self.find(owner, name, key) {
            Some(i) => {
                proof {
                    lemma_sorted_unique(before);
                    lemma_as_map_index(before, i as int);
                    lemma_as_map_remove(before, i as int);
                }
                let e = self.entries.remove(i);
                let ghost after = self.records();
                assert(after =~= before.remove(i as int));
                assert forall|a: int, b: int| 0 <= a < b < after.len()
                    implies triple_lt(#[trigger] after[a].0, #[trigger] after[b].0) by {
                    let a1 = if a < i { a } else { a + 1 };
                    let b1 = if b < i { b } else { b + 1 };
                    assert(after[a] == before[a1] && after[b] == before[b1]);
                }
                Some((e.value, e.metadata))
            },
            None => {
                assert(self.files().remove((owner@, name@, key@)) =~= self.files());
                None
            },
        }
    }

    /// Every file of the collection, with its key, ciphertext and metadata.
    pub fn list(&self, owner: &Identity, name: &Blob) -> (r: Vec<(Vec<u8>, Vec<u8>, FileMetadata)>)
        requires
            self.wf(),
        ensures
            listing_view(r@) == files_of(self.records(), owner@, name@),
            keys_ascending(listing_view(r@)),
    {
        proof {
            lemma_listing_ascending(self.records(), owner@, name@);
        }
        let mut out: Vec<(Vec<u8>, Vec<u8>, FileMetadata)> = Vec::new();
        let mut i: usize = 0;
        while i < self.entries.len()
            invariant
                0 <= i <= self.entries@.len(),
                listing_view(out@) == files_of(self.records().take(i as int), owner@, name@),
            decreases self.entries@.len() - i,
        {
            let ghost s = self.records().take(i + 1);
            assert(s.drop_last() =~= self.records().take(i as int));
            assert(s.last() == self.records()[i as int]);
            let e = &self.entries[i];
            if e.owner.same(owner) && e.name.same(name) {
                out.push((e.key.to_bytes(), copy_bytes(&e.value), e.metadata.duplicate()));
            }
            assert(listing_view(out@) =~= files_of(s, owner@, name@));
            i = i + 1;
        }
        assert(self.records().take(self.entries@.len() as int) =~= self.records());
        out
    }

    /// Names of the collections of `owner` that hold at least one file.
    pub fn owned_names(&self, owner: &Identity) -> (r: Vec<Blob>)
        ensures
            blob_list_view(r@) == names_of(self.records(), owner@),
    {
        let mut out: Vec<Blob> = Vec::new();
        let mut i: usize = 0;
        while i < self.entries.len()
            invariant
                0 <= i <= self.entries@.len(),
                blob_list_view(out@) == names_of(self.records().take(i as int), owner@),
            decreases self.entries@.len() - i,
        {
            let ghost s = self.records().take(i + 1);
            assert(s.drop_last() =~= self.records().take(i as int));
            assert(s.last() == self.records()[i as int]);
            let e = &self.entries[i];
            if e.owner.same(owner) && !contains_blob(&out, &e.name) {
                out.push(e.name.duplicate());
            }
            assert(blob_list_view(out@) =~= names_of(s, owner@));
            i = i + 1;
        }
        assert(self.records().take(self.entries@.len() as int) =~= self.records());
        out
    }
}

proof fn lemma_files_of_sound(s: Seq<(FileId, FileRecord)>, owner: Seq<u8>, name: Seq<u8>, j: int)
    requires
        0 <= j < files_of(s, owner, name).len(),
    ensures
        exists|i: int| 0 <= i < s.len() && #[trigger] s[i] == ((owner, name, files_of(s, owner, name)[j].0),
            (files_of(s, owner, name)[j].1, files_of(s, owner, name)[j].2)),
    decreases s.len(),
{
    let rest = files_of(s.drop_last(), owner, name);
    let f = files_of(s, owner, name);
    if j < rest.len() {
        assert(f[j] == rest[j]);
        lemma_files_of_sound(s.drop_last(), owner, name, j);
        let i = choose|i: int| 0 <= i < s.drop_last().len() && #[trigger] s.drop_last()[i] == ((owner, name, rest[j].0),
            (rest[j].1, rest[j].2));
        assert(s[i] == s.drop_last()[i]);
    } else {
        let n = s.len() - 1;
        assert(s[n] == s.last());
    }
}

proof fn lemma_files_of_complete(s: Seq<(FileId, FileRecord)>, owner: Seq<u8>, name: Seq<u8>, i: int)
    requires
        0 <= i < s.len(),
        s[i].0.0 == owner,
        s[i].0.1 == name,
    ensures
        files_of(s, owner, name).contains((s[i].0.2, s[i].1.0, s[i].1.1)),
    decreases s.len(),
{
    let rest = files_of(s.drop_last(), owner, name);
    let f = files_of(s, owner, name);
    let item = (s[i].0.2, s[i].1.0, s[i].1.1);
    if i == s.len() - 1 {
        assert(f[f.len() - 1] == item);
    } else {
        assert(s.drop_last()[i] == s[i]);
        lemma_files_of_complete(s.drop_last(), owner, name, i);
        let j = choose|j: int| 0 <= j < rest.len() && rest[j] == item;
        assert(f[j] == rest[j]);
    }
}

/// Keys strictly ascend along `v`.
pub open spec fn keys_ascending(v: Seq<(Seq<u8>, Seq<u8>, MetadataView)>) -> bool {
    forall|i: int, j: int| 0 <= i < j < v.len() ==> bytes_lt(#[trigger] v[i].0, #[trigger] v[j].0)
}

/// The files of a collection are listed in ascending key order.
pub proof fn lemma_listing_ascending(s: Seq<(FileId, FileRecord)>, owner: Seq<u8>, name: Seq<u8>)
    requires
        sorted_ids(s),
    ensures
        keys_ascending(files_of(s, owner, name)),
    decreases s.len(),
{
    if s.len() > 0 {
        let d = s.drop_last();
        assert forall|i: int, j: int| 0 <= i < j < d.len() implies triple_lt(#[trigger] d[i].0, #[trigger] d[j].0) by {
            assert(d[i] == s[i] && d[j] == s[j]);
        }
        lemma_listing_ascending(d, owner, name);
        let rest = files_of(d, owner, name);
        let f = files_of(s, owner, name);
        let last = s.last();
        if last.0.0 == owner && last.0.1 == name {
            assert forall|i: int, j: int| 0 <= i < j < f.len() implies bytes_lt(#[trigger] f[i].0, #[trigger] f[j].0) by {
                assert(f[i] == rest[i]);
                if j < rest.len() {
                    assert(f[j] == rest[j]);
                } else {
                    lemma_files_of_sound(d, owner, name, i);
                    let k = choose|k: int| 0 <= k < d.len() && #[trigger] d[k] == ((owner, name, rest[i].0),
                        (rest[i].1, rest[i].2));
                    assert(s[k] == d[k]);
                    assert(triple_lt(s[k].0, s[s.len() - 1].0));
                    lemma_bytes_lt_irreflexive(owner);
                    lemma_bytes_lt_irreflexive(name);
                }
            }
        }
    }
}

/// A listing of a collection holds a (key, ciphertext, metadata) item
/// exactly when the store holds that ciphertext and that metadata under that
/// key of the collection: ciphertext and metadata never come apart.
pub proof fn lemma_listing_matches_store(
    s: Seq<(FileId, FileRecord)>,
    owner: Seq<u8>,
    name: Seq<u8>,
    key: Seq<u8>,
    value: Seq<u8>,
    meta: MetadataView,
)
    requires
        unique_keys(s),
    ensures
        files_of(s, owner, name).contains((key, value, meta)) <==> record_at(as_map(s), (owner, name, key)) == Some(
            (value, meta),
        ),
{
    let f = files_of(s, owner, name);
    if f.contains((key, value, meta)) {
        let j = choose|j: int| 0 <= j < f.len() && f[j] == (key, value, meta);
        lemma_files_of_sound(s, owner, name, j);
        let i = choose|i: int| 0 <= i < s.len() && #[trigger] s[i] == ((owner, name, f[j].0), (f[j].1, f[j].2));
        lemma_as_map_index(s, i);
    }
    if record_at(as_map(s), (owner, name, key)) == Some((value, meta)) {
        let i = choose|i: int| 0 <= i < s.len() && #[trigger] s[i].0 == (owner, name, key);
        lemma_as_map_index(s, i);
        lemma_files_of_complete(s, owner, name, i);
    }
}

/// A file stored under a key of a collection appears in the collection's
/// listing with its ciphertext and metadata.
pub proof fn lemma_stored_file_listed(s: FileStore, owner: Seq<u8>, name: Seq<u8>, key: Seq<u8>, rec: FileRecord)
    requires
        s.wf(),
        record_at(s.files(), (owner, name, key)) == Some(rec),
    ensures
        files_of(s.records(), owner, name).contains((key, rec.0, rec.1)),
{
    lemma_sorted_unique(s.records());
    lemma_listing_matches_store(s.records(), owner, name, key, rec.0, rec.1);
}

/// A key of a collection under which nothing is stored does not appear in
/// the collection's listing.
pub proof fn lemma_absent_file_unlisted(s: FileStore, owner: Seq<u8>, name: Seq<u8>, key: Seq<u8>)
    requires
        s.wf(),
        !s.files().contains_key((owner, name, key)),
    ensures
        forall|v: Seq<u8>, m: MetadataView| !(#[trigger] files_of(s.records(), owner, name).contains((key, v, m))),
{
    lemma_sorted_unique(s.records());
    assert forall|v: Seq<u8>, m: MetadataView| !(#[trigger] files_of(s.records(), owner, name).contains((key, v, m))) by {
        lemma_listing_matches_store(s.records(), owner, name, key, v, m);
    }
}

/// Uploading to a key that holds nothing and then removing it gives back
/// exactly what was uploaded and leaves the store as it was.
pub proof fn lemma_upload_remove_round_trip(files: Map<FileId, FileRecord>, id: FileId, rec: FileRecord)
    requires
        !files.contains_key(id),
    ensures
        record_at(files.insert(id, rec), id) == Some(rec),
        files.insert(id, rec).remove(id) == files,
{
    assert(files.insert(id, rec).remove(id) =~= files);
}

/// Uploading again to a stored key keeps its type, size, creation date and
/// uploader, and takes the new name, tags, description and modification
/// time; with a clock that does not run backwards the modification time
/// does not go back.
pub proof fn lemma_reupload_keeps_origin(
    prev: FileRecord,
    value: Seq<u8>,
    filename: Seq<char>,
    content_type: Seq<char>,
    file_size: u64,
    caller: Seq<u8>,
    tags: Seq<Seq<char>>,
    description: Option<Seq<char>>,
    now: u64,
)
    ensures
        ({
            let m = uploaded_record(Some(prev), value, filename, content_type, file_size, caller, tags, description, now);
            &&& m.0 == value
            &&& m.1.content_type == prev.1.content_type
            &&& m.1.file_size == prev.1.file_size
            &&& m.1.creation_date == prev.1.creation_date
            &&& m.1.uploaded_by == prev.1.uploaded_by
            &&& m.1.filename == filename
            &&& m.1.tags == tags
            &&& m.1.description == description
            &&& m.1.last_modification_date == now
            &&& prev.1.last_modification_date <= now ==> m.1.last_modification_date >= prev.1.last_modification_date
        }),
{
}

} // verus!
