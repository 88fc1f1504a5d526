use vstd::prelude::*;
use crate::order::{bytes_lt, compare_bytes, lemma_bytes_lt_asymmetric, lemma_bytes_lt_total};
use crate::types::{FilesError, Identity};
use vstd::utf8::encode_utf8;

verus! {

/// A registered user.
#[derive(Debug)]
pub struct User {
    pub username: String,
    pub principal: Identity,
    pub display_name: Option<String>,
    pub created_at: u64,
}

/// Mathematical value of a `User`.
pub struct UserView {
    pub username: Seq<char>,
    pub principal: Seq<u8>,
    pub display_name: Option<Seq<char>>,
    pub created_at: u64,
}

pub open spec fn opt_string_view(o: Option<String>) -> Option<Seq<char>> {
    match o {
        Some(s) => Some(s@),
        None => None,
    }
}

pub fn copy_opt_string(o: &Option<String>) -> (r: Option<String>)
    ensures
        opt_string_view(r) == opt_string_view(*o),
{
    match o {
        Some(s) => Some(s.clone()),
        None => None,
    }
}

impl View for User {
    type V = UserView;

    open spec fn view(&self) -> UserView {
        UserView {
            username: self.username@,
            principal: self.principal@,
            display_name: opt_string_view(self.display_name),
            created_at: self.created_at,
        }
    }
}

impl User {
    /// A user registered at time `created_at`.
    pub fn new(username: String, principal: Identity, display_name: Option<String>, created_at: u64) -> (r: User)
        ensures
            r.username == username,
            r@.principal == principal@,
            r.display_name == display_name,
            r.created_at == created_at,
    {
        User { username, principal, display_name, created_at }
    }

    pub fn duplicate(&self) -> (r: User)
        ensures
            r@ == self@,
    {
        User {
            username: self.username.clone(),
            principal: self.principal.duplicate(),
            display_name: copy_opt_string(&self.display_name),
            created_at: self.created_at,
        }
    }
}

pub open spec fn opt_user_view(o: Option<User>) -> Option<UserView> {
    match o {
        Some(u) => Some(u@),
        None => None,
    }
}

/// The user registered under `name`, if any.
pub open spec fn user_named(s: Seq<UserView>, name: Seq<char>) -> Option<UserView> {
    if exists|i: int| 0 <= i < s.len() && s[i].username == name {
        Some(s[choose|i: int| 0 <= i < s.len() && s[i].username == name])
    } else {
        None
    }
}

/// The user registered with identity `id`, if any.
pub open spec fn user_with_identity(s: Seq<UserView>, id: Seq<u8>) -> Option<UserView> {
    if exists|i: int| 0 <= i < s.len() && s[i].principal == id {
        Some(s[choose|i: int| 0 <= i < s.len() && s[i].principal == id])
    } else {
        None
    }
}

/// `q` occurs in `s` as a contiguous run of characters.
pub open spec fn has_substring(s: Seq<char>, q: Seq<char>) -> bool {
    exists|i: int| 0 <= i && i + q.len() <= s.len() && #[trigger] s.subrange(i, i + q.len()) == q
}

/// Relies on `str::contains` with a `&str` pattern: true exactly when the
/// pattern occurs in the string.
#[verifier::external_body]
fn text_contains(s: &String, q: &String) -> (r: bool)
    ensures
        r == has_substring(s@, q@),
{
    s.as_str().contains(q.as_str())
}

/// Whether a search for `q` finds the user `u`: by username or by display
/// name.
pub open spec fn user_matches(u: UserView, q: Seq<char>) -> bool {
    has_substring(u.username, q) || (u.display_name is Some && has_substring(u.display_name->Some_0, q))
}

/// The users of `s` that a search for `q` finds, in order.
pub open spec fn matching_users(s: Seq<UserView>, q: Seq<char>) -> Seq<UserView>
    decreases s.len(),
{
    if s.len() == 0 {
        Seq::empty()
    } else {
        let rest = matching_users(s.drop_last(), q);
        if user_matches(s.last(), q) {
            rest.push(s.last())
        } else {
            rest
        }
    }
}

proof fn lemma_matching_from(s: Seq<UserView>, q: Seq<char>, k: int)
    requires
        0 <= k < matching_users(s, q).len(),
    ensures
        exists|i: int| 0 <= i < s.len() && #[trigger] s[i] == matching_users(s, q)[k],
    decreases s.len(),
{
    let d = s.drop_last();
    let rest = matching_users(d, q);
    if k < rest.len() {
        assert(matching_users(s, q)[k] == rest[k]);
        lemma_matching_from(d, q, k);
        let i = choose|i: int| 0 <= i < d.len() && #[trigger] d[i] == rest[k];
        assert(s[i] == d[i]);
    } else {
        assert(s[s.len() - 1] == s.last());
    }
}

/// The users that a search finds in a directory kept in username order come
/// in username order too.
pub proof fn lemma_matches_in_name_order(s: Seq<UserView>, q: Seq<char>)
    requires
        sorted_by_name(s),
    ensures
        sorted_by_name(matching_users(s, q)),
    decreases s.len(),
{
    if s.len() > 0 {
        let d = s.drop_last();
        assert forall|i: int, j: int| 0 <= i < j < d.len() implies !name_lt(#[trigger] d[j].username, #[trigger] d[i].username) by {
            assert(d[i] == s[i] && d[j] == s[j]);
        }
        lemma_matches_in_name_order(d, q);
        let rest = matching_users(d, q);
        let m = matching_users(s, q);
        assert forall|i: int, j: int| 0 <= i < j < m.len() implies !name_lt(#[trigger] m[j].username, #[trigger] m[i].username) by {
            assert(m[i] == rest[i]);
            if j < rest.len() {
                assert(m[j] == rest[j]);
            } else {
                lemma_matching_from(d, q, i);
                let k = choose|k: int| 0 <= k < d.len() && #[trigger] d[k] == rest[i];
                assert(s[k] == d[k]);
                assert(!name_lt(s[s.len() - 1].username, s[k].username));
            }
        }
    }
}

/// Most users that one search returns.
pub const SEARCH_LIMIT: usize = 10;

pub open spec fn users_of(v: Seq<User>) -> Seq<UserView> {
    v.map_values(|u: User| u@)
}

/// Order of usernames: byte order of their UTF-8 encodings, which is the
/// order of `String`.
pub open spec fn name_lt(a: Seq<char>, b: Seq<char>) -> bool {
    bytes_lt(encode_utf8(a), encode_utf8(b))
}

/// Usernames ascend along `s`.
pub open spec fn sorted_by_name(s: Seq<UserView>) -> bool {
    forall|i: int, j: int| 0 <= i < j < s.len() ==> !name_lt(#[trigger] s[j].username, #[trigger] s[i].username)
}

/// Whether `a` comes before `b` in username order.
fn name_before(a: &String, b: &String) -> (r: bool)
    ensures
        r == name_lt(a@, b@),
{
    compare_bytes(a.as_str().as_bytes(), b.as_str().as_bytes()) < 0
}

/// Usernames are unique, and so are identities.
pub open spec fn unique_users(s: Seq<UserView>) -> bool {
    &&& forall|i: int, j: int|
        0 <= i < s.len() && 0 <= j < s.len() && #[trigger] s[i].username == #[trigger] s[j].username
            ==> i == j
    &&& forall|i: int, j: int|
        0 <= i < s.len() && 0 <= j < s.len() && #[trigger] s[i].principal == #[trigger] s[j].principal
            ==> i == j
}

/// The registered users, each reachable by username and by identity.
pub struct UserDirectory {
    pub users: Vec<User>,
}

impl UserDirectory {
    pub open spec fn users_view(&self) -> Seq<UserView> {
        self.users@.map_values(|u: User| u@)
    }

    /// Usernames and identities are unique, and users are kept in
    /// ascending username order.
    pub open spec fn wf(&self) -> bool {
        unique_users(self.users_view()) && sorted_by_name(self.users_view())
    }

    pub fn new() -> (r: UserDirectory)
        ensures
            r.wf(),
            r.users_view() == Seq::<UserView>::empty(),
    {
        UserDirectory { users: Vec::new() }
    }

    fn index_of_name(&self, name: &String) -> (r: Option<usize>)
        requires
            self.wf(),
        ensures
            r is None ==> user_named(self.users_view(), name@) is None,
            r is Some ==> r->Some_0 < self.users@.len()
                && user_named(self.users_view(), name@) == Some(self.users_view()[r->Some_0 as int]),
    {
        let mut i: usize = 0;
        while i < self.users.len()
            invariant
                self.wf(),
                0 <= i <= self.users@.len(),
                forall|j: int| 0 <= j < i ==> (#[trigger] self.users_view()[j]).username != name@,
            decreases self.users@.len() - i,
        {
            if self.users[i].username == *name {
                let ghost s = self.users_view();
                assert(s[i as int].username == name@);
                let ghost k = choose|k: int| 0 <= k < s.len() && s[k].username == name@;
                assert(s[k].username == s[i as int].username);
                return Some(i);
            }
            i = i + 1;
        }
        None
    }

    fn index_of_identity(&self, id: &Identity) -> (r: Option<usize>)
        requires
            self.wf(),
        ensures
            r is None ==> user_with_identity(self.users_view(), id@) is None,
            r is Some ==> r->Some_0 < self.users@.len()
                && user_with_identity(self.users_view(), id@) == Some(self.users_view()[r->Some_0 as int]),
    {
        let mut i: usize = 0;
        while i < self.users.len()
            invariant
                self.wf(),
                0 <= i <= self.users@.len(),
                forall|j: int| 0 <= j < i ==> (#[trigger] self.users_view()[j]).principal != id@,
            decreases self.users@.len() - i,
        {
            if self.users[i].principal.same(id) {
                let ghost s = self.users_view();
                assert(s[i as int].principal == id@);
                let ghost k = choose|k: int| 0 <= k < s.len() && s[k].principal == id@;
                assert(s[k].principal == s[i as int].principal);
                return Some(i);
            }
            i = i + 1;
        }
        None
    }

    /// The first `SEARCH_LIMIT` users, in ascending username order, whose
    /// username or display name holds `query`.
    pub fn search_users(&self, query: &String) -> (r: Vec<User>)
        requires
            self.wf(),
        ensures
            users_of(r@) == matching_users(self.users_view(), query@).take(
                vstd::math::min(SEARCH_LIMIT as int, matching_users(self.users_view(), query@).len() as int)),
            sorted_by_name(users_of(r@)),
    {
        proof {
            lemma_matches_in_name_order(self.users_view(), query@);
        }
        let mut out: Vec<User> = Vec::new();
        let mut i: usize = 0;
        while i < self.users.len()
            invariant
                0 <= i <= self.users@.len(),
                out@.len() <= SEARCH_LIMIT,
                users_of(out@) == matching_users(self.users_view().take(i as int), query@).take(
                    vstd::math::min(SEARCH_LIMIT as int, matching_users(self.users_view().take(i as int), query@).len() as int)),
            decreases self.users@.len() - i,
        {
            let ghost s = self.users_view().take(i + 1);
            let ghost prev = matching_users(self.users_view().take(i as int), query@);
            assert(s.drop_last() =~= self.users_view().take(i as int));
            assert(s.last() == self.users_view()[i as int]);
            let u = &self.users[i];
            let found = text_contains(&u.username, query) || match &u.display_name {
                Some(d) => text_contains(d, query),
                None => false,
            };
            assert(found == user_matches(s.last(), query@));
            let ghost next = if user_matches(s.last(), query@) { prev.push(s.last()) } else { prev };
            assert(matching_users(s, query@) == next);
            let ghost before = out@;
            assert(users_of(before).len() == before.len());
            if out.len() < SEARCH_LIMIT {
                assert(prev.len() < SEARCH_LIMIT);
                assert(users_of(before) =~= prev);
                if found {
                    out.push(u.duplicate());
                    assert(users_of(out@) =~= users_of(before).push(s.last()));
                }
                assert(users_of(out@) =~= next);
                assert(next.take(next.len() as int) =~= next);
            } else {
                assert(prev.len() >= SEARCH_LIMIT);
                assert(next.take(SEARCH_LIMIT as int) =~= prev.take(SEARCH_LIMIT as int));
            }
            i = i + 1;
        }
        assert(self.users_view().take(self.users@.len() as int) =~= self.users_view());
        proof {
            let m = matching_users(self.users_view(), query@);
            let r = users_of(out@);
            assert forall|i: int, j: int| 0 <= i < j < r.len() implies !name_lt(#[trigger] r[j].username, #[trigger] r[i].username) by {
                assert(r[i] == m[i] && r[j] == m[j]);
            }
        }
        out
    }

    /// The user registered under `username`.
    pub fn get_user_by_username(&self, username: &String) -> (r: Option<User>)
        requires
            self.wf(),
        ensures
            opt_user_view(r) == user_named(self.users_view(), username@),
    {
        match self.index_of_name(username) {
            Some(i) => Some(self.users[i].duplicate()),
            None => None,
        }
    }

    /// The user registered with identity `caller`.
    pub fn get_my_user_profile(&self, caller: &Identity) -> (r: Option<User>)
        requires
            self.wf(),
        ensures
            opt_user_view(r) == user_with_identity(self.users_view(), caller@),
    {
        match self.index_of_identity(caller) {
            Some(i) => Some(self.users[i].duplicate()),
            None => None,
        }
    }

    /// Position of `name` in username order: every user before it sorts
    /// no later than `name`, and the user at it sorts after.
    fn name_position(&self, name: &String) -> (p: usize)
        requires
            self.wf(),
        ensures
            p <= self.users@.len(),
            forall|q: int| 0 <= q < p ==> !name_lt(name@, (#[trigger] self.users_view()[q]).username),
            p < self.users@.len() ==> name_lt(name@, self.users_view()[p as int].username),
    {
        let mut p: usize = 0;
        while p < self.users.len()
            invariant
                0 <= p <= self.users@.len(),
                forall|q: int| 0 <= q < p ==> !name_lt(name@, (#[trigger] self.users_view()[q]).username),
            decreases self.users@.len() - p,
        {
            if name_before(name, &self.users[p].username) {
                return p;
            }
            p = p + 1;
        }
        p
    }

    /// Registers `caller` under `username` at time `now`. Fails when the
    /// username is taken or when the caller already has a username; then
    /// nothing changes.
    pub fn register_user(&mut self, caller: Identity, username: String, display_name: Option<String>, now: u64) -> (r: Result<User, FilesError>)
        requires
            old(self).wf(),
        ensures
            final(self).wf(),
            user_named(old(self).users_view(), username@) is Some
                ==> r == Err::<User, FilesError>(FilesError::DuplicateUsername) && final(self).users_view() == old(self).users_view(),
            user_named(old(self).users_view(), username@) is None
                && user_with_identity(old(self).users_view(), caller@) is Some
                ==> r == Err::<User, FilesError>(FilesError::IdentityAlreadyRegistered)
                    && final(self).users_view() == old(self).users_view(),
            user_named(old(self).users_view(), username@) is None
                && user_with_identity(old(self).users_view(), caller@) is None
                ==> r is Ok && r->Ok_0@ == (UserView {
                    username: username@,
                    principal: caller@,
                    display_name: opt_string_view(display_name),
                    created_at: now,
                }) && exists|p: int| 0 <= p <= old(self).users@.len()
                    && final(self).users_view() == old(self).users_view().insert(p, r->Ok_0@),
    {
        if self.index_of_name(&username).is_some() {
            return Err(FilesError::DuplicateUsername);
        }
        if self.index_of_identity(&caller).is_some() {
            return Err(FilesError::IdentityAlreadyRegistered);
        }
        let user = User::new(username, caller, display_name, now);
        let copy = user.duplicate();
        let ghost before = self.users_view();
        let ghost n = before.len() as int;
        let p = self.name_position(&user.username);
        self.users.insert(p, user);
        assert(self.users_view() =~= before.insert(p as int, copy@));
        proof {
            let s = self.users_view();
            assert forall|a: int| 0 <= a < s.len() && a != p implies #[trigger] s[a] == before[if a < p { a } else { a - 1 }] by {}
            assert(s[p as int] == copy@);
            assert forall|i: int| 0 <= i < n implies #[trigger] before[i].username != copy@.username by {
                if before[i].username == copy@.username {
                    assert(exists|k: int| 0 <= k < before.len() && before[k].username == username@);
                }
            }
            assert forall|i: int| 0 <= i < n implies #[trigger] before[i].principal != copy@.principal by {
                if before[i].principal == copy@.principal {
                    assert(exists|k: int| 0 <= k < before.len() && before[k].principal == copy@.principal);
                }
            }
            assert forall|i: int, j: int|
                0 <= i < s.len() && 0 <= j < s.len() && #[trigger] s[i].username == #[trigger] s[j].username
                implies i == j by {
                let i1 = if i < p { i } else { i - 1 };
                let j1 = if j < p { j } else { j - 1 };
                if i != p && j != p {
                    assert(s[i] == before[i1] && s[j] == before[j1]);
                } else if i != p {
                    assert(s[i] == before[i1]);
                } else if j != p {
                    assert(s[j] == before[j1]);
                }
            }
            assert forall|i: int, j: int|
                0 <= i < s.len() && 0 <= j < s.len() && #[trigger] s[i].principal == #[trigger] s[j].principal
                implies i == j by {
                let i1 = if i < p { i } else { i - 1 };
                let j1 = if j < p { j } else { j - 1 };
                if i != p && j != p {
                    assert(s[i] == before[i1] && s[j] == before[j1]);
                } else if i != p {
                    assert(s[i] == before[i1]);
                } else if j != p {
                    assert(s[j] == before[j1]);
                }
            }
            assert forall|i: int, j: int| 0 <= i < j < s.len()
                implies !name_lt(#[trigger] s[j].username, #[trigger] s[i].username) by {
                let i1 = if i < p { i } else { i - 1 };
                let j1 = if j < p { j } else { j - 1 };
                if j == p {
                    assert(s[i] == before[i1]);
                    if encode_utf8(copy@.username) != encode_utf8(before[i1].username) {
                        lemma_bytes_lt_total(encode_utf8(copy@.username), encode_utf8(before[i1].username));
                    }
                } else if i == p {
                    assert(s[j] == before[j1]);
                    assert(j1 >= p);
                    let a = encode_utf8(copy@.username);
                    let b = encode_utf8(before[p as int].username);
                    let c = encode_utf8(before[j1].username);
                    assert(bytes_lt(a, b));
                    if j1 > p {
                        assert(!bytes_lt(c, b));
                        if b != c {
                            lemma_bytes_lt_total(b, c);
                            crate::order::lemma_bytes_lt_transitive(a, b, c);
                        }
                    }
                    lemma_bytes_lt_asymmetric(a, c);
                } else {
                    assert(s[i] == before[i1] && s[j] == before[j1]);
                }
            }
        }
        Ok(copy)
    }
}

/// Every registered user is found both by username and by identity.
pub proof fn lemma_registered_user_found(d: UserDirectory, i: int)
    requires
        d.wf(),
        0 <= i < d.users@.len(),
    ensures
        user_named(d.users_view(), d.users_view()[i].username) == Some(d.users_view()[i]),
        user_with_identity(d.users_view(), d.users_view()[i].principal) == Some(d.users_view()[i]),
{
    let s = d.users_view();
    assert(0 <= i < s.len() && s[i].username == s[i].username);
    assert(0 <= i < s.len() && s[i].principal == s[i].principal);
}

/// No identity is ever registered under two usernames.
pub proof fn lemma_identity_has_one_username(d: UserDirectory, i: int, j: int)
    requires
        d.wf(),
        0 <= i < d.users@.len(),
        0 <= j < d.users@.len(),
        d.users_view()[i].principal == d.users_view()[j].principal,
    ensures
        d.users_view()[i].username == d.users_view()[j].username,
{
}

} // verus!
