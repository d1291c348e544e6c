use vstd::prelude::*;

use crate::user::CreateUserRequest;
use crate::user::UpdateUserRequest;
use crate::user::User;
use crate::user::UserView;

verus! {

/// Model of the users a store holds, in call order of creation.
pub open spec fn seq_user_views(s: Seq<User>) -> Seq<UserView> {
    s.map_values(|u: User| u@)
}

/// Mathematical model of the user store: the live records and the
/// counter the next created user will take its id from.
#[verifier::ext_equal]
pub ghost struct UserStoreView {
    pub users: Seq<UserView>,
    pub next_id: u32,
}

/// Some live record carries this id.
pub open spec fn user_has_id(s: Seq<UserView>, id: u32) -> bool {
    exists|i: int| 0 <= i < s.len() && (#[trigger] s[i]).id == id
}

/// The position of the record with this id (meaningful when ids are
/// unique and `user_has_id` holds).
pub open spec fn user_index_of(s: Seq<UserView>, id: u32) -> int {
    choose|i: int| 0 <= i < s.len() && (#[trigger] s[i]).id == id
}

/// Some live record carries this username.
pub open spec fn user_has_name(s: Seq<UserView>, name: Seq<char>) -> bool {
    exists|i: int| 0 <= i < s.len() && (#[trigger] s[i]).username == name
}

/// The position of the record with this username (meaningful when
/// usernames are unique and `user_has_name` holds).
pub open spec fn user_index_of_name(s: Seq<UserView>, name: Seq<char>) -> int {
    choose|i: int| 0 <= i < s.len() && (#[trigger] s[i]).username == name
}

/// Some live record other than the one with the given id carries this
/// username, so giving that username to the given record would break
/// uniqueness.
pub open spec fn user_name_conflict(s: Seq<UserView>, id: u32, name: Seq<char>) -> bool {
    exists|i: int| 0 <= i < s.len() && (#[trigger] s[i]).id != id && s[i].username == name
}

/// No two live records share an id.
pub open spec fn user_ids_unique(s: Seq<UserView>) -> bool {
    forall|i: int, j: int| #![trigger s[i], s[j]]
        0 <= i < s.len() && 0 <= j < s.len() && i != j ==> s[i].id != s[j].id
}

/// No two live records share a username.
pub open spec fn user_names_unique(s: Seq<UserView>) -> bool {
    forall|i: int, j: int| #![trigger s[i], s[j]]
        0 <= i < s.len() && 0 <= j < s.len() && i != j ==> s[i].username != s[j].username
}

/// Invariant of the user store: ids and usernames are unique among
/// live records, every live id was drawn from the counter, and the
/// counter starts at one.
pub open spec fn user_store_wf(v: UserStoreView) -> bool {
    &&& 1 <= v.next_id
    &&& forall|i: int| 0 <= i < v.users.len() ==> (#[trigger] v.users[i]).id < v.next_id
    &&& user_ids_unique(v.users)
    &&& user_names_unique(v.users)
}

/// The transition a successful create makes: the new record takes the
/// counter's value as its id, is appended to the live records, and the
/// counter moves up by one.
pub open spec fn user_create_ok(pre: UserStoreView, post: UserStoreView, u: UserView) -> bool {
    &&& u.id == pre.next_id
    &&& post.next_id == pre.next_id + 1
    &&& post.users == pre.users.push(u)
}

/// The text a partial update leaves in a field: the new value when one
/// is supplied, the prior value otherwise.
pub open spec fn user_text_or_prior(o: Option<String>, prior: Seq<char>) -> Seq<char> {
    match o {
        Some(t) => t@,
        None => prior,
    }
}

/// The record a successful update produces: supplied fields replaced,
/// absent fields kept, the id and creation time untouched.
pub open spec fn user_after_update(u: UserView, request: UpdateUserRequest) -> UserView {
    UserView {
        id: u.id,
        username: user_text_or_prior(request.username, u.username),
        email: user_text_or_prior(request.email, u.email),
        created_at: u.created_at,
    }
}

/// An update request asks for a username some other live record
/// already carries.
pub open spec fn user_update_conflict(s: Seq<UserView>, id: u32, request: UpdateUserRequest) -> bool {
    match request.username {
        Some(t) => user_name_conflict(s, id, t@),
        None => false,
    }
}

proof fn lemma_seq_user_views_push(s: Seq<User>, u: User)
    ensures
        seq_user_views(s.push(u)) == seq_user_views(s).push(u@),
{
    assert forall|j: int| 0 <= j < s.len() + 1 implies seq_user_views(s.push(u))[j]
        == seq_user_views(s).push(u@)[j] by {
        if j < s.len() {
            assert(s.push(u)[j] == s[j]);
        } else {
            assert(s.push(u)[j] == u);
        }
    }
    assert(seq_user_views(s.push(u)) =~= seq_user_views(s).push(u@));
}

proof fn lemma_seq_user_views_set(s: Seq<User>, i: int, u: User)
    requires
        0 <= i < s.len(),
    ensures
        seq_user_views(s.update(i, u)) == seq_user_views(s).update(i, u@),
{
    assert forall|j: int| 0 <= j < s.len() implies seq_user_views(s.update(i, u))[j]
        == seq_user_views(s).update(i, u@)[j] by {
        if j != i {
            assert(s.update(i, u)[j] == s[j]);
        } else {
            assert(s.update(i, u)[j] == u);
        }
    }
    assert(seq_user_views(s.update(i, u)) =~= seq_user_views(s).update(i, u@));
}

proof fn lemma_seq_user_views_remove(s: Seq<User>, i: int)
    requires
        0 <= i < s.len(),
    ensures
        seq_user_views(s.remove(i)) == seq_user_views(s).remove(i),
{
    assert forall|j: int| 0 <= j < s.len() - 1 implies seq_user_views(s.remove(i))[j]
        == seq_user_views(s).remove(i)[j] by {
        if j < i {
            assert(s.remove(i)[j] == s[j]);
        } else {
            assert(s.remove(i)[j] == s[j + 1]);
        }
    }
    assert(seq_user_views(s.remove(i)) =~= seq_user_views(s).remove(i));
}

/// When ids are unique, the position of a record with a matching id is
/// the position `user_index_of` picks.
pub proof fn lemma_user_index_of(s: Seq<UserView>, id: u32, i: int)
    requires
        user_ids_unique(s),
        0 <= i < s.len(),
        s[i].id == id,
    ensures
        user_has_id(s, id),
        user_index_of(s, id) == i,
{
    assert(user_has_id(s, id));
    let j = user_index_of(s, id);
    if j != i {
        assert(s[j].id != s[i].id);
    }
}

/// When usernames are unique, the position of a record with a matching
/// username is the position `user_index_of_name` picks.
pub proof fn lemma_user_index_of_name(s: Seq<UserView>, name: Seq<char>, i: int)
    requires
        user_names_unique(s),
        0 <= i < s.len(),
        s[i].username == name,
    ensures
        user_has_name(s, name),
        user_index_of_name(s, name) == i,
{
    assert(user_has_name(s, name));
    let j = user_index_of_name(s, name);
    if j != i {
        assert(s[j].username != s[i].username);
    }
}

/// The in-memory user store: the authoritative collection of live
/// users and the monotonic id allocator. Records are handed out as
/// copies, never as references into the store.
pub struct UserService {
    users: Vec<User>,
    next_id: u32,
}

impl View for UserService {
    type V = UserStoreView;

    closed spec fn view(&self) -> UserStoreView {
        UserStoreView { users: seq_user_views(self.users@), next_id: self.next_id }
    }
}

impl UserService {
    /// The store's invariant, established by `new` and preserved by
    /// every operation.
    pub open spec fn wf(&self) -> bool {
        user_store_wf(self@)
    }

    /// An empty store whose first user will get id 1.
    pub fn new() -> (s: Self)
        ensures
            s.wf(),
            s@.users == Seq::<UserView>::empty(),
            s@.next_id == 1u32,
    {
        let s = UserService { users: Vec::new(), next_id: 1 };
        proof {
            assert(seq_user_views(s.users@) =~= Seq::<UserView>::empty());
        }
        s
    }

    /// True while the id allocator can still hand out a fresh id;
    /// `create_user` and `create_user_at` ask for this.
    pub fn can_allocate_id(&self) -> (r: bool)
        ensures
            r == (self@.next_id < u32::MAX),
    {
        self.next_id < u32::MAX
    }

    /// Finds the position of the record with this id, if any.
    fn position_of_id(&self, id: u32) -> (r: Option<usize>)
        requires
            self.wf(),
        ensures
            match r {
                Some(i) => {
                    &&& user_has_id(self@.users, id)
                    &&& i < self@.users.len()
                    &&& self@.users[i as int].id == id
                    &&& user_index_of(self@.users, id) == i
                },
                None => !user_has_id(self@.users, id),
            },
    {
        let n = self.users.len();
        let mut i: usize = 0;
        while i < n
            invariant
                i <= n,
                n == self.users.len(),
                self.wf(),
                forall|j: int| 0 <= j < i ==> (#[trigger] self@.users[j]).id != id,
            decreases n - i,
        {
            if self.users[i].id == id {
                proof {
                    lemma_user_index_of(self@.users, id, i as int);
                }
                return Some(i);
            }
            i = i + 1;
        }
        None
    }

    /// True when some live record carries this username.
    fn contains_name(&self, name: &String) -> (r: bool)
        ensures
            r == user_has_name(self@.users, name@),
    {
        let n = self.users.len();
        let mut i: usize = 0;
        while i < n
            invariant
                i <= n,
                n == self.users.len(),
                forall|j: int| 0 <= j < i ==> (#[trigger] self@.users[j]).username != name@,
            decreases n - i,
        {
            if self.users[i].username == *name {
                proof {
                    assert(self@.users[i as int].username == name@);
                }
                return true;
            }
            i = i + 1;
        }
        false
    }

    /// True when some live record other than the one with this id
    /// carries this username.
    fn name_conflicts(&self, id: u32, name: &String) -> (r: bool)
        ensures
            r == user_name_conflict(self@.users, id, name@),
    {
        let n = self.users.len();
        let mut i: usize = 0;
        while i < n
            invariant
                i <= n,
                n == self.users.len(),
                forall|j: int| 0 <= j < i
                    ==> !((#[trigger] self@.users[j]).id != id && self@.users[j].username == name@),
            decreases n - i,
        {
            if self.users[i].id != id && self.users[i].username == *name {
                proof {
                    assert(self@.users[i as int].id != id && self@.users[i as int].username == name@);
                }
                return true;
            }
            i = i + 1;
        }
        false
    }

    /// A snapshot of every live record, in creation order.
    pub fn get_all_users(&self) -> (r: Result<Vec<User>, String>)
        ensures
            r matches Ok(v) && seq_user_views(v@) == self@.users,
    {
        let n = self.users.len();
        let mut out: Vec<User> = Vec::new();
        let mut i: usize = 0;
        while i < n
            invariant
                i <= n,
                n == self.users.len(),
                out@.len() == i as int,
                forall|j: int| 0 <= j < i ==> (#[trigger] out@[j])@ == self@.users[j],
            decreases n - i,
        {
            let u = self.users[i].clone();
            out.push(u);
            i = i + 1;
        }
        proof {
            assert forall|j: int| 0 <= j < out@.len() implies seq_user_views(out@)[j]
                == self@.users[j] by {
                assert(out@[j]@ == self@.users[j]);
            }
            assert(seq_user_views(out@) =~= self@.users);
        }
        Ok(out)
    }

    /// A copy of the record with this id, or `None` when no live
    /// record carries it.
    pub fn get_user_by_id(&self, id: u32) -> (r: Result<Option<User>, String>)
        requires
            self.wf(),
        ensures
            match r {
                Ok(Some(u)) => user_has_id(self@.users, id)
                    && u@ == self@.users[user_index_of(self@.users, id)],
                Ok(None) => !user_has_id(self@.users, id),
                Err(_) => false,
            },
    {
        match self.position_of_id(id) {
            Some(i) => Ok(Some(self.users[i].clone())),
            None => Ok(None),
        }
    }

    /// A copy of the record with this username, or `None` when no live
    /// record carries it.
    pub fn get_user_by_username(&self, username: &str) -> (r: Result<Option<User>, String>)
        requires
            self.wf(),
        ensures
            match r {
                Ok(Some(u)) => user_has_name(self@.users, username@)
                    && u@ == self@.users[user_index_of_name(self@.users, username@)],
                Ok(None) => !user_has_name(self@.users, username@),
                Err(_) => false,
            },
    {
        let wanted = username.to_owned();
        let n = self.users.len();
        let mut i: usize = 0;
        while i < n
            invariant
                i <= n,
                n == self.users.len(),
                self.wf(),
                wanted@ == username@,
                forall|j: int| 0 <= j < i ==> (#[trigger] self@.users[j]).username != username@,
            decreases n - i,
        {
            if self.users[i].username == wanted {
                proof {
                    lemma_user_index_of_name(self@.users, username@, i as int);
                }
                return Ok(Some(self.users[i].clone()));
            }
            i = i + 1;
        }
        Ok(None)
    }

    /// Creates a user whose creation timestamp is the given instant.
    /// The new record takes the next id; a username some live record
    /// already carries is rejected and leaves the store untouched.
    pub fn create_user_at(&mut self, request: CreateUserRequest, now: String) -> (r: Result<User, String>)
        requires
            old(self).wf(),
            old(self)@.next_id < u32::MAX,
        ensures
            final(self).wf(),
            match r {
                Ok(u) => {
                    &&& !user_has_name(old(self)@.users, request.username@)
                    &&& user_create_ok(old(self)@, final(self)@, u@)
                    &&& u@ == (UserView {
                        id: old(self)@.next_id,
                        username: request.username@,
                        email: request.email@,
                        created_at: now@,
                    })
                },
                Err(m) => {
                    &&& user_has_name(old(self)@.users, request.username@)
                    &&& m@ == "Username already exists"@
                    &&& final(self)@ == old(self)@
                },
            },
    {
        if self.contains_name(&request.username) {
            return Err("Username already exists".to_owned());
        }
        let id = self.next_id;
        self.next_id = self.next_id + 1;
        let user = User::new(id, request.username, request.email, now);
        let out = user.clone();
        let ghost pre_users = self.users@;
        self.users.push(user);
        proof {
            lemma_seq_user_views_push(pre_users, user);
            let pre = old(self)@;
            let post = self@;
            assert(post.users == pre.users.push(user@));
            assert forall|i: int, j: int| #![trigger post.users[i], post.users[j]]
                0 <= i < post.users.len() && 0 <= j < post.users.len() && i != j
                implies post.users[i].id != post.users[j].id
                    && post.users[i].username != post.users[j].username by {
                if i < pre.users.len() && j < pre.users.len() {
                    assert(pre.users[i] == post.users[i] && pre.users[j] == post.users[j]);
                } else if j == pre.users.len() {
                    assert(post.users[i] == pre.users[i]);
                    assert(!(pre.users[i].username == user@.username));
                } else {
                    assert(post.users[j] == pre.users[j]);
                    assert(!(pre.users[j].username == user@.username));
                }
            }
        }
        Ok(out)
    }

    /// Creates a user stamped with the current instant. Same outcome
    /// as `create_user_at`, except that the creation time is whatever
    /// the clock read.
    pub fn create_user(&mut self, request: CreateUserRequest) -> (r: Result<User, String>)
        requires
            old(self).wf(),
            old(self)@.next_id < u32::MAX,
        ensures
            final(self).wf(),
            match r {
                Ok(u) => {
                    &&& !user_has_name(old(self)@.users, request.username@)
                    &&& user_create_ok(old(self)@, final(self)@, u@)
                    &&& u@.username == request.username@
                    &&& u@.email == request.email@
                },
                Err(m) => {
                    &&& user_has_name(old(self)@.users, request.username@)
                    &&& m@ == "Username already exists"@
                    &&& final(self)@ == old(self)@
                },
            },
    {
        let now = crate::clock::now_rfc3339();
        self.create_user_at(request, now)
    }

    /// Applies a partial update to the record with this id: `Ok(None)`
    /// when the id is not live, an error (store untouched) when the
    /// requested username belongs to another live record, otherwise a
    /// copy of the updated record. The creation time is never touched.
    pub fn update_user(&mut self, id: u32, request: UpdateUserRequest) -> (r: Result<Option<User>, String>)
        requires
            old(self).wf(),
        ensures
            final(self).wf(),
            ({
                let pre = old(self)@;
                match r {
                    Ok(None) => !user_has_id(pre.users, id) && final(self)@ == pre,
                    Ok(Some(u)) => {
                        &&& user_has_id(pre.users, id)
                        &&& !user_update_conflict(pre.users, id, request)
                        &&& u@ == user_after_update(pre.users[user_index_of(pre.users, id)], request)
                        &&& final(self)@.users == pre.users.update(user_index_of(pre.users, id), u@)
                        &&& final(self)@.next_id == pre.next_id
                    },
                    Err(m) => {
                        &&& user_has_id(pre.users, id)
                        &&& user_update_conflict(pre.users, id, request)
                        &&& m@ == "Username already exists"@
                        &&& final(self)@ == pre
                    },
                }
            }),
    {
        let i = match self.position_of_id(id) {
            None => {
                return Ok(None);
            },
            Some(i) => i,
        };
        let conflict = match &request.username {
            Some(t) => self.name_conflicts(id, t),
            None => false,
        };
        if conflict {
            return Err("Username already exists".to_owned());
        }
        let new_username = match request.username {
            Some(t) => t,
            None => self.users[i].username.clone(),
        };
        let new_email = match request.email {
            Some(t) => t,
            None => self.users[i].email.clone(),
        };
        let updated = User {
            id: self.users[i].id,
            username: new_username,
            email: new_email,
            created_at: self.users[i].created_at.clone(),
        };
        let out = updated.clone();
        let ghost pre_users = self.users@;
        self.users.set(i, updated);
        proof {
            lemma_seq_user_views_set(pre_users, i as int, updated);
            let pre = old(self)@;
            let post = self@;
            assert(post.users == pre.users.update(i as int, updated@));
            assert forall|p: int, q: int| #![trigger post.users[p], post.users[q]]
                0 <= p < post.users.len() && 0 <= q < post.users.len() && p != q
                implies post.users[p].id != post.users[q].id
                    && post.users[p].username != post.users[q].username by {
                if p != i as int && q != i as int {
                    assert(post.users[p] == pre.users[p] && post.users[q] == pre.users[q]);
                } else if p == i as int {
                    assert(post.users[q] == pre.users[q]);
                    assert(pre.users[q].id != id);
                } else {
                    assert(post.users[p] == pre.users[p]);
                    assert(pre.users[p].id != id);
                }
            }
        }
        Ok(Some(out))
    }

    /// Removes the record with this id; reports whether one was live.
    /// Deleting an absent id is not an error and changes nothing.
    pub fn delete_user(&mut self, id: u32) -> (r: Result<bool, String>)
        requires
            old(self).wf(),
        ensures
            final(self).wf(),
            ({
                let pre = old(self)@;
                match r {
                    Ok(true) => {
                        &&& user_has_id(pre.users, id)
                        &&& final(self)@.users == pre.users.remove(user_index_of(pre.users, id))
                        &&& final(self)@.next_id == pre.next_id
                    },
                    Ok(false) => !user_has_id(pre.users, id) && final(self)@ == pre,
                    Err(_) => false,
                }
            }),
    {
        match self.position_of_id(id) {
            None => Ok(false),
            Some(i) => {
                let ghost pre_users = self.users@;
                self.users.remove(i);
                proof {
                    lemma_seq_user_views_remove(pre_users, i as int);
                    let pre = old(self)@;
                    let post = self@;
                    assert(post.users == pre.users.remove(i as int));
                    assert forall|p: int, q: int| #![trigger post.users[p], post.users[q]]
                        0 <= p < post.users.len() && 0 <= q < post.users.len() && p != q
                        implies post.users[p].id != post.users[q].id
                            && post.users[p].username != post.users[q].username by {
                        let p0: int = if p < i as int {
                            p
                        } else {
                            p + 1
                        };
                        let q0: int = if q < i as int {
                            q
                        } else {
                            q + 1
                        };
                        assert(post.users[p] == pre.users[p0] && post.users[q] == pre.users[q0]);
                    }
                    assert forall|p: int| 0 <= p < post.users.len()
                        implies (#[trigger] post.users[p]).id < post.next_id by {
                        let p0: int = if p < i as int {
                            p
                        } else {
                            p + 1
                        };
                        assert(post.users[p] == pre.users[p0]);
                    }
                }
                Ok(true)
            },
        }
    }
}

/// A chain of successful creates: step `i` turns `states[i]` into
/// `states[i + 1]` and returns `created[i]`.
pub open spec fn user_create_seq_ok(states: Seq<UserStoreView>, created: Seq<UserView>) -> bool {
    &&& states.len() == created.len() + 1
    &&& forall|i: int| 0 <= i < created.len()
            ==> user_create_ok(states[i], states[i + 1], #[trigger] created[i])
}

/// Along a chain of successful creates the counter advances by exactly
/// one per call: no create is lost and none is counted twice.
pub proof fn lemma_user_create_seq_counter(states: Seq<UserStoreView>, created: Seq<UserView>)
    requires
        user_create_seq_ok(states, created),
    ensures
        forall|i: int, j: int| #![trigger states[i], states[j]]
            0 <= i <= j < states.len() ==> states[i].next_id + (j - i) == states[j].next_id,
    decreases created.len(),
{
    if created.len() > 0 {
        let n = created.len() as int;
        let states2 = states.take(n);
        let created2 = created.take(n - 1);
        assert(user_create_seq_ok(states2, created2)) by {
            assert forall|i: int| 0 <= i < created2.len() implies user_create_ok(
                states2[i],
                states2[i + 1],
                #[trigger] created2[i],
            ) by {
                assert(created2[i] == created[i]);
                assert(states2[i] == states[i] && states2[i + 1] == states[i + 1]);
                assert(user_create_ok(states[i], states[i + 1], created[i]));
            }
        }
        lemma_user_create_seq_counter(states2, created2);
        assert(user_create_ok(states[n - 1], states[n], created[n - 1]));
        assert forall|i: int, j: int| #![trigger states[i], states[j]]
            0 <= i <= j < states.len() implies states[i].next_id + (j - i) == states[j].next_id by {
            if j < n {
                assert(states2[i] == states[i] && states2[j] == states[j]);
                assert(states2[i].next_id + (j - i) == states2[j].next_id);
            } else if i == j {
            } else {
                assert(states2[i] == states[i] && states2[n - 1] == states[n - 1]);
                assert(states2[i].next_id + (n - 1 - i) == states2[n - 1].next_id);
            }
        }
    }
}

/// For every sequence of successful creates, the ids handed out are
/// strictly increasing in call order (hence all distinct), and the
/// counter ends exactly one higher per create.
pub proof fn lemma_user_create_ids_strictly_increase(states: Seq<UserStoreView>, created: Seq<UserView>)
    requires
        user_create_seq_ok(states, created),
    ensures
        states.last().next_id == states[0].next_id + created.len(),
        forall|i: int, j: int| #![trigger created[i], created[j]]
            0 <= i < j < created.len() ==> created[i].id < created[j].id,
{
    lemma_user_create_seq_counter(states, created);
    let n = created.len() as int;
    assert(states[0].next_id + n == states[n].next_id);
    assert forall|i: int, j: int| #![trigger created[i], created[j]]
        0 <= i < j < created.len() implies created[i].id < created[j].id by {
        assert(user_create_ok(states[i], states[i + 1], created[i]));
        assert(user_create_ok(states[j], states[j + 1], created[j]));
        assert(states[i].next_id + (j - i) == states[j].next_id);
    }
}

/// A created id is fresh: no record live before the create carried it.
pub proof fn lemma_user_create_id_fresh(pre: UserStoreView, post: UserStoreView, u: UserView)
    requires
        user_store_wf(pre),
        user_create_ok(pre, post, u),
    ensures
        !user_has_id(pre.users, u.id),
        user_has_id(post.users, u.id),
{
    assert forall|i: int| 0 <= i < pre.users.len() implies (#[trigger] pre.users[i]).id != u.id by {
        assert(pre.users[i].id < pre.next_id);
    }
    assert(post.users[pre.users.len() as int] == u);
}

/// After a successful create the new record's username is live, so a
/// second create with the same username must fail; creation also keeps
/// every username that was already live.
pub proof fn lemma_user_create_name_present(pre: UserStoreView, post: UserStoreView, u: UserView)
    requires
        user_create_ok(pre, post, u),
    ensures
        user_has_name(post.users, u.username),
        forall|t: Seq<char>| #[trigger] user_has_name(pre.users, t) ==> user_has_name(post.users, t),
{
    assert(post.users[pre.users.len() as int] == u);
    assert forall|t: Seq<char>| #[trigger] user_has_name(pre.users, t)
        implies user_has_name(post.users, t) by {
        let w = choose|i: int| 0 <= i < pre.users.len() && (#[trigger] pre.users[i]).username == t;
        assert(post.users[w] == pre.users[w]);
    }
}

/// A partial update never touches the id or the creation time, and a
/// field left out of the request keeps its prior value, byte for byte.
pub proof fn lemma_user_update_keeps_unset_fields(u: UserView, request: UpdateUserRequest)
    ensures
        user_after_update(u, request).id == u.id,
        user_after_update(u, request).created_at == u.created_at,
        request.username is None ==> user_after_update(u, request).username == u.username,
        request.email is None ==> user_after_update(u, request).email == u.email,
{
}

/// Deleting removes exactly one record, and the deleted id is no
/// longer live: deleting it a second time must report false and leave
/// the store as it is.
pub proof fn lemma_user_delete_id_absent(pre: UserStoreView, post: UserStoreView, id: u32)
    requires
        user_store_wf(pre),
        user_has_id(pre.users, id),
        post.users == pre.users.remove(user_index_of(pre.users, id)),
    ensures
        post.users.len() == pre.users.len() - 1,
        !user_has_id(post.users, id),
{
    let k = user_index_of(pre.users, id);
    assert(0 <= k < pre.users.len() && pre.users[k].id == id);
    assert forall|i: int| 0 <= i < post.users.len() implies (#[trigger] post.users[i]).id != id by {
        let i0: int = if i < k {
            i
        } else {
            i + 1
        };
        assert(post.users[i] == pre.users[i0]);
        assert(pre.users[i0].id != pre.users[k].id);
    }
}

impl Default for UserService {
    /// An empty store, as `new` builds it.
    fn default() -> (s: Self)
        ensures
            s.wf(),
            s@.users == Seq::<UserView>::empty(),
            s@.next_id == 1u32,
    {
        UserService::new()
    }
}

} // verus!
