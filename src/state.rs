use vstd::prelude::*;

use crate::message::{opt_view, str_eq, visible_to, AppError, Message, MessageView};
use crate::outside::{bcrypt_hash, hash_with_salt, unix_seconds};

verus! {

/// The user directory and the message log, as one value.
///
/// `users` holds `(name, password hash)` pairs with distinct names.
/// `messages` holds, in strictly ascending order of timestamp, the messages
/// posted at each second, in the order in which they were posted.
#[derive(Debug)]
pub struct State {
    pub users: Vec<(String, String)>,
    pub messages: Vec<(u64, Vec<Message>)>,
}

/// The directory as a sequence of `(name, hash)` pairs.
pub type UsersView = Seq<(Seq<char>, Seq<char>)>;

/// The log as a sequence of `(timestamp, messages)` pairs.
pub type LogView = Seq<(u64, Seq<MessageView>)>;

pub open spec fn names_unique(u: UsersView) -> bool {
    forall|i: int, j: int| 0 <= i < u.len() && 0 <= j < u.len() && i != j ==> u[i].0 != u[j].0
}

pub open spec fn has_user(u: UsersView, name: Seq<char>) -> bool {
    exists|i: int| 0 <= i < u.len() && u[i].0 == name
}

/// `name` is registered with exactly the hash `hash`.
pub open spec fn has_credential(u: UsersView, name: Seq<char>, hash: Seq<char>) -> bool {
    exists|i: int| 0 <= i < u.len() && u[i].0 == name && u[i].1 == hash
}

pub open spec fn keys_ascending(l: LogView) -> bool {
    forall|i: int, j: int| 0 <= i < j < l.len() ==> l[i].0 < l[j].0
}

/// What `register` does to a directory: the outcome and the new directory.
pub open spec fn register_spec(
    u: UsersView,
    name: Seq<char>,
    password: Seq<char>,
    cost: u32,
    salt: Seq<u8>,
) -> (Result<(), AppError>, UsersView) {
    if has_user(u, name) {
        (Err(AppError::Conflict), u)
    } else if !(4 <= cost <= 31) {
        (Err(AppError::HashFailure), u)
    } else {
        (Ok(()), u.push((name, bcrypt_hash(password, cost, salt))))
    }
}

/// `k` is the place of timestamp `ts` in the log: every key before it is smaller.
pub open spec fn insert_index(l: LogView, ts: u64, k: int) -> bool {
    &&& 0 <= k <= l.len()
    &&& forall|j: int| 0 <= j < k ==> l[j].0 < ts
    &&& k < l.len() ==> ts <= l[k].0
}

/// The log after `m` is posted at second `ts`: appended to the messages of
/// that second if there are any, else in a new entry at its place in order.
pub open spec fn appended(l: LogView, ts: u64, m: MessageView) -> LogView {
    let k = choose|k: int| insert_index(l, ts, k);
    if k < l.len() && l[k].0 == ts {
        l.update(k, (ts, l[k].1.push(m)))
    } else {
        l.insert(k, (ts, seq![m]))
    }
}

/// The messages of one second that a query returns, in order.
pub open spec fn select_in(
    ts: u64,
    ms: Seq<MessageView>,
    since: u64,
    now: u64,
    user: Option<Seq<char>>,
) -> Seq<(u64, MessageView)>
    decreases ms.len(),
{
    if ms.len() == 0 {
        Seq::empty()
    } else {
        let rest = select_in(ts, ms.drop_last(), since, now, user);
        if since < ts && ts < now && visible_to(ms.last(), user) {
            rest.push((ts, ms.last()))
        } else {
            rest
        }
    }
}

/// What a query returns on a log: the messages posted strictly between
/// `since` and `now` that are visible to `user`, in log order.
pub open spec fn select(l: LogView, since: u64, now: u64, user: Option<Seq<char>>) -> Seq<
    (u64, MessageView),
>
    decreases l.len(),
{
    if l.len() == 0 {
        Seq::empty()
    } else {
        select(l.drop_last(), since, now, user) + select_in(
            l.last().0,
            l.last().1,
            since,
            now,
            user,
        )
    }
}

pub open spec fn entries_view(v: Seq<(u64, Message)>) -> Seq<(u64, MessageView)> {
    v.map_values(|e: (u64, Message)| (e.0, e.1@))
}

/// Every name of `names` is registered.
pub open spec fn all_registered(u: UsersView, names: Seq<Seq<char>>) -> bool {
    forall|i: int| 0 <= i < names.len() ==> has_user(u, names[i])
}

pub open spec fn users_of(v: Seq<(String, String)>) -> UsersView {
    v.map_values(|e: (String, String)| (e.0@, e.1@))
}

pub open spec fn log_of(v: Seq<(u64, Vec<Message>)>) -> LogView {
    v.map_values(|e: (u64, Vec<Message>)| (e.0, e.1@.map_values(|m: Message| m@)))
}

/// What a state restored from a snapshot holds: each part as it was saved
/// if it is well formed, and empty if it is not, independently of the other.
pub open spec fn restored(u: UsersView, l: LogView) -> (UsersView, LogView) {
    (
        if names_unique(u) {
            u
        } else {
            Seq::empty()
        },
        if keys_ascending(l) {
            l
        } else {
            Seq::empty()
        },
    )
}

/// Whether the names of a directory are pairwise distinct.
pub fn names_distinct(users: &Vec<(String, String)>) -> (r: bool)
    ensures
        r == names_unique(users_of(users@)),
{
    let ghost u = users_of(users@);
    let mut i: usize = 0;
    while i < users.len()
        invariant
            i <= users.len(),
            u == users_of(users@),
            forall|a: int, b: int| 0 <= a < i && 0 <= b < i && a != b ==> u[a].0 != u[b].0,
        decreases users.len() - i,
    {
        let mut j: usize = 0;
        while j < i
            invariant
                i < users.len(),
                j <= i,
                u == users_of(users@),
                forall|b: int| 0 <= b < j ==> u[b].0 != u[i as int].0,
            decreases i - j,
        {
            if str_eq(users[j].0.as_str(), users[i].0.as_str()) {
                assert(u[j as int].0 == u[i as int].0);
                return false;
            }
            j = j + 1;
        }
        i = i + 1;
    }
    true
}

/// Whether the timestamps of a log are strictly ascending.
pub fn keys_strictly_ascending(messages: &Vec<(u64, Vec<Message>)>) -> (r: bool)
    ensures
        r == keys_ascending(log_of(messages@)),
{
    let ghost l = log_of(messages@);
    if messages.len() == 0 {
        return true;
    }
    let mut i: usize = 1;
    while i < messages.len()
        invariant
            1 <= i <= messages.len(),
            l == log_of(messages@),
            forall|a: int, b: int| 0 <= a < b < i ==> l[a].0 < l[b].0,
        decreases messages.len() - i,
    {
        if messages[i - 1].0 >= messages[i].0 {
            assert(!(l[i - 1].0 < l[i as int].0));
            return false;
        }
        i = i + 1;
    }
    true
}

impl State {
    pub open spec fn users_view(&self) -> UsersView {
        users_of(self.users@)
    }

    pub open spec fn log_view(&self) -> LogView {
        log_of(self.messages@)
    }

    /// The state held by a snapshot: the directory as it was saved if its
    /// names are distinct, else empty; the log as it was saved if its
    /// timestamps ascend strictly, else empty.
    pub fn from_snapshot(users: Vec<(String, String)>, messages: Vec<(u64, Vec<Message>)>) -> (r:
        State)
        ensures
            r.wf(),
            (r.users_view(), r.log_view()) == restored(users_of(users@), log_of(messages@)),
    {
        let ghost saved = restored(users_of(users@), log_of(messages@));
        let kept_users = if names_distinct(&users) {
            users
        } else {
            Vec::new()
        };
        let kept_messages = if keys_strictly_ascending(&messages) {
            messages
        } else {
            Vec::new()
        };
        let r = State { users: kept_users, messages: kept_messages };
        assert(r.users_view() =~= saved.0);
        assert(r.log_view() =~= saved.1);
        r
    }

    pub open spec fn wf(&self) -> bool {
        names_unique(self.users_view()) && keys_ascending(self.log_view())
    }

    /// An empty directory and an empty log.
    pub fn new() -> (r: State)
        ensures
            r.wf(),
            r.users_view() == Seq::<(Seq<char>, Seq<char>)>::empty(),
            r.log_view() == Seq::<(u64, Seq<MessageView>)>::empty(),
    {
        let r = State { users: Vec::new(), messages: Vec::new() };
        assert(r.users_view() =~= Seq::<(Seq<char>, Seq<char>)>::empty());
        assert(r.log_view() =~= Seq::<(u64, Seq<MessageView>)>::empty());
        r
    }

    /// Whether `name` is registered.
    pub fn contains_user(&self, name: &str) -> (r: bool)
        ensures
            r == has_user(self.users_view(), name@),
    {
        let mut i: usize = 0;
        while i < self.users.len()
            invariant
                i <= self.users.len(),
                forall|j: int| 0 <= j < i ==> self.users_view()[j].0 != name@,
            decreases self.users.len() - i,
        {
            if str_eq(self.users[i].0.as_str(), name) {
                assert(self.users_view()[i as int].0 == name@);
                return true;
            }
            i = i + 1;
        }
        false
    }

    /// Whether `name` is registered with the password hash `hash`.
    pub fn credential_matches(&self, name: &str, hash: &str) -> (r: bool)
        ensures
            r == has_credential(self.users_view(), name@, hash@),
    {
        let mut i: usize = 0;
        while i < self.users.len()
            invariant
                i <= self.users.len(),
                forall|j: int|
                    0 <= j < i ==> !(self.users_view()[j].0 == name@ && self.users_view()[j].1
                        == hash@),
            decreases self.users.len() - i,
        {
            if str_eq(self.users[i].0.as_str(), name) && str_eq(self.users[i].1.as_str(), hash) {
                assert(self.users_view()[i as int].0 == name@);
                return true;
            }
            i = i + 1;
        }
        false
    }

    /// Registers `username` with the bcrypt hash of `password` under `cost`
    /// and `salt`. A name that is already registered is refused with
    /// `Conflict` and its stored hash is left as it was.
    pub fn register(&mut self, username: String, password: &str, cost: u32, salt: [u8; 16]) -> (r:
        Result<(), AppError>)
        requires
            old(self).wf(),
        ensures
            final(self).wf(),
            (r, final(self).users_view()) == register_spec(
                old(self).users_view(),
                username@,
                password@,
                cost,
                salt@,
            ),
            final(self).messages == old(self).messages,
    {
        if self.contains_user(username.as_str()) {
            return Err(AppError::Conflict);
        }
        let hash = match hash_with_salt(password, cost, salt) {
            Ok(h) => h,
            Err(_) => {
                return Err(AppError::HashFailure);
            },
        };
        let ghost old_users = self.users_view();
        self.users.push((username, hash));
        assert(self.users_view() =~= old_users.push((username@, bcrypt_hash(password@, cost, salt@))));
        Ok(())
    }
    /// Posts `message` at second `timestamp`. Fails with
    /// `NonExistentMessageAuthor`, leaving the log as it was, when the author
    /// is not registered.
    pub fn add_message_at(&mut self, message: Message, timestamp: u64) -> (r: Result<(), AppError>)
        requires
            old(self).wf(),
        ensures
            final(self).wf(),
            final(self).users == old(self).users,
            r is Ok <==> has_user(old(self).users_view(), message.author@),
            r is Ok ==> final(self).log_view() == appended(
                old(self).log_view(),
                timestamp,
                message@,
            ),
            r is Err ==> r == Err::<(), AppError>(AppError::NonExistentMessageAuthor)
                && final(self).messages == old(self).messages,
    {
        if !self.contains_user(message.author.as_str()) {
            return Err(AppError::NonExistentMessageAuthor);
        }
        let ghost l = self.log_view();
        let ghost m = message@;
        let mut i: usize = 0;
        while i < self.messages.len() && self.messages[i].0 < timestamp
            invariant
                i <= self.messages.len(),
                l == self.log_view(),
                forall|j: int| 0 <= j < i ==> l[j].0 < timestamp,
            decreases self.messages.len() - i,
        {
            i = i + 1;
        }
        assert(insert_index(l, timestamp, i as int));
        let ghost k = choose|k: int| insert_index(l, timestamp, k);
        assert(k == i as int) by {
            if k < i {
                assert(l[k].0 < timestamp);
            } else if k > i {
                assert(l[i as int].0 < timestamp);
            }
        };
        if i < self.messages.len() && self.messages[i].0 == timestamp {
            let mut entry = self.messages.remove(i);
            let ghost before = entry.1@;
            entry.1.push(message);
            assert(entry.1@.map_values(|x: Message| x@) =~= before.map_values(|x: Message| x@).push(m));
            self.messages.insert(i, entry);
            assert(self.log_view() =~= l.update(i as int, (timestamp, l[i as int].1.push(m))));
        } else {
            let mut v: Vec<Message> = Vec::new();
            v.push(message);
            assert(v@.map_values(|x: Message| x@) =~= seq![m]);
            self.messages.insert(i, (timestamp, v));
            assert(self.log_view() =~= l.insert(i as int, (timestamp, seq![m])));
        }
        Ok(())
    }

    /// The messages posted strictly after `since` and strictly before `now`,
    /// each with its timestamp, in ascending order of time and, within a
    /// second, in the order of posting. With a `user`, only the broadcasts
    /// and the messages that list `user` among their recipients.
    pub fn query_after(&self, since: u64, now: u64, user: Option<&str>) -> (r: Vec<(u64, Message)>)
        ensures
            entries_view(r@) == select(self.log_view(), since, now, opt_view(user)),
    {
        let ghost l = self.log_view();
        let ghost u = opt_view(user);
        let mut r: Vec<(u64, Message)> = Vec::new();
        let mut i: usize = 0;
        while i < self.messages.len()
            invariant
                i <= self.messages.len(),
                l == self.log_view(),
                u == opt_view(user),
                entries_view(r@) == select(l.take(i as int), since, now, u),
            decreases self.messages.len() - i,
        {
            let ts = self.messages[i].0;
            let ms = &self.messages[i].1;
            let ghost msv = l[i as int].1;
            assert(l.take(i as int + 1).drop_last() =~= l.take(i as int));
            let mut j: usize = 0;
            while j < ms.len()
                invariant
                    i < self.messages.len(),
                    j <= ms.len(),
                    l == self.log_view(),
                    u == opt_view(user),
                    ms == &self.messages@[i as int].1,
                    ts == self.messages@[i as int].0,
                    msv == ms@.map_values(|x: Message| x@),
                    entries_view(r@) == select(l.take(i as int), since, now, u) + select_in(
                        ts,
                        msv.take(j as int),
                        since,
                        now,
                        u,
                    ),
                decreases ms.len() - j,
            {
                assert(msv.take(j as int + 1).drop_last() =~= msv.take(j as int));
                let ghost old_r = r@;
                if since < ts && ts < now && ms[j].is_visible_to(user) {
                    r.push((ts, ms[j].duplicate()));
                    assert(entries_view(r@) =~= entries_view(old_r).push((ts, msv[j as int])));
                }
                j = j + 1;
            }
            assert(msv.take(ms.len() as int) =~= msv);
            i = i + 1;
        }
        assert(l.take(self.messages.len() as int) =~= l);
        r
    }
    /// Whether every name in `names` is registered.
    pub fn all_registered(&self, names: &Vec<String>) -> (r: bool)
        ensures
            r == all_registered(self.users_view(), names@.map_values(|n: String| n@)),
    {
        let ghost nv = names@.map_values(|n: String| n@);
        let mut i: usize = 0;
        while i < names.len()
            invariant
                i <= names.len(),
                nv == names@.map_values(|n: String| n@),
                forall|j: int| 0 <= j < i ==> has_user(self.users_view(), nv[j]),
            decreases names.len() - i,
        {
            if !self.contains_user(names[i].as_str()) {
                assert(!has_user(self.users_view(), nv[i as int]));
                return false;
            }
            i = i + 1;
        }
        true
    }

    /// Posts `message` at the present second of the system clock. Fails
    /// with `ClockFailure` when the clock cannot be read, and otherwise as
    /// [`State::add_message_at`] does; on failure the log is left as it was.
    pub fn add_message_at_present(&mut self, message: Message) -> (r: Result<(), AppError>)
        requires
            old(self).wf(),
        ensures
            final(self).wf(),
            final(self).users == old(self).users,
            !has_user(old(self).users_view(), message.author@) ==> r is Err,
            has_user(old(self).users_view(), message.author@) ==> r is Ok || r == Err::<
                (),
                AppError,
            >(AppError::ClockFailure),
            r matches Err(e) ==> e == AppError::ClockFailure || e
                == AppError::NonExistentMessageAuthor,
            r is Err ==> final(self).messages == old(self).messages,
            r is Ok ==> exists|ts: u64|
                final(self).log_view() == appended(old(self).log_view(), ts, message@),
    {
        let timestamp = match unix_seconds() {
            Ok(t) => t,
            Err(_) => {
                return Err(AppError::ClockFailure);
            },
        };
        self.add_message_at(message, timestamp)
    }

    /// Posts `message` for its author, who proves their identity with
    /// `password` (hashed under `cost` and `salt`). Every recipient must be
    /// registered; otherwise nothing is posted.
    pub fn send(&mut self, message: Message, password: &str, cost: u32, salt: [u8; 16]) -> (r:
        Result<(), AppError>)
        requires
            old(self).wf(),
        ensures
            final(self).wf(),
            final(self).users == old(self).users,
            !(4 <= cost <= 31) ==> r == Err::<(), AppError>(AppError::HashFailure),
            4 <= cost <= 31 && !has_credential(
                old(self).users_view(),
                message.author@,
                bcrypt_hash(password@, cost, salt@),
            ) ==> r == Err::<(), AppError>(AppError::Unauthorized),
            4 <= cost <= 31 && has_credential(
                old(self).users_view(),
                message.author@,
                bcrypt_hash(password@, cost, salt@),
            ) && !all_registered(old(self).users_view(), message@.recipients) ==> r == Err::<
                (),
                AppError,
            >(AppError::NonExistentRecipient),
            4 <= cost <= 31 && has_credential(
                old(self).users_view(),
                message.author@,
                bcrypt_hash(password@, cost, salt@),
            ) && all_registered(old(self).users_view(), message@.recipients) ==> r is Ok || r
                == Err::<(), AppError>(AppError::ClockFailure),
            r is Err ==> final(self).messages == old(self).messages,
            r is Ok ==> exists|ts: u64|
                final(self).log_view() == appended(old(self).log_view(), ts, message@),
    {
        let ok = auth(self, message.author.as_str(), password, cost, salt)?;
        if !ok {
            return Err(AppError::Unauthorized);
        }
        if !self.all_registered(&message.recipients) {
            return Err(AppError::NonExistentRecipient);
        }
        proof {
            let u = self.users_view();
            let h = bcrypt_hash(password@, cost, salt@);
            let i = choose|i: int| 0 <= i < u.len() && u[i].0 == message.author@ && u[i].1 == h;
            assert(has_user(u, message.author@));
        }
        self.add_message_at_present(message)
    }

    /// The messages that `username` may read, posted strictly after `since`
    /// and strictly before the present second. The user proves their
    /// identity with `password` (hashed under `cost` and `salt`).
    pub fn receive(&self, username: &str, password: &str, since: u64, cost: u32, salt: [u8; 16]) -> (r:
        Result<Vec<(u64, Message)>, AppError>)
        ensures
            !(4 <= cost <= 31) ==> r == Err::<Vec<(u64, Message)>, AppError>(AppError::HashFailure),
            4 <= cost <= 31 && !has_credential(
                self.users_view(),
                username@,
                bcrypt_hash(password@, cost, salt@),
            ) ==> r == Err::<Vec<(u64, Message)>, AppError>(AppError::Unauthorized),
            4 <= cost <= 31 && has_credential(
                self.users_view(),
                username@,
                bcrypt_hash(password@, cost, salt@),
            ) ==> r is Ok || r == Err::<Vec<(u64, Message)>, AppError>(AppError::ClockFailure),
            r matches Ok(v) ==> exists|now: u64|
                entries_view(v@) == select(self.log_view(), since, now, Some(username@)),
    {
        let ok = auth(self, username, password, cost, salt)?;
        if !ok {
            return Err(AppError::Unauthorized);
        }
        let now = match unix_seconds() {
            Ok(t) => t,
            Err(_) => {
                return Err(AppError::ClockFailure);
            },
        };
        let v = self.query_after(since, now, Some(username));
        assert(opt_view(Some(username)) == Some(username@));
        Ok(v)
    }
}

/// Whether `username` is registered and `password`, hashed under `cost` and
/// `salt`, gives the stored hash. Fails when the hash cannot be computed.
pub fn auth(state: &State, username: &str, password: &str, cost: u32, salt: [u8; 16]) -> (r: Result<
    bool,
    AppError,
>)
    ensures
        r is Ok <==> 4 <= cost <= 31,
        r matches Ok(b) ==> b == has_credential(
            state.users_view(),
            username@,
            bcrypt_hash(password@, cost, salt@),
        ),
        r matches Err(e) ==> e == AppError::HashFailure,
{
    match hash_with_salt(password, cost, salt) {
        Ok(hash) => Ok(state.credential_matches(username, hash.as_str())),
        Err(_) => Err(AppError::HashFailure),
    }
}

} // verus!
