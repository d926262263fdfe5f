//! Properties of the directory, the log and the snapshot, proved over the
//! specifications that the operations meet.

use vstd::prelude::*;

use crate::message::{visible_to, AppError, MessageView};
use crate::outside::bcrypt_hash;
use crate::state::{
    appended, has_credential, has_user, insert_index, keys_ascending, names_unique, register_spec,
    restored, select, select_in, LogView, UsersView,
};

verus! {

/// A name is registered at most once: after one registration of `name` has
/// succeeded, any later registration of `name`, whatever its password, is
/// refused with `Conflict` and leaves the directory, and so the stored hash,
/// unchanged. A registration never alters an entry already present, and the
/// names stay distinct.
pub proof fn register_at_most_once(
    u: UsersView,
    name: Seq<char>,
    password: Seq<char>,
    cost: u32,
    salt: Seq<u8>,
    later_password: Seq<char>,
    later_cost: u32,
    later_salt: Seq<u8>,
)
    requires
        names_unique(u),
    ensures
        ({
            let (r, u1) = register_spec(u, name, password, cost, salt);
            &&& names_unique(u1)
            &&& u1.len() >= u.len()
            &&& forall|i: int| 0 <= i < u.len() ==> u1[i] == u[i]
            &&& r is Ok ==> !has_user(u, name) && has_credential(
                u1,
                name,
                bcrypt_hash(password, cost, salt),
            ) && register_spec(u1, name, later_password, later_cost, later_salt) == (
                Err::<(), AppError>(AppError::Conflict),
                u1,
            )
        }),
        has_user(u, name) ==> register_spec(u, name, password, cost, salt) == (
            Err::<(), AppError>(AppError::Conflict),
            u,
        ),
{
    let (r, u1) = register_spec(u, name, password, cost, salt);
    if r is Ok {
        let k = u.len() as int;
        assert(u1[k].0 == name);
        assert(has_credential(u1, name, bcrypt_hash(password, cost, salt)));
        assert(has_user(u1, name));
    }
}

/// A message posted at second `ts` is recorded under `ts`, as the last
/// message of that second, and the timestamps of the log stay strictly
/// ascending.
pub proof fn append_records_at_reading(l: LogView, ts: u64, m: MessageView)
    requires
        keys_ascending(l),
    ensures
        keys_ascending(appended(l, ts, m)),
        exists|k: int|
            0 <= k < appended(l, ts, m).len() && appended(l, ts, m)[k].0 == ts && appended(
                l,
                ts,
                m,
            )[k].1.len() > 0 && appended(l, ts, m)[k].1.last() == m,
{
    lemma_insert_index_exists(l, ts);
    let k = choose|k: int| insert_index(l, ts, k);
    let l2 = appended(l, ts, m);
    assert(l2[k].0 == ts && l2[k].1.len() > 0 && l2[k].1.last() == m);
}

/// Two messages posted one after the other, at clock readings `t1 <= t2`,
/// are recorded at timestamps in the same order: the entry of the second
/// message does not come before the entry of the first.
pub proof fn appends_keep_time_order(l: LogView, t1: u64, m1: MessageView, t2: u64, m2: MessageView)
    requires
        keys_ascending(l),
        t1 <= t2,
    ensures
        ({
            let l2 = appended(appended(l, t1, m1), t2, m2);
            exists|k1: int, k2: int|
                0 <= k1 <= k2 < l2.len() && l2[k1].0 == t1 && l2[k2].0 == t2 && l2[k1].1.contains(m1)
                    && l2[k2].1.last() == m2
        }),
{
    let l1 = appended(l, t1, m1);
    append_records_at_reading(l, t1, m1);
    append_records_at_reading(l1, t2, m2);
    let l2 = appended(l1, t2, m2);
    let a = choose|k: int|
        0 <= k < l1.len() && l1[k].0 == t1 && l1[k].1.len() > 0 && l1[k].1.last() == m1;
    lemma_insert_index_exists(l1, t2);
    let k = choose|k: int| insert_index(l1, t2, k);
    let n = l1[a].1.len() - 1;
    if k < l1.len() && l1[k].0 == t2 {
        assert(l2 == l1.update(k, (t2, l1[k].1.push(m2))));
        if a == k {
            assert(l2[a].1[n] == m1);
        } else {
            assert(l2[a] == l1[a]);
            assert(l2[a].1[n] == m1);
        }
        assert(l2[a].1.contains(m1));
        assert(a <= k) by {
            if a > k {
                assert(l1[k].0 < l1[a].0);
            }
        };
    } else {
        assert(l2 == l1.insert(k, (t2, seq![m2])));
        assert(a < k) by {
            if a >= k {
                if a == k {
                    assert(t2 <= l1[a].0);
                    assert(l1[a].0 != t2);
                }
            }
        };
        assert(l2[a] == l1[a]);
        assert(l2[a].1[n] == m1);
        assert(l2[a].1.contains(m1));
        assert(l2[k].1.last() == m2);
    }
}

proof fn lemma_insert_index_exists(l: LogView, ts: u64)
    ensures
        exists|k: int| insert_index(l, ts, k),
    decreases l.len(),
{
    if l.len() == 0 {
        assert(insert_index(l, ts, 0));
    } else {
        lemma_insert_index_exists(l.drop_last(), ts);
        let k = choose|k: int| insert_index(l.drop_last(), ts, k);
        assert forall|j: int| 0 <= j < k implies l[j].0 < ts by {
            assert(l[j] == l.drop_last()[j]);
        };
        if k < l.len() - 1 {
            assert(l[k] == l.drop_last()[k]);
        }
        if k < l.len() - 1 {
            assert(insert_index(l, ts, k));
        } else if l.last().0 < ts {
            assert(insert_index(l, ts, l.len() as int));
        } else {
            assert(insert_index(l, ts, k));
        }
    }
}

proof fn lemma_select_in_bounds(
    ts: u64,
    ms: Seq<MessageView>,
    since: u64,
    now: u64,
    user: Option<Seq<char>>,
)
    ensures
        forall|i: int|
            0 <= i < select_in(ts, ms, since, now, user).len() ==> {
                let e = #[trigger] select_in(ts, ms, since, now, user)[i];
                since < e.0 < now && visible_to(e.1, user) && e.0 == ts
            },
    decreases ms.len(),
{
    if ms.len() > 0 {
        lemma_select_in_bounds(ts, ms.drop_last(), since, now, user);
        let rest = select_in(ts, ms.drop_last(), since, now, user);
        let all = select_in(ts, ms, since, now, user);
        assert forall|i: int| 0 <= i < all.len() implies {
            let e = #[trigger] all[i];
            since < e.0 < now && visible_to(e.1, user) && e.0 == ts
        } by {
            if i < rest.len() {
                assert(all[i] == rest[i]);
            }
        };
    }
}

/// Every entry a query returns was posted strictly after `since` and
/// strictly before `now`, and is a broadcast or lists `user` among its
/// recipients.
pub proof fn query_in_range(l: LogView, since: u64, now: u64, user: Option<Seq<char>>)
    ensures
        forall|i: int|
            0 <= i < select(l, since, now, user).len() ==> {
                let e = #[trigger] select(l, since, now, user)[i];
                since < e.0 < now && visible_to(e.1, user)
            },
    decreases l.len(),
{
    if l.len() > 0 {
        query_in_range(l.drop_last(), since, now, user);
        lemma_select_in_bounds(l.last().0, l.last().1, since, now, user);
        let a = select(l.drop_last(), since, now, user);
        let b = select_in(l.last().0, l.last().1, since, now, user);
        assert forall|i: int| 0 <= i < select(l, since, now, user).len() implies {
            let e = #[trigger] select(l, since, now, user)[i];
            since < e.0 < now && visible_to(e.1, user)
        } by {
            if i < a.len() {
                assert(select(l, since, now, user)[i] == a[i]);
            } else {
                assert(select(l, since, now, user)[i] == b[i - a.len()]);
            }
        };
    }
}

/// Restoring a saved well-formed state gives back the same directory and
/// the same log.
pub proof fn snapshot_round_trip(u: UsersView, l: LogView)
    requires
        names_unique(u),
        keys_ascending(l),
    ensures
        restored(u, l) == (u, l),
{
}

} // verus!
