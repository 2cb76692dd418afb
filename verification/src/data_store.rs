//! The storage port: users and saved items, the abstract contract every
//! backend must honor, and a verified in-memory backend.
//!
//! The port is modeled by [`StoreModel`]: the sequence of users, the sequence
//! of saved items in insertion order, and the next fresh identifier of each.
//! Every operation's contract says how it transforms this model.

use vstd::prelude::*;

use crate::error::Error;
use crate::pocket::PocketItemId;
use crate::order::{sort_pairs, sort_spec};

verus! {

// ---------------------------------------------------------------------------
// Models
// ---------------------------------------------------------------------------
/// The model of one user row.
#[verifier::ext_equal]
pub ghost struct UserModel {
    pub id: int,
    pub email: Seq<char>,
    pub pocket_access_token: Option<Seq<char>>,
    pub last_pocket_sync_time: Option<i64>,
}

/// The model of one saved item row.
#[verifier::ext_equal]
pub ghost struct ItemModel {
    pub id: int,
    pub user_id: int,
    pub pocket_id: Seq<char>,
    pub title: Seq<char>,
    pub excerpt: Option<Seq<char>>,
    pub url: Option<Seq<char>>,
    pub time_added: Option<i64>,
}

/// The model of the whole store.
#[verifier::ext_equal]
pub ghost struct StoreModel {
    pub users: Seq<UserModel>,
    pub items: Seq<ItemModel>,
    pub next_user_id: int,
    pub next_item_id: int,
}

/// The view of an optional string.
pub open spec fn opt_view(o: Option<String>) -> Option<Seq<char>> {
    match o {
        Some(s) => Some(s@),
        None => None,
    }
}

// ---------------------------------------------------------------------------
// Model operations
// ---------------------------------------------------------------------------
/// Index of the first user with this id, or -1.
pub open spec fn find_user_idx(users: Seq<UserModel>, id: int) -> int
    decreases users.len(),
{
    if users.len() == 0 {
        -1
    } else if users[0].id == id {
        0
    } else {
        let r = find_user_idx(users.drop_first(), id);
        if r == -1 {
            -1
        } else {
            r + 1
        }
    }
}

/// Whether an item row belongs to this user and remote id.
pub open spec fn item_matches(it: ItemModel, user_id: int, pocket_id: Seq<char>) -> bool {
    it.user_id == user_id && it.pocket_id == pocket_id
}

/// Index of the first item with this `(user, remote id)` pair, or -1.
pub open spec fn find_item_idx(items: Seq<ItemModel>, user_id: int, pocket_id: Seq<char>) -> int
    decreases items.len(),
{
    if items.len() == 0 {
        -1
    } else if item_matches(items[0], user_id, pocket_id) {
        0
    } else {
        let r = find_item_idx(items.drop_first(), user_id, pocket_id);
        if r == -1 {
            -1
        } else {
            r + 1
        }
    }
}

/// Index of the first item with this local id, or -1.
pub open spec fn find_item_by_id_idx(items: Seq<ItemModel>, id: int) -> int
    decreases items.len(),
{
    if items.len() == 0 {
        -1
    } else if items[0].id == id {
        0
    } else {
        let r = find_item_by_id_idx(items.drop_first(), id);
        if r == -1 {
            -1
        } else {
            r + 1
        }
    }
}

/// The fields of one upsert request.
#[verifier::ext_equal]
pub ghost struct UpsertModel {
    pub user_id: int,
    pub pocket_id: Seq<char>,
    pub title: Seq<char>,
    pub excerpt: Seq<char>,
    pub url: Seq<char>,
    pub time_added: i64,
}

/// The item row an upsert writes, given the local id it keeps or receives.
pub open spec fn upsert_row(u: UpsertModel, id: int) -> ItemModel {
    ItemModel {
        id: id,
        user_id: u.user_id,
        pocket_id: u.pocket_id,
        title: u.title,
        excerpt: Some(u.excerpt),
        url: Some(u.url),
        time_added: Some(u.time_added),
    }
}

/// Upsert: update the existing `(user, remote id)` row in place, else append
/// a new row under the next fresh local id.
pub open spec fn apply_upsert(m: StoreModel, u: UpsertModel) -> StoreModel {
    let idx = find_item_idx(m.items, u.user_id, u.pocket_id);
    if idx >= 0 {
        StoreModel {
            users: m.users,
            items: m.items.update(idx, upsert_row(u, m.items[idx].id)),
            next_user_id: m.next_user_id,
            next_item_id: m.next_item_id,
        }
    } else {
        StoreModel {
            users: m.users,
            items: m.items.push(upsert_row(u, m.next_item_id)),
            next_user_id: m.next_user_id,
            next_item_id: m.next_item_id + 1,
        }
    }
}

/// The items left after deleting every row of this `(user, remote id)` pair;
/// deleting an absent pair leaves the sequence unchanged.
pub open spec fn delete_matching(
    items: Seq<ItemModel>,
    user_id: int,
    pocket_id: Seq<char>,
) -> Seq<ItemModel>
    decreases items.len(),
{
    if items.len() == 0 {
        Seq::empty()
    } else {
        let r = delete_matching(items.drop_last(), user_id, pocket_id);
        if item_matches(items.last(), user_id, pocket_id) {
            r
        } else {
            r.push(items.last())
        }
    }
}

/// Delete as a whole-store operation.
pub open spec fn apply_delete(m: StoreModel, user_id: int, pocket_id: Seq<char>) -> StoreModel {
    StoreModel {
        users: m.users,
        items: delete_matching(m.items, user_id, pocket_id),
        next_user_id: m.next_user_id,
        next_item_id: m.next_item_id,
    }
}

/// Every user row with this id, with its watermark replaced.
pub open spec fn set_watermark(users: Seq<UserModel>, id: int, v: Option<i64>) -> Seq<UserModel> {
    Seq::new(
        users.len(),
        |i: int|
            if users[i].id == id {
                UserModel {
                    id: users[i].id,
                    email: users[i].email,
                    pocket_access_token: users[i].pocket_access_token,
                    last_pocket_sync_time: v,
                }
            } else {
                users[i]
            },
    )
}

/// Watermark update as a whole-store operation.
pub open spec fn apply_set_watermark(m: StoreModel, id: int, v: Option<i64>) -> StoreModel {
    StoreModel {
        users: set_watermark(m.users, id, v),
        items: m.items,
        next_user_id: m.next_user_id,
        next_item_id: m.next_item_id,
    }
}

/// Every user row with this id, with email and token replaced where given.
pub open spec fn set_user_fields(
    users: Seq<UserModel>,
    id: int,
    email: Option<Seq<char>>,
    token: Option<Seq<char>>,
) -> Seq<UserModel> {
    Seq::new(
        users.len(),
        |i: int|
            if users[i].id == id {
                UserModel {
                    id: users[i].id,
                    email: match email {
                        Some(e) => e,
                        None => users[i].email,
                    },
                    pocket_access_token: match token {
                        Some(t) => Some(t),
                        None => users[i].pocket_access_token,
                    },
                    last_pocket_sync_time: users[i].last_pocket_sync_time,
                }
            } else {
                users[i]
            },
    )
}

/// The items of one user, in insertion order.
pub open spec fn user_items(items: Seq<ItemModel>, user_id: int) -> Seq<ItemModel>
    decreases items.len(),
{
    if items.len() == 0 {
        Seq::empty()
    } else {
        let r = user_items(items.drop_last(), user_id);
        if items.last().user_id == user_id {
            r.push(items.last())
        } else {
            r
        }
    }
}

/// The sort key of an item when listing by creation time: older first, and
/// rows without a time first of all. Keys are negated because the shared
/// ordering sorts descending.
pub open spec fn time_key(it: ItemModel) -> int {
    match it.time_added {
        None => 0x8000_0000_0000_0001,
        Some(t) => -(t as int),
    }
}

/// One user's items ordered by creation time (stable), as tagged sort keys.
pub open spec fn time_sorted_items(base: Seq<ItemModel>) -> Seq<ItemModel> {
    let keys = Seq::new(base.len(), |i: int| (time_key(base[i]) as i128, i as usize));
    let ranked = sort_spec(keys);
    Seq::new(ranked.len(), |i: int| base[ranked[i].1 as int])
}

/// The listing a saved item query yields: the user's items, ordered by
/// creation time when asked, cut to `count` rows when asked.
pub open spec fn spec_get_items(
    items: Seq<ItemModel>,
    user_id: int,
    sort_by: Option<SavedItemSort>,
    count: Option<i64>,
) -> Seq<ItemModel> {
    let base = user_items(items, user_id);
    let ordered = match sort_by {
        Some(SavedItemSort::TimeAdded) => time_sorted_items(base),
        None => base,
    };
    match count {
        Some(c) => if c < 0 {
            ordered
        } else if c < ordered.len() {
            ordered.take(c as int)
        } else {
            ordered
        },
        None => ordered,
    }
}

/// The items left after deleting every row of one user.
pub open spec fn delete_user_items(items: Seq<ItemModel>, user_id: int) -> Seq<ItemModel>
    decreases items.len(),
{
    if items.len() == 0 {
        Seq::empty()
    } else {
        let r = delete_user_items(items.drop_last(), user_id);
        if items.last().user_id == user_id {
            r
        } else {
            r.push(items.last())
        }
    }
}

/// The users left after deleting every row with this id.
pub open spec fn delete_user_rows(users: Seq<UserModel>, id: int) -> Seq<UserModel>
    decreases users.len(),
{
    if users.len() == 0 {
        Seq::empty()
    } else {
        let r = delete_user_rows(users.drop_last(), id);
        if users.last().id == id {
            r
        } else {
            r.push(users.last())
        }
    }
}

// ---------------------------------------------------------------------------
// Laws about the model operations
// ---------------------------------------------------------------------------
/// What `find_item_idx` finds is the first match.
pub proof fn lemma_find_item_props(items: Seq<ItemModel>, user_id: int, pocket_id: Seq<char>)
    ensures
        -1 <= find_item_idx(items, user_id, pocket_id) < items.len(),
        find_item_idx(items, user_id, pocket_id) == -1 ==> forall|j: int|
            0 <= j < items.len() ==> !item_matches(#[trigger] items[j], user_id, pocket_id),
        find_item_idx(items, user_id, pocket_id) >= 0 ==> {
            let f = find_item_idx(items, user_id, pocket_id);
            &&& f < items.len()
            &&& item_matches(items[f], user_id, pocket_id)
            &&& forall|j: int| 0 <= j < f ==> !item_matches(#[trigger] items[j], user_id, pocket_id)
        },
    decreases items.len(),
{
    if items.len() > 0 && !item_matches(items[0], user_id, pocket_id) {
        let d = items.drop_first();
        lemma_find_item_props(d, user_id, pocket_id);
        let r = find_item_idx(d, user_id, pocket_id);
        let f = find_item_idx(items, user_id, pocket_id);
        if r == -1 {
            assert forall|j: int| 0 <= j < items.len() implies !item_matches(
                #[trigger] items[j],
                user_id,
                pocket_id,
            ) by {
                if j > 0 {
                    assert(d[j - 1] == items[j]);
                }
            }
        } else {
            assert(f == r + 1);
            assert(items[f] == d[r]);
            assert forall|j: int| 0 <= j < f implies !item_matches(
                #[trigger] items[j],
                user_id,
                pocket_id,
            ) by {
                if j > 0 {
                    assert(d[j - 1] == items[j]);
                }
            }
        }
    }
}

/// The first match is what `find_item_idx` finds.
pub proof fn lemma_find_item_at(
    items: Seq<ItemModel>,
    user_id: int,
    pocket_id: Seq<char>,
    i: int,
)
    requires
        0 <= i <= items.len(),
        forall|j: int| 0 <= j < i ==> !item_matches(#[trigger] items[j], user_id, pocket_id),
        i < items.len() ==> item_matches(items[i], user_id, pocket_id),
    ensures
        find_item_idx(items, user_id, pocket_id) == if i == items.len() {
            -1
        } else {
            i
        },
    decreases items.len(),
{
    if items.len() > 0 {
        if item_matches(items[0], user_id, pocket_id) {
            assert(i == 0);
        } else {
            let d = items.drop_first();
            assert(forall|j: int| 0 <= j < d.len() ==> d[j] == items[j + 1]);
            lemma_find_item_at(d, user_id, pocket_id, i - 1);
        }
    }
}

/// What `find_user_idx` finds is the first match.
pub proof fn lemma_find_user_props(users: Seq<UserModel>, id: int)
    ensures
        -1 <= find_user_idx(users, id) < users.len(),
        find_user_idx(users, id) == -1 ==> forall|j: int|
            0 <= j < users.len() ==> (#[trigger] users[j]).id != id,
        find_user_idx(users, id) >= 0 ==> {
            let f = find_user_idx(users, id);
            &&& f < users.len()
            &&& users[f].id == id
            &&& forall|j: int| 0 <= j < f ==> (#[trigger] users[j]).id != id
        },
    decreases users.len(),
{
    if users.len() > 0 && users[0].id != id {
        let d = users.drop_first();
        lemma_find_user_props(d, id);
        let r = find_user_idx(d, id);
        let f = find_user_idx(users, id);
        if r == -1 {
            assert forall|j: int| 0 <= j < users.len() implies (#[trigger] users[j]).id != id by {
                if j > 0 {
                    assert(d[j - 1] == users[j]);
                }
            }
        } else {
            assert(f == r + 1);
            assert(users[f] == d[r]);
            assert forall|j: int| 0 <= j < f implies (#[trigger] users[j]).id != id by {
                if j > 0 {
                    assert(d[j - 1] == users[j]);
                }
            }
        }
    }
}

/// The first match is what `find_user_idx` finds.
pub proof fn lemma_find_user_at(users: Seq<UserModel>, id: int, i: int)
    requires
        0 <= i <= users.len(),
        forall|j: int| 0 <= j < i ==> (#[trigger] users[j]).id != id,
        i < users.len() ==> users[i].id == id,
    ensures
        find_user_idx(users, id) == if i == users.len() {
            -1
        } else {
            i
        },
    decreases users.len(),
{
    if users.len() > 0 {
        if users[0].id == id {
            assert(i == 0);
        } else {
            let d = users.drop_first();
            assert(forall|j: int| 0 <= j < d.len() ==> d[j] == users[j + 1]);
            lemma_find_user_at(d, id, i - 1);
        }
    }
}

/// The first match is what `find_item_by_id_idx` finds.
pub proof fn lemma_find_item_by_id_at(items: Seq<ItemModel>, id: int, i: int)
    requires
        0 <= i <= items.len(),
        forall|j: int| 0 <= j < i ==> (#[trigger] items[j]).id != id,
        i < items.len() ==> items[i].id == id,
    ensures
        find_item_by_id_idx(items, id) == if i == items.len() {
            -1
        } else {
            i
        },
    decreases items.len(),
{
    if items.len() > 0 {
        if items[0].id == id {
            assert(i == 0);
        } else {
            let d = items.drop_first();
            assert(forall|j: int| 0 <= j < d.len() ==> d[j] == items[j + 1]);
            lemma_find_item_by_id_at(d, id, i - 1);
        }
    }
}

/// Upserting the same fields twice leaves exactly the store that one upsert
/// leaves: reconciliation is idempotent.
pub proof fn lemma_upsert_idempotent(m: StoreModel, u: UpsertModel)
    ensures
        apply_upsert(apply_upsert(m, u), u) == apply_upsert(m, u),
{
    let once = apply_upsert(m, u);
    let idx = find_item_idx(m.items, u.user_id, u.pocket_id);
    lemma_find_item_props(m.items, u.user_id, u.pocket_id);
    if idx >= 0 {
        let row = upsert_row(u, m.items[idx].id);
        assert(item_matches(once.items[idx], u.user_id, u.pocket_id));
        assert(forall|j: int|
            0 <= j < idx ==> !item_matches(#[trigger] once.items[j], u.user_id, u.pocket_id));
        lemma_find_item_at(once.items, u.user_id, u.pocket_id, idx);
        assert(find_item_idx(once.items, u.user_id, u.pocket_id) == idx);
        assert(once.items.update(idx, upsert_row(u, once.items[idx].id)) =~= once.items);
        assert(apply_upsert(once, u) == once);
    } else {
        let n = m.items.len() as int;
        let row = upsert_row(u, m.next_item_id);
        assert(once.items == m.items.push(row));
        assert(item_matches(once.items[n], u.user_id, u.pocket_id));
        assert forall|j: int| 0 <= j < n implies !item_matches(
            #[trigger] once.items[j],
            u.user_id,
            u.pocket_id,
        ) by {
            assert(once.items[j] == m.items[j]);
        }
        lemma_find_item_at(once.items, u.user_id, u.pocket_id, n);
        assert(find_item_idx(once.items, u.user_id, u.pocket_id) == n);
        assert(once.items.update(n, upsert_row(u, once.items[n].id)) =~= once.items);
        assert(apply_upsert(once, u) == once);
    }
}

/// Deleting a `(user, remote id)` pair that is not stored changes nothing:
/// removal commutes with absence.
pub proof fn lemma_delete_absent(items: Seq<ItemModel>, user_id: int, pocket_id: Seq<char>)
    requires
        forall|j: int|
            0 <= j < items.len() ==> !item_matches(#[trigger] items[j], user_id, pocket_id),
    ensures
        delete_matching(items, user_id, pocket_id) == items,
    decreases items.len(),
{
    if items.len() > 0 {
        let d = items.drop_last();
        assert(forall|j: int| 0 <= j < d.len() ==> d[j] == items[j]);
        lemma_delete_absent(d, user_id, pocket_id);
        assert(delete_matching(items, user_id, pocket_id) =~= items);
    }
}

/// No two item rows share a `(user, remote id)` pair.
pub open spec fn unique_pairs(items: Seq<ItemModel>) -> bool {
    forall|i: int, j: int|
        0 <= i < j < items.len() ==> !((#[trigger] items[i]).user_id == (
        #[trigger] items[j]).user_id && items[i].pocket_id == items[j].pocket_id)
}

/// An upsert preserves the uniqueness of `(user, remote id)` pairs: updating
/// in place keeps every pair, and a fresh row is only appended when its pair
/// was absent.
pub proof fn lemma_upsert_preserves_unique(m: StoreModel, u: UpsertModel)
    requires
        unique_pairs(m.items),
    ensures
        unique_pairs(apply_upsert(m, u).items),
{
    let idx = find_item_idx(m.items, u.user_id, u.pocket_id);
    lemma_find_item_props(m.items, u.user_id, u.pocket_id);
    let r = apply_upsert(m, u).items;
    if idx >= 0 {
        assert forall|i: int, j: int| 0 <= i < j < r.len() implies !((#[trigger] r[i]).user_id == (
        #[trigger] r[j]).user_id && r[i].pocket_id == r[j].pocket_id) by {
            assert(r[i].user_id == m.items[i].user_id && r[i].pocket_id == m.items[i].pocket_id);
            assert(r[j].user_id == m.items[j].user_id && r[j].pocket_id == m.items[j].pocket_id);
        }
    } else {
        let n = m.items.len() as int;
        assert forall|i: int, j: int| 0 <= i < j < r.len() implies !((#[trigger] r[i]).user_id == (
        #[trigger] r[j]).user_id && r[i].pocket_id == r[j].pocket_id) by {
            if j == n {
                assert(r[i] == m.items[i]);
                assert(!item_matches(m.items[i], u.user_id, u.pocket_id));
            } else {
                assert(r[i] == m.items[i] && r[j] == m.items[j]);
            }
        }
    }
}

/// A delete preserves the uniqueness of `(user, remote id)` pairs.
pub proof fn lemma_delete_preserves_unique(items: Seq<ItemModel>, user_id: int, pid: Seq<char>)
    requires
        unique_pairs(items),
    ensures
        unique_pairs(delete_matching(items, user_id, pid)),
        forall|x: ItemModel|
            delete_matching(items, user_id, pid).contains(x) ==> items.contains(x),
    decreases items.len(),
{
    if items.len() > 0 {
        let d = items.drop_last();
        assert(forall|j: int| 0 <= j < d.len() ==> d[j] == items[j]);
        lemma_delete_preserves_unique(d, user_id, pid);
        let r0 = delete_matching(d, user_id, pid);
        assert(forall|x: ItemModel| d.contains(x) ==> items.contains(x));
        if !item_matches(items.last(), user_id, pid) {
            let r = r0.push(items.last());
            assert forall|x: ItemModel| r.contains(x) implies items.contains(x) by {
                if x == items.last() {
                    assert(items[items.len() - 1] == x);
                } else {
                    let k = choose|k: int| 0 <= k < r.len() && r[k] == x;
                    assert(r0[k] == x);
                    assert(r0.contains(x));
                }
            }
            assert forall|i: int, j: int| 0 <= i < j < r.len() implies !((#[trigger] r[i]).user_id
                == (#[trigger] r[j]).user_id && r[i].pocket_id == r[j].pocket_id) by {
                if j == r.len() - 1 {
                    assert(r0.contains(r[i]));
                    assert(d.contains(r[i]));
                    let k = choose|k: int| 0 <= k < d.len() && d[k] == r[i];
                    assert(items[k] == r[i]);
                    assert(items.last() == items[items.len() - 1]);
                }
            }
        }
    }
}

// ---------------------------------------------------------------------------
// Rows
// ---------------------------------------------------------------------------
/// A user row.
#[derive(Clone, Debug)]
pub struct User {
    id: i32,
    email: String,
    pocket_access_token: Option<String>,
    last_pocket_sync_time: Option<i64>,
}

impl View for User {
    type V = UserModel;

    closed spec fn view(&self) -> UserModel {
        UserModel {
            id: self.id as int,
            email: self.email@,
            pocket_access_token: opt_view(self.pocket_access_token),
            last_pocket_sync_time: self.last_pocket_sync_time,
        }
    }
}

/// Clones an optional string.
fn clone_opt_string(o: &Option<String>) -> (r: Option<String>)
    ensures
        opt_view(r) == opt_view(*o),
{
    match o {
        Some(s) => Some(s.clone()),
        None => None,
    }
}

impl User {
    /// The storage-assigned identity.
    pub fn id(&self) -> (r: i32)
        ensures
            r as int == self@.id,
    {
        self.id
    }

    /// The user's email address.
    pub fn email(&self) -> (r: String)
        ensures
            r@ == self@.email,
    {
        self.email.clone()
    }

    /// The remote access token, if the user authorized the application.
    pub fn pocket_access_token(&self) -> (r: Option<String>)
        ensures
            opt_view(r) == self@.pocket_access_token,
    {
        clone_opt_string(&self.pocket_access_token)
    }

    /// The watermark recorded by the last completed sync.
    pub fn last_pocket_sync_time(&self) -> (r: Option<i64>)
        ensures
            r == self@.last_pocket_sync_time,
    {
        self.last_pocket_sync_time
    }

    /// A field-for-field copy.
    fn duplicate(&self) -> (r: User)
        ensures
            r@ == self@,
    {
        User {
            id: self.id,
            email: self.email.clone(),
            pocket_access_token: clone_opt_string(&self.pocket_access_token),
            last_pocket_sync_time: self.last_pocket_sync_time,
        }
    }
}

/// A saved item row.
#[derive(Clone, Debug)]
pub struct SavedItem {
    id: i32,
    user_id: i32,
    pocket_id: PocketItemId,
    title: String,
    excerpt: Option<String>,
    url: Option<String>,
    /// Epoch seconds reported by the remote service.
    time_added: Option<i64>,
}

impl View for SavedItem {
    type V = ItemModel;

    closed spec fn view(&self) -> ItemModel {
        ItemModel {
            id: self.id as int,
            user_id: self.user_id as int,
            pocket_id: self.pocket_id@,
            title: self.title@,
            excerpt: opt_view(self.excerpt),
            url: opt_view(self.url),
            time_added: self.time_added,
        }
    }
}

impl SavedItem {
    /// The storage-assigned local identity.
    pub fn id(&self) -> (r: i32)
        ensures
            r as int == self@.id,
    {
        self.id
    }

    /// The owning user.
    pub fn user_id(&self) -> (r: i32)
        ensures
            r as int == self@.user_id,
    {
        self.user_id
    }

    /// The remote identifier.
    pub fn pocket_id(&self) -> (r: PocketItemId)
        ensures
            r@ == self@.pocket_id,
    {
        PocketItemId(self.pocket_id.0.clone())
    }

    /// The title.
    pub fn title(&self) -> (r: String)
        ensures
            r@ == self@.title,
    {
        self.title.clone()
    }

    /// The excerpt, if any.
    pub fn excerpt(&self) -> (r: Option<String>)
        ensures
            opt_view(r) == self@.excerpt,
    {
        clone_opt_string(&self.excerpt)
    }

    /// The URL, if any.
    pub fn url(&self) -> (r: Option<String>)
        ensures
            opt_view(r) == self@.url,
    {
        clone_opt_string(&self.url)
    }

    /// The creation instant in epoch seconds, if known.
    pub fn time_added(&self) -> (r: Option<i64>)
        ensures
            r == self@.time_added,
    {
        self.time_added
    }

    /// A field-for-field copy.
    pub fn duplicate(&self) -> (r: SavedItem)
        ensures
            r@ == self@,
    {
        SavedItem {
            id: self.id,
            user_id: self.user_id,
            pocket_id: PocketItemId(self.pocket_id.0.clone()),
            title: self.title.clone(),
            excerpt: clone_opt_string(&self.excerpt),
            url: clone_opt_string(&self.url),
            time_added: self.time_added,
        }
    }
}

/// The fields written by one upsert.
#[derive(Clone, Debug)]
pub struct UpsertSavedItem {
    pub user_id: i32,
    pub pocket_id: PocketItemId,
    pub title: String,
    pub excerpt: String,
    pub url: String,
    pub time_added: i64,
}

impl View for UpsertSavedItem {
    type V = UpsertModel;

    open spec fn view(&self) -> UpsertModel {
        UpsertModel {
            user_id: self.user_id as int,
            pocket_id: self.pocket_id@,
            title: self.title@,
            excerpt: self.excerpt@,
            url: self.url@,
            time_added: self.time_added,
        }
    }
}

/// The payload for creating a user row.
#[derive(Clone, Debug)]
pub struct NewUser {
    pub email: String,
    pub pocket_access_token: Option<String>,
}

/// The payload for updating a user row; unset fields keep their value.
#[derive(Clone, Debug)]
pub struct UpdateUser {
    pub email: Option<String>,
    pub pocket_access_token: Option<String>,
}

/// The orders a saved item listing may be requested in.
#[derive(Clone, Copy, Debug, PartialEq, Eq, Structural)]
pub enum SavedItemSort {
    TimeAdded,
}

/// The parameters of a saved item listing.
#[derive(Clone, Debug)]
pub struct GetSavedItemsQuery {
    pub user_id: i32,
    pub sort_by: Option<SavedItemSort>,
    pub count: Option<i64>,
}

impl Default for GetSavedItemsQuery {
    /// A listing for user 0, unsorted and unlimited.
    fn default() -> (r: Self)
        ensures
            r.user_id == 0,
            r.sort_by is None,
            r.count is None,
    {
        GetSavedItemsQuery { user_id: 0, sort_by: None, count: None }
    }
}

/// The view of a sequence of user rows.
pub open spec fn users_view(v: Seq<User>) -> Seq<UserModel> {
    v.map_values(|u: User| u@)
}

/// The view of a sequence of item rows.
pub open spec fn items_view(v: Seq<SavedItem>) -> Seq<ItemModel> {
    v.map_values(|it: SavedItem| it@)
}

// ---------------------------------------------------------------------------
// The storage port
// ---------------------------------------------------------------------------
/// The abstract storage contract the engine depends on. Any backend may
/// stand behind it; the in-memory backend below is the verified one, and
/// every implementation must transform the model as stated here.
pub trait DataStore {
    /// The model this store presently holds.
    spec fn store_model(&self) -> StoreModel;

    /// Creates a user under the next fresh id; a backend may refuse a
    /// duplicate email.
    fn create_user(&mut self, email: &str, pocket_access_token: Option<&str>) -> (r: Result<
        User,
        Error,
    >)
        ensures
            r matches Ok(u) ==> {
                &&& u@.id == old(self).store_model().next_user_id
                &&& u@.email == email@
                &&& u@.pocket_access_token == (match pocket_access_token {
                    Some(t) => Some(t@),
                    None => None::<Seq<char>>,
                })
                &&& u@.last_pocket_sync_time is None
                &&& final(self).store_model() == (StoreModel {
                    users: old(self).store_model().users.push(u@),
                    next_user_id: old(self).store_model().next_user_id + 1,
                    ..old(self).store_model()
                })
            },
            r is Err ==> final(self).store_model() == old(self).store_model(),
    ;

    /// Gets a user by id; a miss is a `NotFound` error.
    fn get_user(&mut self, id: i32) -> (r: Result<User, Error>)
        ensures
            final(self).store_model() == old(self).store_model(),
            r matches Ok(u) ==> {
                let f = find_user_idx(old(self).store_model().users, id as int);
                f >= 0 && u@ == old(self).store_model().users[f]
            },
            r matches Err(e) ==> (e is NotFound ==> find_user_idx(
                old(self).store_model().users,
                id as int,
            ) == -1),
    ;

    /// Records the watermark of a completed sync on the user row.
    fn update_user_last_pocket_sync_time(&mut self, id: i32, value: Option<i64>) -> (r: Result<
        (),
        Error,
    >)
        ensures
            r is Ok ==> final(self).store_model() == apply_set_watermark(
                old(self).store_model(),
                id as int,
                value,
            ) && find_user_idx(old(self).store_model().users, id as int) >= 0,
            r is Err ==> final(self).store_model() == old(self).store_model(),
    ;

    /// Creates a saved item row; the `(user, remote id)` pair must be new.
    fn create_saved_item(&mut self, user_id: i32, pocket_id: &PocketItemId, title: &str) -> (r:
        Result<SavedItem, Error>)
        ensures
            r matches Ok(it) ==> {
                &&& find_item_idx(old(self).store_model().items, user_id as int, pocket_id@) == -1
                &&& it@ == (ItemModel {
                    id: old(self).store_model().next_item_id,
                    user_id: user_id as int,
                    pocket_id: pocket_id@,
                    title: title@,
                    excerpt: None,
                    url: None,
                    time_added: None,
                })
                &&& final(self).store_model() == (StoreModel {
                    items: old(self).store_model().items.push(it@),
                    next_item_id: old(self).store_model().next_item_id + 1,
                    ..old(self).store_model()
                })
            },
            r is Err ==> final(self).store_model() == old(self).store_model(),
    ;

    /// Creates or updates the saved item; safe to repeat with equal fields.
    fn upsert_item(&mut self, item: &UpsertSavedItem) -> (r: Result<(), Error>)
        ensures
            r is Ok ==> final(self).store_model() == apply_upsert(old(self).store_model(), item@),
            r is Err ==> final(self).store_model() == old(self).store_model(),
    ;

    /// Retrieves a single item by its local id.
    fn get_item(&mut self, id: i32) -> (r: Result<Option<SavedItem>, Error>)
        ensures
            final(self).store_model() == old(self).store_model(),
            r matches Ok(Some(it)) ==> {
                let f = find_item_by_id_idx(old(self).store_model().items, id as int);
                f >= 0 && it@ == old(self).store_model().items[f]
            },
            r matches Ok(None) ==> find_item_by_id_idx(old(self).store_model().items, id as int)
                == -1,
    ;

    /// The full saved item set of one user, in insertion order.
    fn get_saved_items_by_user(&mut self, user_id: i32) -> (r: Result<Vec<SavedItem>, Error>)
        ensures
            final(self).store_model() == old(self).store_model(),
            r matches Ok(v) ==> items_view(v@) == user_items(
                old(self).store_model().items,
                user_id as int,
            ),
    ;

    /// Deletes the saved item if it exists; absence is not an error.
    fn delete_item(&mut self, user_id: i32, pocket_id: &PocketItemId) -> (r: Result<(), Error>)
        ensures
            r is Ok ==> final(self).store_model() == apply_delete(
                old(self).store_model(),
                user_id as int,
                pocket_id@,
            ),
            r is Err ==> final(self).store_model() == old(self).store_model(),
    ;

    /// The user's items ranked by relevance to a keyword phrase.
    fn get_items_by_keyword(&mut self, user_id: i32, keyword: &str) -> (r: Result<
        Vec<SavedItem>,
        Error,
    >)
        ensures
            final(self).store_model() == old(self).store_model(),
            r matches Ok(v) ==> items_view(v@) == crate::relevance::rank_spec(
                user_items(old(self).store_model().items, user_id as int),
                keyword@,
            ),
    ;

    /// A listing of the user's items, optionally ordered by creation time
    /// and cut to a row count; a negative count is rejected.
    fn get_items(&mut self, query: &GetSavedItemsQuery) -> (r: Result<Vec<SavedItem>, Error>)
        ensures
            final(self).store_model() == old(self).store_model(),
            r matches Ok(v) ==> items_view(v@) == spec_get_items(
                old(self).store_model().items,
                query.user_id as int,
                query.sort_by,
                query.count,
            ) && (query.count matches Some(c) ==> c >= 0),
            (query.count matches Some(c) && c < 0) ==> (r is Err && r.unwrap_err()
                is InvalidArgument),
    ;

    /// Some stored item of the user, when one exists.
    fn get_random_item(&mut self, user_id: i32) -> (r: Result<Option<SavedItem>, Error>)
        ensures
            final(self).store_model() == old(self).store_model(),
            r matches Ok(Some(it)) ==> user_items(
                old(self).store_model().items,
                user_id as int,
            ).contains(it@),
            r matches Ok(None) ==> user_items(old(self).store_model().items, user_id as int).len()
                == 0,
    ;

    /// Deletes every saved item of one user.
    fn delete_all(&mut self, user_id: i32) -> (r: Result<(), Error>)
        ensures
            r is Ok ==> final(self).store_model() == (StoreModel {
                items: delete_user_items(old(self).store_model().items, user_id as int),
                ..old(self).store_model()
            }),
            r is Err ==> final(self).store_model() == old(self).store_model(),
    ;

    /// The first `count` users.
    fn filter_users(&mut self, count: i32) -> (r: Result<Vec<User>, Error>)
        ensures
            final(self).store_model() == old(self).store_model(),
            r matches Ok(v) ==> users_view(v@) == old(self).store_model().users.take(
                if count < 0 {
                    0
                } else if count < old(self).store_model().users.len() {
                    count as int
                } else {
                    old(self).store_model().users.len() as int
                },
            ),
    ;

    /// Updates the email and or access token of a user.
    fn update_user(&mut self, id: i32, email: Option<&str>, pocket_access_token: Option<&str>) -> (r:
        Result<(), Error>)
        ensures
            r is Ok ==> final(self).store_model() == (StoreModel {
                users: set_user_fields(
                    old(self).store_model().users,
                    id as int,
                    match email {
                        Some(e) => Some(e@),
                        None => None,
                    },
                    match pocket_access_token {
                        Some(t) => Some(t@),
                        None => None,
                    },
                ),
                ..old(self).store_model()
            }) && find_user_idx(old(self).store_model().users, id as int) >= 0,
            r is Err ==> final(self).store_model() == old(self).store_model(),
    ;

    /// Deletes a user; a miss is a `NotFound` error.
    fn delete_user(&mut self, id: i32) -> (r: Result<(), Error>)
        ensures
            r is Ok ==> final(self).store_model() == (StoreModel {
                users: delete_user_rows(old(self).store_model().users, id as int),
                ..old(self).store_model()
            }) && find_user_idx(old(self).store_model().users, id as int) >= 0,
            r is Err ==> final(self).store_model() == old(self).store_model(),
    ;

    /// Deletes every user.
    fn delete_all_users(&mut self) -> (r: Result<(), Error>)
        ensures
            r is Ok ==> final(self).store_model() == (StoreModel {
                users: Seq::<UserModel>::empty(),
                ..old(self).store_model()
            }),
            r is Err ==> final(self).store_model() == old(self).store_model(),
    ;
}


// ---------------------------------------------------------------------------
// The in-memory backend
// ---------------------------------------------------------------------------
/// A storage backend that keeps every row in memory; the verified reference
/// implementation of the port.
#[derive(Debug)]
pub struct MemoryDataStore {
    users: Vec<User>,
    items: Vec<SavedItem>,
    next_user_id: i32,
    next_item_id: i32,
}

impl MemoryDataStore {
    /// An empty store; identifiers start at 1.
    pub fn new() -> (r: MemoryDataStore)
        ensures
            r.store_model() == (StoreModel {
                users: Seq::<UserModel>::empty(),
                items: Seq::<ItemModel>::empty(),
                next_user_id: 1,
                next_item_id: 1,
            }),
    {
        let r = MemoryDataStore { users: Vec::new(), items: Vec::new(), next_user_id: 1, next_item_id: 1 };
        proof {
            assert(users_view(r.users@) =~= Seq::<UserModel>::empty());
            assert(items_view(r.items@) =~= Seq::<ItemModel>::empty());
        }
        r
    }

    /// The rows of one user, in insertion order.
    fn collect_user_items(&self, user_id: i32) -> (r: Vec<SavedItem>)
        ensures
            items_view(r@) == user_items(self.store_model().items, user_id as int),
    {
        let ghost m = self.store_model();
        let mut out: Vec<SavedItem> = Vec::new();
        let mut i: usize = 0;
        while i < self.items.len()
            invariant
                i <= self.items@.len(),
                m == self.store_model(),
                items_view(out@) == user_items(m.items.subrange(0, i as int), user_id as int),
            decreases self.items@.len() - i,
        {
            let ghost prefix = m.items.subrange(0, i as int);
            let ghost ext = m.items.subrange(0, i + 1);
            if self.items[i].user_id == user_id {
                out.push(self.items[i].duplicate());
            }
            proof {
                assert(ext.drop_last() =~= prefix);
                assert(ext.last() == m.items[i as int]);
                assert(items_view(out@) =~= user_items(ext, user_id as int));
            }
            i = i + 1;
        }
        proof {
            assert(m.items.subrange(0, m.items.len() as int) =~= m.items);
        }
        out
    }
}

impl DataStore for MemoryDataStore {
    closed spec fn store_model(&self) -> StoreModel {
        StoreModel {
            users: users_view(self.users@),
            items: items_view(self.items@),
            next_user_id: self.next_user_id as int,
            next_item_id: self.next_item_id as int,
        }
    }

    fn create_user(&mut self, email: &str, pocket_access_token: Option<&str>) -> (r: Result<
        User,
        Error,
    >)
        ensures
            r is Ok <==> (old(self).store_model().next_user_id < 0x7fff_ffff && forall|j: int|
                0 <= j < old(self).store_model().users.len()
                    ==> (#[trigger] old(self).store_model().users[j]).email != email@),
            r matches Err(e) ==> e is Storage,
    {
        let ghost m = self.store_model();
        let email_owned = email.to_owned();
        let mut i: usize = 0;
        while i < self.users.len()
            invariant
                i <= self.users@.len(),
                m == self.store_model(),
                m == old(self).store_model(),
                email_owned@ == email@,
                forall|j: int| 0 <= j < i ==> (#[trigger] m.users[j]).email != email@,
            decreases self.users@.len() - i,
        {
            if self.users[i].email.eq(&email_owned) {
                proof {
                    assert(m.users[i as int].email == email@);
                }
                return Err(Error::Storage(String::from_str("user email already exists")));
            }
            i = i + 1;
        }
        if self.next_user_id == i32::MAX {
            return Err(Error::Storage(String::from_str("user id space exhausted")));
        }
        let token: Option<String> = match pocket_access_token {
            Some(t) => Some(t.to_owned()),
            None => None,
        };
        let u = User {
            id: self.next_user_id,
            email: email.to_owned(),
            pocket_access_token: token,
            last_pocket_sync_time: None,
        };
        let ghost before = self.store_model();
        let copy = u.duplicate();
        self.users.push(copy);
        self.next_user_id = self.next_user_id + 1;
        proof {
            assert(users_view(self.users@) =~= before.users.push(u@));
            assert(items_view(self.items@) == before.items);
            assert(self.store_model() =~= (StoreModel {
                users: before.users.push(u@),
                next_user_id: before.next_user_id + 1,
                ..before
            }));
        }
        Ok(u)
    }

    fn get_user(&mut self, id: i32) -> (r: Result<User, Error>)
        ensures
            r is Ok <==> find_user_idx(old(self).store_model().users, id as int) >= 0,
            r matches Err(e) ==> e is NotFound,
    {
        let ghost m = self.store_model();
        let mut i: usize = 0;
        while i < self.users.len()
            invariant
                i <= self.users@.len(),
                m == self.store_model(),
                m == old(self).store_model(),
                forall|j: int| 0 <= j < i ==> (#[trigger] m.users[j]).id != id as int,
            decreases self.users@.len() - i,
        {
            if self.users[i].id == id {
                proof {
                    lemma_find_user_at(m.users, id as int, i as int);
                }
                return Ok(self.users[i].duplicate());
            }
            i = i + 1;
        }
        proof {
            lemma_find_user_at(m.users, id as int, m.users.len() as int);
        }
        Err(Error::NotFound(String::from_str("user does not exist")))
    }

    fn update_user_last_pocket_sync_time(&mut self, id: i32, value: Option<i64>) -> (r: Result<
        (),
        Error,
    >)
        ensures
            r is Ok <==> find_user_idx(old(self).store_model().users, id as int) >= 0,
            r matches Err(e) ==> e is NotFound,
    {
        let ghost m = self.store_model();
        let mut out: Vec<User> = Vec::new();
        let mut found = false;
        let mut i: usize = 0;
        while i < self.users.len()
            invariant
                i <= self.users@.len(),
                m == self.store_model(),
                m == old(self).store_model(),
                out@.len() == i,
                forall|j: int| 0 <= j < i ==> #[trigger] out@[j]@ == set_watermark(
                    m.users,
                    id as int,
                    value,
                )[j],
                found ==> exists|j: int| 0 <= j < i && (#[trigger] m.users[j]).id == id as int,
                !found ==> forall|j: int| 0 <= j < i ==> (#[trigger] m.users[j]).id != id as int,
            decreases self.users@.len() - i,
        {
            let u = &self.users[i];
            if u.id == id {
                out.push(
                    User {
                        id: u.id,
                        email: u.email.clone(),
                        pocket_access_token: clone_opt_string(&u.pocket_access_token),
                        last_pocket_sync_time: value,
                    },
                );
                found = true;
            } else {
                out.push(u.duplicate());
            }
            proof {
                assert(self.users@[i as int]@ == m.users[i as int]);
                assert(out@[i as int]@ == set_watermark(m.users, id as int, value)[i as int]);
            }
            i = i + 1;
        }
        if !found {
            proof {
                lemma_find_user_at(m.users, id as int, m.users.len() as int);
            }
            return Err(Error::NotFound(String::from_str("user does not exist")));
        }
        self.users = out;
        proof {
            let ghost j = choose|j: int| 0 <= j < m.users.len() && (#[trigger] m.users[j]).id
                == id as int;
            lemma_find_user_props(m.users, id as int);
            if find_user_idx(m.users, id as int) == -1 {
                assert(m.users[j].id != id as int);
                assert(false);
            }
            assert(users_view(self.users@) =~= set_watermark(m.users, id as int, value));
            assert(self.store_model() =~= apply_set_watermark(m, id as int, value));
        }
        Ok(())
    }

    fn create_saved_item(&mut self, user_id: i32, pocket_id: &PocketItemId, title: &str) -> (r:
        Result<SavedItem, Error>)
        ensures
            r is Ok <==> (find_item_idx(old(self).store_model().items, user_id as int, pocket_id@)
                == -1 && old(self).store_model().next_item_id < 0x7fff_ffff),
            r matches Err(e) ==> e is Storage,
    {
        let ghost m = self.store_model();
        let mut i: usize = 0;
        while i < self.items.len()
            invariant
                i <= self.items@.len(),
                m == self.store_model(),
                m == old(self).store_model(),
                forall|j: int| 0 <= j < i ==> !item_matches(
                    #[trigger] m.items[j],
                    user_id as int,
                    pocket_id@,
                ),
            decreases self.items@.len() - i,
        {
            let it = &self.items[i];
            if it.user_id == user_id && it.pocket_id.same_as(pocket_id) {
                proof {
                    lemma_find_item_at(m.items, user_id as int, pocket_id@, i as int);
                }
                return Err(Error::Storage(String::from_str("saved item already exists")));
            }
            i = i + 1;
        }
        proof {
            lemma_find_item_at(m.items, user_id as int, pocket_id@, m.items.len() as int);
        }
        if self.next_item_id == i32::MAX {
            return Err(Error::Storage(String::from_str("item id space exhausted")));
        }
        let it = SavedItem {
            id: self.next_item_id,
            user_id,
            pocket_id: PocketItemId(pocket_id.0.clone()),
            title: title.to_owned(),
            excerpt: None,
            url: None,
            time_added: None,
        };
        let copy = it.duplicate();
        self.items.push(copy);
        self.next_item_id = self.next_item_id + 1;
        proof {
            assert(items_view(self.items@) =~= m.items.push(it@));
            assert(self.store_model() =~= (StoreModel {
                items: m.items.push(it@),
                next_item_id: m.next_item_id + 1,
                ..m
            }));
        }
        Ok(it)
    }

    fn upsert_item(&mut self, item: &UpsertSavedItem) -> (r: Result<(), Error>)
        ensures
            (find_item_idx(old(self).store_model().items, item.user_id as int, item.pocket_id@)
                >= 0 || old(self).store_model().next_item_id < 0x7fff_ffff) ==> r is Ok,
            r matches Err(e) ==> e is Storage,
    {
        let ghost m = self.store_model();
        let mut i: usize = 0;
        while i < self.items.len()
            invariant
                i <= self.items@.len(),
                m == self.store_model(),
                m == old(self).store_model(),
                forall|j: int| 0 <= j < i ==> !item_matches(
                    #[trigger] m.items[j],
                    item.user_id as int,
                    item.pocket_id@,
                ),
            decreases self.items@.len() - i,
        {
            let it = &self.items[i];
            if it.user_id == item.user_id && it.pocket_id.same_as(&item.pocket_id) {
                proof {
                    lemma_find_item_at(m.items, item.user_id as int, item.pocket_id@, i as int);
                }
                let updated = SavedItem {
                    id: it.id,
                    user_id: item.user_id,
                    pocket_id: PocketItemId(item.pocket_id.0.clone()),
                    title: item.title.clone(),
                    excerpt: Some(item.excerpt.clone()),
                    url: Some(item.url.clone()),
                    time_added: Some(item.time_added),
                };
                let mut out: Vec<SavedItem> = Vec::new();
                let mut k: usize = 0;
                while k < self.items.len()
                    invariant
                        k <= self.items@.len(),
                        i < self.items@.len(),
                        m == self.store_model(),
                        m == old(self).store_model(),
                        updated@ == upsert_row(item@, m.items[i as int].id),
                        out@.len() == k,
                        forall|j: int| 0 <= j < k ==> #[trigger] out@[j]@ == m.items.update(
                            i as int,
                            upsert_row(item@, m.items[i as int].id),
                        )[j],
                    decreases self.items@.len() - k,
                {
                    if k == i {
                        out.push(updated.duplicate());
                    } else {
                        out.push(self.items[k].duplicate());
                    }
                    k = k + 1;
                }
                self.items = out;
                proof {
                    assert(find_item_idx(m.items, item.user_id as int, item.pocket_id@)
                        == i as int);
                    assert(items_view(self.items@) =~= m.items.update(
                        i as int,
                        upsert_row(item@, m.items[i as int].id),
                    ));
                    assert(users_view(self.users@) == m.users);
                    assert(self.store_model().items == apply_upsert(m, item@).items);
                    assert(self.store_model() =~= apply_upsert(m, item@));
                    assert(m == old(self).store_model());
                }
                return Ok(());
            }
            i = i + 1;
        }
        proof {
            lemma_find_item_at(m.items, item.user_id as int, item.pocket_id@, m.items.len() as int);
        }
        if self.next_item_id == i32::MAX {
            return Err(Error::Storage(String::from_str("item id space exhausted")));
        }
        let fresh = SavedItem {
            id: self.next_item_id,
            user_id: item.user_id,
            pocket_id: PocketItemId(item.pocket_id.0.clone()),
            title: item.title.clone(),
            excerpt: Some(item.excerpt.clone()),
            url: Some(item.url.clone()),
            time_added: Some(item.time_added),
        };
        self.items.push(fresh);
        self.next_item_id = self.next_item_id + 1;
        proof {
            assert(items_view(self.items@) =~= m.items.push(upsert_row(item@, m.next_item_id)));
            assert(self.store_model() =~= apply_upsert(m, item@));
        }
        Ok(())
    }

    fn get_item(&mut self, id: i32) -> (r: Result<Option<SavedItem>, Error>)
        ensures
            r is Ok,
    {
        let ghost m = self.store_model();
        let mut i: usize = 0;
        while i < self.items.len()
            invariant
                i <= self.items@.len(),
                m == self.store_model(),
                m == old(self).store_model(),
                forall|j: int| 0 <= j < i ==> (#[trigger] m.items[j]).id != id as int,
            decreases self.items@.len() - i,
        {
            if self.items[i].id == id {
                proof {
                    lemma_find_item_by_id_at(m.items, id as int, i as int);
                }
                return Ok(Some(self.items[i].duplicate()));
            }
            i = i + 1;
        }
        proof {
            lemma_find_item_by_id_at(m.items, id as int, m.items.len() as int);
        }
        Ok(None)
    }

    fn get_saved_items_by_user(&mut self, user_id: i32) -> (r: Result<Vec<SavedItem>, Error>)
        ensures
            r is Ok,
    {
        Ok(self.collect_user_items(user_id))
    }

    fn delete_item(&mut self, user_id: i32, pocket_id: &PocketItemId) -> (r: Result<(), Error>)
        ensures
            r is Ok,
    {
        let ghost m = self.store_model();
        let mut out: Vec<SavedItem> = Vec::new();
        let mut i: usize = 0;
        while i < self.items.len()
            invariant
                i <= self.items@.len(),
                m == self.store_model(),
                m == old(self).store_model(),
                items_view(out@) == delete_matching(
                    m.items.subrange(0, i as int),
                    user_id as int,
                    pocket_id@,
                ),
            decreases self.items@.len() - i,
        {
            let ghost prefix = m.items.subrange(0, i as int);
            let ghost ext = m.items.subrange(0, i + 1);
            let it = &self.items[i];
            if !(it.user_id == user_id && it.pocket_id.same_as(pocket_id)) {
                out.push(it.duplicate());
            }
            proof {
                assert(ext.drop_last() =~= prefix);
                assert(ext.last() == m.items[i as int]);
                assert(items_view(out@) =~= delete_matching(ext, user_id as int, pocket_id@));
            }
            i = i + 1;
        }
        self.items = out;
        proof {
            assert(m.items.subrange(0, m.items.len() as int) =~= m.items);
            assert(self.store_model() =~= apply_delete(m, user_id as int, pocket_id@));
        }
        Ok(())
    }

    fn get_items_by_keyword(&mut self, user_id: i32, keyword: &str) -> (r: Result<
        Vec<SavedItem>,
        Error,
    >)
        ensures
            r is Ok,
    {
        let mine = self.collect_user_items(user_id);
        Ok(crate::relevance::rank_items_by_keyword(&mine, keyword))
    }

    fn get_items(&mut self, query: &GetSavedItemsQuery) -> (r: Result<Vec<SavedItem>, Error>)
        ensures
            r is Ok <==> !(query.count matches Some(c) && c < 0),
            r matches Err(e) ==> e is InvalidArgument,
    {
        match query.count {
            Some(c) => {
                if c < 0 {
                    return Err(
                        Error::InvalidArgument(String::from_str("count must not be negative")),
                    );
                }
            },
            None => {},
        }
        let base = self.collect_user_items(query.user_id);
        let ghost bv = items_view(base@);
        let mut ordered: Vec<SavedItem> = match query.sort_by {
            Some(SavedItemSort::TimeAdded) => {
                let mut keys: Vec<(i128, usize)> = Vec::new();
                let mut i: usize = 0;
                while i < base.len()
                    invariant
                        i <= base@.len(),
                        bv == items_view(base@),
                        keys@.len() == i,
                        forall|j: int| 0 <= j < i ==> #[trigger] keys@[j] == (
                            time_key(bv[j]) as i128,
                            j as usize,
                        ),
                    decreases base@.len() - i,
                {
                    let key: i128 = match base[i].time_added() {
                        None => 0x8000_0000_0000_0001i128,
                        Some(t) => -(t as i128),
                    };
                    proof {
                        assert(base@[i as int]@ == bv[i as int]);
                    }
                    keys.push((key, i));
                    i = i + 1;
                }
                proof {
                    assert(keys@ =~= Seq::new(
                        bv.len(),
                        |j: int| (time_key(bv[j]) as i128, j as usize),
                    ));
                    crate::order::lemma_sort_tags_bounded(keys@, bv.len() as int);
                }
                let ranked = sort_pairs(keys);
                let mut out: Vec<SavedItem> = Vec::new();
                let mut o: usize = 0;
                while o < ranked.len()
                    invariant
                        o <= ranked@.len(),
                        bv == items_view(base@),
                        ranked@ == sort_spec(
                            Seq::new(bv.len(), |j: int| (time_key(bv[j]) as i128, j as usize)),
                        ),
                        forall|j: int| 0 <= j < ranked@.len() ==> (#[trigger] ranked@[j]).1
                            < base@.len(),
                        out@.len() == o,
                        forall|j: int| 0 <= j < o ==> #[trigger] out@[j]@ == bv[ranked@[j].1 as int],
                    decreases ranked@.len() - o,
                {
                    let tag = ranked[o].1;
                    out.push(base[tag].duplicate());
                    o = o + 1;
                }
                proof {
                    assert(items_view(out@) =~= time_sorted_items(bv));
                }
                out
            },
            None => base,
        };
        let ghost ordered_g = items_view(ordered@);
        match query.count {
            Some(c) => {
                if (c as u64) < (ordered.len() as u64) {
                    ordered.truncate(c as usize);
                    proof {
                        assert(items_view(ordered@) =~= ordered_g.take(c as int));
                    }
                }
            },
            None => {},
        }
        proof {
            let m0 = old(self).store_model();
            assert(bv == user_items(m0.items, query.user_id as int));
            match query.sort_by {
                Some(SavedItemSort::TimeAdded) => {
                    assert(ordered_g == time_sorted_items(bv));
                },
                None => {
                    assert(ordered_g == bv);
                },
            }
            match query.count {
                Some(c) => {
                    assert(c >= 0);
                    if c < ordered_g.len() {
                        assert(items_view(ordered@) == ordered_g.take(c as int));
                    } else {
                        assert(items_view(ordered@) == ordered_g);
                    }
                },
                None => {
                    assert(items_view(ordered@) == ordered_g);
                },
            }
            assert(items_view(ordered@) =~= spec_get_items(
                m0.items,
                query.user_id as int,
                query.sort_by,
                query.count,
            ));
        }
        Ok(ordered)
    }

    fn get_random_item(&mut self, user_id: i32) -> (r: Result<Option<SavedItem>, Error>)
        ensures
            r is Ok,
    {
        let ghost m = self.store_model();
        let mut i: usize = 0;
        while i < self.items.len()
            invariant
                i <= self.items@.len(),
                m == self.store_model(),
                m == old(self).store_model(),
                forall|j: int| 0 <= j < i ==> (#[trigger] m.items[j]).user_id != user_id as int,
            decreases self.items@.len() - i,
        {
            if self.items[i].user_id == user_id {
                proof {
                    lemma_user_items_contains(m.items, user_id as int, i as int);
                }
                return Ok(Some(self.items[i].duplicate()));
            }
            i = i + 1;
        }
        proof {
            lemma_user_items_absent(m.items, user_id as int);
        }
        Ok(None)
    }

    fn delete_all(&mut self, user_id: i32) -> (r: Result<(), Error>)
        ensures
            r is Ok,
    {
        let ghost m = self.store_model();
        let mut out: Vec<SavedItem> = Vec::new();
        let mut i: usize = 0;
        while i < self.items.len()
            invariant
                i <= self.items@.len(),
                m == self.store_model(),
                m == old(self).store_model(),
                items_view(out@) == delete_user_items(m.items.subrange(0, i as int), user_id as int),
            decreases self.items@.len() - i,
        {
            let ghost prefix = m.items.subrange(0, i as int);
            let ghost ext = m.items.subrange(0, i + 1);
            let it = &self.items[i];
            if it.user_id != user_id {
                out.push(it.duplicate());
            }
            proof {
                assert(ext.drop_last() =~= prefix);
                assert(ext.last() == m.items[i as int]);
                assert(items_view(out@) =~= delete_user_items(ext, user_id as int));
            }
            i = i + 1;
        }
        self.items = out;
        proof {
            assert(m.items.subrange(0, m.items.len() as int) =~= m.items);
            assert(self.store_model() =~= (StoreModel {
                items: delete_user_items(m.items, user_id as int),
                ..m
            }));
        }
        Ok(())
    }

    fn filter_users(&mut self, count: i32) -> (r: Result<Vec<User>, Error>)
        ensures
            r is Ok,
    {
        let ghost m = self.store_model();
        let k: usize = if count < 0 {
            0
        } else if (count as usize) < self.users.len() {
            count as usize
        } else {
            self.users.len()
        };
        let mut out: Vec<User> = Vec::new();
        let mut i: usize = 0;
        while i < k
            invariant
                i <= k,
                k <= self.users@.len(),
                m == self.store_model(),
                m == old(self).store_model(),
                out@.len() == i,
                forall|j: int| 0 <= j < i ==> #[trigger] out@[j]@ == m.users[j],
            decreases k - i,
        {
            out.push(self.users[i].duplicate());
            i = i + 1;
        }
        proof {
            assert(users_view(out@) =~= m.users.take(k as int));
        }
        Ok(out)
    }

    fn update_user(&mut self, id: i32, email: Option<&str>, pocket_access_token: Option<&str>) -> (r:
        Result<(), Error>)
        ensures
            r is Ok <==> find_user_idx(old(self).store_model().users, id as int) >= 0,
            r matches Err(e) ==> e is NotFound,
    {
        let ghost m = self.store_model();
        let ghost email_v: Option<Seq<char>> = match email {
            Some(e) => Some(e@),
            None => None,
        };
        let ghost token_v: Option<Seq<char>> = match pocket_access_token {
            Some(t) => Some(t@),
            None => None,
        };
        let mut out: Vec<User> = Vec::new();
        let mut found = false;
        let mut i: usize = 0;
        while i < self.users.len()
            invariant
                i <= self.users@.len(),
                m == self.store_model(),
                m == old(self).store_model(),
                email_v == (match email {
                    Some(e) => Some(e@),
                    None => None::<Seq<char>>,
                }),
                token_v == (match pocket_access_token {
                    Some(t) => Some(t@),
                    None => None::<Seq<char>>,
                }),
                out@.len() == i,
                forall|j: int| 0 <= j < i ==> #[trigger] out@[j]@ == set_user_fields(
                    m.users,
                    id as int,
                    email_v,
                    token_v,
                )[j],
                found ==> exists|j: int| 0 <= j < i && (#[trigger] m.users[j]).id == id as int,
                !found ==> forall|j: int| 0 <= j < i ==> (#[trigger] m.users[j]).id != id as int,
            decreases self.users@.len() - i,
        {
            let u = &self.users[i];
            if u.id == id {
                let new_email: String = match email {
                    Some(e) => e.to_owned(),
                    None => u.email.clone(),
                };
                let new_token: Option<String> = match pocket_access_token {
                    Some(t) => Some(t.to_owned()),
                    None => clone_opt_string(&u.pocket_access_token),
                };
                out.push(
                    User {
                        id: u.id,
                        email: new_email,
                        pocket_access_token: new_token,
                        last_pocket_sync_time: u.last_pocket_sync_time,
                    },
                );
                found = true;
            } else {
                out.push(u.duplicate());
            }
            proof {
                assert(self.users@[i as int]@ == m.users[i as int]);
                assert(out@[i as int]@ == set_user_fields(m.users, id as int, email_v, token_v)[i as int]);
            }
            i = i + 1;
        }
        if !found {
            proof {
                lemma_find_user_at(m.users, id as int, m.users.len() as int);
            }
            return Err(Error::NotFound(String::from_str("user does not exist")));
        }
        self.users = out;
        proof {
            let ghost j = choose|j: int| 0 <= j < m.users.len() && (#[trigger] m.users[j]).id
                == id as int;
            lemma_find_user_props(m.users, id as int);
            if find_user_idx(m.users, id as int) == -1 {
                assert(m.users[j].id != id as int);
                assert(false);
            }
            assert(users_view(self.users@) =~= set_user_fields(m.users, id as int, email_v, token_v));
            assert(self.store_model() =~= (StoreModel {
                users: set_user_fields(m.users, id as int, email_v, token_v),
                ..m
            }));
        }
        Ok(())
    }

    fn delete_user(&mut self, id: i32) -> (r: Result<(), Error>)
        ensures
            r is Ok <==> find_user_idx(old(self).store_model().users, id as int) >= 0,
            r matches Err(e) ==> e is NotFound,
    {
        let ghost m = self.store_model();
        let mut out: Vec<User> = Vec::new();
        let mut found = false;
        let mut i: usize = 0;
        while i < self.users.len()
            invariant
                i <= self.users@.len(),
                m == self.store_model(),
                m == old(self).store_model(),
                users_view(out@) == delete_user_rows(m.users.subrange(0, i as int), id as int),
                found ==> exists|j: int| 0 <= j < i && (#[trigger] m.users[j]).id == id as int,
                !found ==> forall|j: int| 0 <= j < i ==> (#[trigger] m.users[j]).id != id as int,
            decreases self.users@.len() - i,
        {
            let ghost prefix = m.users.subrange(0, i as int);
            let ghost ext = m.users.subrange(0, i + 1);
            let u = &self.users[i];
            if u.id == id {
                found = true;
            } else {
                out.push(u.duplicate());
            }
            proof {
                assert(ext.drop_last() =~= prefix);
                assert(ext.last() == m.users[i as int]);
                assert(users_view(out@) =~= delete_user_rows(ext, id as int));
            }
            i = i + 1;
        }
        if !found {
            proof {
                lemma_find_user_at(m.users, id as int, m.users.len() as int);
            }
            return Err(Error::NotFound(String::from_str("user does not exist")));
        }
        self.users = out;
        proof {
            let ghost j = choose|j: int| 0 <= j < m.users.len() && (#[trigger] m.users[j]).id
                == id as int;
            lemma_find_user_props(m.users, id as int);
            if find_user_idx(m.users, id as int) == -1 {
                assert(m.users[j].id != id as int);
                assert(false);
            }
            assert(m.users.subrange(0, m.users.len() as int) =~= m.users);
            assert(self.store_model() =~= (StoreModel {
                users: delete_user_rows(m.users, id as int),
                ..m
            }));
        }
        Ok(())
    }

    fn delete_all_users(&mut self) -> (r: Result<(), Error>)
        ensures
            r is Ok,
    {
        let ghost m = self.store_model();
        self.users = Vec::new();
        proof {
            assert(users_view(self.users@) =~= Seq::<UserModel>::empty());
            assert(self.store_model() =~= (StoreModel { users: Seq::<UserModel>::empty(), ..m }));
        }
        Ok(())
    }
}

/// An item of this user found at any index appears in the user's item list.
proof fn lemma_user_items_contains(items: Seq<ItemModel>, user_id: int, j: int)
    requires
        0 <= j < items.len(),
        items[j].user_id == user_id,
    ensures
        user_items(items, user_id).contains(items[j]),
    decreases items.len(),
{
    let r = user_items(items, user_id);
    if j == items.len() - 1 {
        assert(r == user_items(items.drop_last(), user_id).push(items.last()));
        assert(r[r.len() - 1] == items[j]);
    } else {
        let d = items.drop_last();
        assert(d[j] == items[j]);
        lemma_user_items_contains(d, user_id, j);
        let rd = user_items(d, user_id);
        let k = choose|k: int| 0 <= k < rd.len() && rd[k] == d[j];
        if items.last().user_id == user_id {
            assert(r == rd.push(items.last()));
            assert(r[k] == items[j]);
        } else {
            assert(r == rd);
        }
    }
}

/// A user with no stored rows has an empty item list.
proof fn lemma_user_items_absent(items: Seq<ItemModel>, user_id: int)
    requires
        forall|j: int| 0 <= j < items.len() ==> (#[trigger] items[j]).user_id != user_id,
    ensures
        user_items(items, user_id).len() == 0,
    decreases items.len(),
{
    if items.len() > 0 {
        let d = items.drop_last();
        assert(forall|j: int| 0 <= j < d.len() ==> d[j] == items[j]);
        lemma_user_items_absent(d, user_id);
    }
}


} // verus!
