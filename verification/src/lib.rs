//! Surfaces items from a user's remote "saved articles" collection based on
//! trending headlines.
//!
//! The crate verifies the synchronization and relevance engine: the paginated
//! sync protocol that merges a remote feed into local storage, and the
//! term-weighted relevance search over stored items. Network and terminal
//! front ends sit outside the library and only call its operations.

use vstd::prelude::*;

pub mod config;
pub mod data_store;
pub mod email;
pub mod encoding;
pub mod error;
pub mod order;
pub mod pocket;
pub mod relevance;
pub mod trends;
pub mod util;

use crate::data_store::{
    apply_delete, apply_set_watermark, apply_upsert, find_item_by_id_idx, find_user_idx, DataStore,
    StoreModel, UpsertModel, UpsertSavedItem,
};
use crate::error::Error;
use crate::pocket::{
    PageModel, PocketItem, PocketItemId, PocketItemModel, PocketPage, PocketRetrieveItemState,
    PocketRetrieveQuery, QueryModel, ITEMS_PER_PAGE,
};

verus! {

// ---------------------------------------------------------------------------
// The remote item client port
// ---------------------------------------------------------------------------
/// The state-changing actions the remote service accepts.
#[derive(Clone, Copy, Debug, PartialEq, Eq, Structural)]
pub enum RemoteActionKind {
    Archive,
    Delete,
    Favorite,
}

/// The remote item client as the engine sees it: a session serving a fixed
/// sequence of pages one retrieve at a time, and accepting modify actions.
///
/// `pages()` is the feed this session serves and `served()` how many pages
/// of it were already handed out; `queries()` records every retrieve query
/// issued and `actions()` the modify actions the remote accepted. The
/// scripted client below implements the port in full; a network-backed
/// client may stand behind the same contract.
pub trait RemoteItemClient {
    /// The pages this session serves, in order; a client that does not
    /// refine the model serves nothing.
    open spec fn pages(&self) -> Seq<PageModel> {
        Seq::empty()
    }

    /// How many pages were already served.
    open spec fn served(&self) -> int {
        0
    }

    /// The modify actions the remote accepted so far, with their item ids.
    open spec fn actions(&self) -> Seq<(RemoteActionKind, Seq<char>)> {
        Seq::empty()
    }

    /// The retrieve queries issued to this session so far, in order.
    open spec fn queries(&self) -> Seq<QueryModel> {
        Seq::empty()
    }

    /// Fetches the next page of the session.
    fn retrieve(&mut self, query: &PocketRetrieveQuery) -> (r: Result<PocketPage, Error>)
        ensures
            final(self).pages() == old(self).pages(),
            final(self).actions() == old(self).actions(),
            final(self).queries() == old(self).queries().push(query@),
            r matches Ok(page) ==> {
                &&& 0 <= old(self).served() < old(self).pages().len()
                &&& page@ == old(self).pages()[old(self).served()]
                &&& final(self).served() == old(self).served() + 1
            },
            r is Err ==> final(self).served() == old(self).served(),
    ;

    /// Archives the item with this remote id.
    fn archive(&mut self, item_id: &PocketItemId) -> (r: Result<(), Error>)
        ensures
            final(self).pages() == old(self).pages(),
            final(self).served() == old(self).served(),
            final(self).queries() == old(self).queries(),
            r is Ok ==> final(self).actions() == old(self).actions().push(
                (RemoteActionKind::Archive, item_id@),
            ),
            r is Err ==> final(self).actions() == old(self).actions(),
    ;

    /// Deletes the item with this remote id.
    fn delete(&mut self, item_id: &PocketItemId) -> (r: Result<(), Error>)
        ensures
            final(self).pages() == old(self).pages(),
            final(self).served() == old(self).served(),
            final(self).queries() == old(self).queries(),
            r is Ok ==> final(self).actions() == old(self).actions().push(
                (RemoteActionKind::Delete, item_id@),
            ),
            r is Err ==> final(self).actions() == old(self).actions(),
    ;

    /// Favorites the item with this remote id.
    fn favorite(&mut self, item_id: &PocketItemId) -> (r: Result<(), Error>)
        ensures
            final(self).pages() == old(self).pages(),
            final(self).served() == old(self).served(),
            final(self).queries() == old(self).queries(),
            r is Ok ==> final(self).actions() == old(self).actions().push(
                (RemoteActionKind::Favorite, item_id@),
            ),
            r is Err ==> final(self).actions() == old(self).actions(),
    ;
}

/// A remote item client that serves a fixed script of pages: the verified
/// reference implementation of the port, used wherever no network exists.
#[derive(Debug)]
pub struct ScriptedRemote {
    script: Vec<PocketPage>,
    cursor: usize,
    log: Vec<(RemoteActionKind, PocketItemId)>,
    qlog: Vec<PocketRetrieveQuery>,
}

impl ScriptedRemote {
    /// A session that will serve exactly these pages, in order.
    pub fn new(script: Vec<PocketPage>) -> (r: ScriptedRemote)
        ensures
            r.pages() == script@.map_values(|p: PocketPage| p@),
            r.served() == 0,
            r.actions() == Seq::<(RemoteActionKind, Seq<char>)>::empty(),
            r.queries() == Seq::<QueryModel>::empty(),
    {
        let r = ScriptedRemote { script, cursor: 0, log: Vec::new(), qlog: Vec::new() };
        proof {
            assert(r.actions() =~= Seq::<(RemoteActionKind, Seq<char>)>::empty());
            assert(r.queries() =~= Seq::<QueryModel>::empty());
        }
        r
    }
}

impl RemoteItemClient for ScriptedRemote {
    closed spec fn pages(&self) -> Seq<PageModel> {
        self.script@.map_values(|p: PocketPage| p@)
    }

    closed spec fn served(&self) -> int {
        self.cursor as int
    }

    closed spec fn actions(&self) -> Seq<(RemoteActionKind, Seq<char>)> {
        self.log@.map_values(|a: (RemoteActionKind, PocketItemId)| (a.0, a.1@))
    }

    closed spec fn queries(&self) -> Seq<QueryModel> {
        self.qlog@.map_values(|q: PocketRetrieveQuery| q@)
    }

    fn retrieve(&mut self, query: &PocketRetrieveQuery) -> (r: Result<PocketPage, Error>) {
        let ghost before = self.queries();
        self.qlog.push(query.duplicate());
        proof {
            assert(self.queries() =~= before.push(query@));
        }
        if self.cursor < self.script.len() {
            let page = self.script[self.cursor].duplicate();
            self.cursor = self.cursor + 1;
            Ok(page)
        } else {
            Err(Error::TransportExhausted)
        }
    }

    fn archive(&mut self, item_id: &PocketItemId) -> (r: Result<(), Error>) {
        let ghost before = self.actions();
        self.log.push((RemoteActionKind::Archive, PocketItemId(item_id.0.clone())));
        proof {
            assert(self.actions() =~= before.push((RemoteActionKind::Archive, item_id@)));
        }
        Ok(())
    }

    fn delete(&mut self, item_id: &PocketItemId) -> (r: Result<(), Error>) {
        let ghost before = self.actions();
        self.log.push((RemoteActionKind::Delete, PocketItemId(item_id.0.clone())));
        proof {
            assert(self.actions() =~= before.push((RemoteActionKind::Delete, item_id@)));
        }
        Ok(())
    }

    fn favorite(&mut self, item_id: &PocketItemId) -> (r: Result<(), Error>) {
        let ghost before = self.actions();
        self.log.push((RemoteActionKind::Favorite, PocketItemId(item_id.0.clone())));
        proof {
            assert(self.actions() =~= before.push((RemoteActionKind::Favorite, item_id@)));
        }
        Ok(())
    }
}

// ---------------------------------------------------------------------------
// Reconciliation, specified
// ---------------------------------------------------------------------------
/// Reconciling one normalized item: a live record is upserted, a removal
/// marker deletes the local row if it exists.
pub open spec fn apply_item(m: StoreModel, user_id: int, it: PocketItemModel) -> StoreModel {
    match it {
        PocketItemModel::Unread { id, title, excerpt, url, time_added } => apply_upsert(
            m,
            UpsertModel {
                user_id: user_id,
                pocket_id: id,
                title: title,
                excerpt: excerpt,
                url: url,
                time_added: time_added,
            },
        ),
        PocketItemModel::Removed { id, .. } => apply_delete(m, user_id, id),
    }
}

/// Reconciling the items of one page, first to last.
pub open spec fn apply_items(m: StoreModel, user_id: int, items: Seq<PocketItemModel>) -> StoreModel
    decreases items.len(),
{
    if items.len() == 0 {
        m
    } else {
        apply_item(apply_items(m, user_id, items.drop_last()), user_id, items.last())
    }
}

/// Reconciling a run of pages, first to last.
pub open spec fn apply_pages(m: StoreModel, user_id: int, pages: Seq<PageModel>) -> StoreModel
    decreases pages.len(),
{
    if pages.len() == 0 {
        m
    } else {
        apply_items(apply_pages(m, user_id, pages.drop_last()), user_id, pages.last().items)
    }
}

/// Reconciliation never touches the user rows.
pub proof fn lemma_apply_items_users(m: StoreModel, user_id: int, items: Seq<PocketItemModel>)
    ensures
        apply_items(m, user_id, items).users == m.users,
    decreases items.len(),
{
    if items.len() > 0 {
        lemma_apply_items_users(m, user_id, items.drop_last());
    }
}

/// Reconciling pages never touches the user rows either.
pub proof fn lemma_apply_pages_users(m: StoreModel, user_id: int, pages: Seq<PageModel>)
    ensures
        apply_pages(m, user_id, pages).users == m.users,
    decreases pages.len(),
{
    if pages.len() > 0 {
        lemma_apply_pages_users(m, user_id, pages.drop_last());
        lemma_apply_items_users(
            apply_pages(m, user_id, pages.drop_last()),
            user_id,
            pages.last().items,
        );
    }
}

/// Applying a run of pages is applying the first page, then the rest.
pub proof fn lemma_apply_pages_cons(m: StoreModel, user_id: int, pages: Seq<PageModel>)
    requires
        pages.len() > 0,
    ensures
        apply_pages(m, user_id, pages) == apply_pages(
            apply_items(m, user_id, pages[0].items),
            user_id,
            pages.drop_first(),
        ),
    decreases pages.len(),
{
    let x = apply_items(m, user_id, pages[0].items);
    if pages.len() == 1 {
        assert(pages.drop_last() =~= Seq::<PageModel>::empty());
        assert(pages.drop_first() =~= Seq::<PageModel>::empty());
        assert(pages.last() == pages[0]);
        assert(apply_pages(m, user_id, Seq::<PageModel>::empty()) == m);
        assert(apply_pages(m, user_id, pages) == apply_items(
            apply_pages(m, user_id, pages.drop_last()),
            user_id,
            pages.last().items,
        ));
        assert(apply_pages(m, user_id, pages) == apply_items(m, user_id, pages[0].items));
        assert(apply_pages(x, user_id, pages.drop_first()) == x);
    } else {
        let d = pages.drop_last();
        let df = pages.drop_first();
        lemma_apply_pages_cons(m, user_id, d);
        assert(d[0] == pages[0]);
        assert(d.drop_first() =~= df.drop_last());
        assert(df.last() == pages.last());
        assert(df.len() > 0);
        assert(apply_pages(m, user_id, pages) == apply_items(
            apply_pages(m, user_id, d),
            user_id,
            pages.last().items,
        ));
        assert(apply_pages(m, user_id, d) == apply_pages(x, user_id, df.drop_last()));
        assert(apply_pages(x, user_id, df) == apply_items(
            apply_pages(x, user_id, df.drop_last()),
            user_id,
            df.last().items,
        ));
    }
}

/// The number of items held by the `k` pages starting at `s0`.
pub open spec fn items_before(pages: Seq<PageModel>, s0: int, k: int) -> int
    decreases k,
{
    if k <= 0 {
        0
    } else {
        items_before(pages, s0, k - 1) + pages[s0 + k - 1].items.len()
    }
}

/// The items served by pages `s0 .. s1`, concatenated in order.
pub open spec fn run_items(pages: Seq<PageModel>, s0: int, s1: int) -> Seq<PocketItemModel>
    decreases s1 - s0,
{
    if s1 <= s0 {
        Seq::empty()
    } else {
        run_items(pages, s0, s1 - 1) + pages[s1 - 1].items
    }
}

/// The log `q1` begins with the log `q0`.
pub open spec fn extends_queries(q0: Seq<QueryModel>, q1: Seq<QueryModel>) -> bool {
    q0.len() <= q1.len() && q1.subrange(0, q0.len() as int) == q0
}

/// The entries the log `q1` added after `q0`.
pub open spec fn new_queries(q0: Seq<QueryModel>, q1: Seq<QueryModel>) -> Seq<QueryModel> {
    q1.subrange(q0.len() as int, q1.len() as int)
}

/// What every retrieve of one sync run asks for: scope `all` (so removal
/// markers are included), the fixed page size, no search text, the seeding
/// watermark of the run, and an offset that advances past exactly the items
/// the earlier queries of the run returned.
pub open spec fn run_queries_ok(
    qs: Seq<QueryModel>,
    pages: Seq<PageModel>,
    s0: int,
    base: int,
    since: Option<i64>,
) -> bool {
    forall|k: int|
        0 <= k < qs.len() ==> {
            let q = #[trigger] qs[k];
            &&& q.state == Some(PocketRetrieveItemState::All)
            &&& q.search is None
            &&& q.count == Some(ITEMS_PER_PAGE)
            &&& q.since == since
            &&& (q.offset matches Some(o) && o as int == base + items_before(pages, s0, k))
        }
}

/// The watermark recorded on the user's row, if the user exists.
pub open spec fn stored_watermark(m: StoreModel, user_id: int) -> Option<i64> {
    let f = find_user_idx(m.users, user_id);
    if f >= 0 {
        m.users[f].last_pocket_sync_time
    } else {
        None
    }
}

/// Splitting a count of items at the first page.
pub proof fn lemma_items_before_cons(pages: Seq<PageModel>, s0: int, k: int)
    requires
        k >= 0,
    ensures
        items_before(pages, s0, k + 1) == pages[s0].items.len() + items_before(pages, s0 + 1, k),
    decreases k,
{
    if k == 0 {
        assert(items_before(pages, s0, 1) == items_before(pages, s0, 0)
            + pages[s0].items.len());
        assert(items_before(pages, s0, 0) == 0);
        assert(items_before(pages, s0 + 1, 0) == 0);
    } else {
        lemma_items_before_cons(pages, s0, k - 1);
        assert(items_before(pages, s0, k + 1) == items_before(pages, s0, k)
            + pages[s0 + k].items.len());
        assert(items_before(pages, s0 + 1, k) == items_before(pages, s0 + 1, k - 1)
            + pages[s0 + k].items.len());
    }
}

/// Splitting the served items at the first page.
pub proof fn lemma_run_items_cons(pages: Seq<PageModel>, s0: int, s1: int)
    requires
        s0 < s1,
    ensures
        run_items(pages, s0, s1) == pages[s0].items + run_items(pages, s0 + 1, s1),
    decreases s1 - s0,
{
    if s1 - s0 == 1 {
        assert(run_items(pages, s0, s0) =~= Seq::<PocketItemModel>::empty());
        assert(run_items(pages, s0 + 1, s1) =~= Seq::<PocketItemModel>::empty());
        assert(pages[s0].items + run_items(pages, s0 + 1, s1) =~= pages[s0].items);
    } else {
        lemma_run_items_cons(pages, s0, s1 - 1);
        assert(run_items(pages, s0, s1) == run_items(pages, s0, s1 - 1) + pages[s1 - 1].items);
        assert((pages[s0].items + run_items(pages, s0 + 1, s1 - 1)) + pages[s1 - 1].items
            =~= pages[s0].items + run_items(pages, s0 + 1, s1));
    }
}

/// Reconciling a concatenation is reconciling the parts in turn.
pub proof fn lemma_apply_items_concat(
    m: StoreModel,
    user_id: int,
    a: Seq<PocketItemModel>,
    b: Seq<PocketItemModel>,
)
    ensures
        apply_items(m, user_id, a + b) == apply_items(apply_items(m, user_id, a), user_id, b),
    decreases b.len(),
{
    if b.len() == 0 {
        assert(a + b =~= a);
    } else {
        lemma_apply_items_concat(m, user_id, a, b.drop_last());
        assert((a + b).drop_last() =~= a + b.drop_last());
        assert((a + b).last() == b.last());
    }
}

/// Reconciling a run of pages is reconciling its items in order.
pub proof fn lemma_apply_pages_as_items(m: StoreModel, user_id: int, pages: Seq<PageModel>, s0: int, s1: int)
    requires
        0 <= s0 <= s1 <= pages.len(),
    ensures
        apply_pages(m, user_id, pages.subrange(s0, s1)) == apply_items(
            m,
            user_id,
            run_items(pages, s0, s1),
        ),
    decreases s1 - s0,
{
    if s1 == s0 {
        assert(pages.subrange(s0, s1) =~= Seq::<PageModel>::empty());
    } else {
        lemma_apply_pages_as_items(m, user_id, pages, s0, s1 - 1);
        assert(pages.subrange(s0, s1).drop_last() =~= pages.subrange(s0, s1 - 1));
        assert(pages.subrange(s0, s1).last() == pages[s1 - 1]);
        lemma_apply_items_concat(m, user_id, run_items(pages, s0, s1 - 1), pages[s1 - 1].items);
    }
}

/// One recorded query with the run's fields is a well-formed run of one.
proof fn lemma_single_query_run(
    qs0: Seq<QueryModel>,
    q: QueryModel,
    pages: Seq<PageModel>,
    s0: int,
    base: int,
    since: Option<i64>,
)
    requires
        q.state == Some(PocketRetrieveItemState::All),
        q.search is None,
        q.count == Some(ITEMS_PER_PAGE),
        q.since == since,
        q.offset matches Some(o) && o as int == base,
    ensures
        extends_queries(qs0, qs0.push(q)),
        new_queries(qs0, qs0.push(q)) =~= seq![q],
        run_queries_ok(seq![q], pages, s0, base, since),
{
    assert(qs0.push(q).subrange(0, qs0.len() as int) =~= qs0);
    assert(items_before(pages, s0, 0) == 0);
    assert forall|k: int| 0 <= k < seq![q].len() implies {
        let qk = #[trigger] seq![q][k];
        &&& qk.state == Some(PocketRetrieveItemState::All)
        &&& qk.search is None
        &&& qk.count == Some(ITEMS_PER_PAGE)
        &&& qk.since == since
        &&& (qk.offset matches Some(o) && o as int == base + items_before(pages, s0, k))
    } by {
        assert(seq![q][k] == q);
    }
}

/// A run of one query followed by a run over the remaining pages is a run
/// over all of them.
proof fn lemma_queries_chain(
    qs0: Seq<QueryModel>,
    q: QueryModel,
    q_fin: Seq<QueryModel>,
    pages: Seq<PageModel>,
    s0: int,
    base: int,
    n: int,
    since: Option<i64>,
)
    requires
        q.state == Some(PocketRetrieveItemState::All),
        q.search is None,
        q.count == Some(ITEMS_PER_PAGE),
        q.since == since,
        q.offset matches Some(o) && o as int == base,
        0 <= s0,
        n == pages[s0].items.len(),
        extends_queries(qs0.push(q), q_fin),
        run_queries_ok(new_queries(qs0.push(q), q_fin), pages, s0 + 1, base + n, since),
    ensures
        extends_queries(qs0, q_fin),
        run_queries_ok(new_queries(qs0, q_fin), pages, s0, base, since),
{
    let qmid = qs0.push(q);
    assert(q_fin.subrange(0, qs0.len() as int) =~= qs0) by {
        assert(forall|i: int|
            0 <= i < qmid.len() ==> q_fin.subrange(0, qmid.len() as int)[i] == #[trigger] q_fin[i]);
    }
    let delta = new_queries(qs0, q_fin);
    let drec = new_queries(qmid, q_fin);
    assert(q_fin[qs0.len() as int] == q) by {
        assert(q_fin.subrange(0, qmid.len() as int)[qs0.len() as int] == q_fin[qs0.len() as int]);
    }
    assert forall|k: int| 0 <= k < delta.len() implies {
        let qk = #[trigger] delta[k];
        &&& qk.state == Some(PocketRetrieveItemState::All)
        &&& qk.search is None
        &&& qk.count == Some(ITEMS_PER_PAGE)
        &&& qk.since == since
        &&& (qk.offset matches Some(o) && o as int == base + items_before(pages, s0, k))
    } by {
        if k == 0 {
            assert(delta[0] == q_fin[qs0.len() as int]);
            assert(items_before(pages, s0, 0) == 0);
        } else {
            assert(delta[k] == drec[k - 1]);
            assert(0 <= k - 1 < drec.len());
            lemma_items_before_cons(pages, s0, k - 1);
        }
    }
}

/// A page fully reconciled followed by a prefix of the remaining run is a
/// prefix of the whole run.
proof fn lemma_err_items_chain(
    m0: StoreModel,
    user_id: int,
    pages: Seq<PageModel>,
    s0: int,
    s1: int,
    m_mid: StoreModel,
    m_fin: StoreModel,
)
    requires
        s0 + 1 <= s1,
        m_mid == apply_items(m0, user_id, pages[s0].items),
        exists|m: int|
            #![trigger run_items(pages, s0 + 1, s1).take(m)]
            0 <= m <= run_items(pages, s0 + 1, s1).len() && m_fin == apply_items(
                m_mid,
                user_id,
                run_items(pages, s0 + 1, s1).take(m),
            ),
    ensures
        exists|m: int|
            #![trigger run_items(pages, s0, s1).take(m)]
            0 <= m <= run_items(pages, s0, s1).len() && m_fin == apply_items(
                m0,
                user_id,
                run_items(pages, s0, s1).take(m),
            ),
{
    let mrec = choose|m: int|
        #![trigger run_items(pages, s0 + 1, s1).take(m)]
        0 <= m <= run_items(pages, s0 + 1, s1).len() && m_fin == apply_items(
            m_mid,
            user_id,
            run_items(pages, s0 + 1, s1).take(m),
        );
    let a = pages[s0].items;
    let b = run_items(pages, s0 + 1, s1);
    lemma_run_items_cons(pages, s0, s1);
    assert((a + b).take(a.len() + mrec) =~= a + b.take(mrec));
    lemma_apply_items_concat(m0, user_id, a, b.take(mrec));
    let mtot = a.len() + mrec;
    assert(run_items(pages, s0, s1).take(mtot as int) == (a + b).take(a.len() + mrec));
    assert(m_fin == apply_items(m0, user_id, run_items(pages, s0, s1).take(mtot as int)));
}

/// The pages a successful sync consumed: at least one, every page before the
/// last full (at least the requested page size), and the last one short.
pub open spec fn consumed_run(pages: Seq<PageModel>, s0: int, s1: int) -> bool {
    &&& 0 <= s0 < s1 <= pages.len()
    &&& forall|j: int| s0 <= j < s1 - 1 ==> (#[trigger] pages[j]).items.len() >= ITEMS_PER_PAGE
    &&& pages[s1 - 1].items.len() < ITEMS_PER_PAGE
}

/// The length of a consumed run is determined by the feed alone: the loop
/// stops at the first short page after where it started, so two successful
/// runs from the same point consume exactly the same pages.
pub proof fn lemma_consumed_run_unique(pages: Seq<PageModel>, s0: int, s1a: int, s1b: int)
    requires
        consumed_run(pages, s0, s1a),
        consumed_run(pages, s0, s1b),
    ensures
        s1a == s1b,
{
    if s1a < s1b {
        assert(pages[s1a - 1].items.len() >= ITEMS_PER_PAGE);
    }
    if s1b < s1a {
        assert(pages[s1b - 1].items.len() >= ITEMS_PER_PAGE);
    }
}

/// What a successful sync call does to the store: every item of the consumed
/// run is reconciled in order, and then — only then — the user's watermark
/// becomes the watermark of the last page fetched.
pub open spec fn sync_effect(
    pages: Seq<PageModel>,
    s0: int,
    s1: int,
    m0: StoreModel,
    m1: StoreModel,
    user_id: int,
) -> bool {
    &&& consumed_run(pages, s0, s1)
    &&& m1 == apply_set_watermark(
        apply_pages(m0, user_id, pages.subrange(s0, s1)),
        user_id,
        Some(pages[s1 - 1].since),
    )
}


/// A run in which the remote was never called: the query log did not grow
/// and the store equals the empty prefix of an empty run.
proof fn lemma_archive_unmoved(
    qs0: Seq<QueryModel>,
    pages: Seq<PageModel>,
    s0: int,
    m0: StoreModel,
    user_id: int,
)
    ensures
        extends_queries(qs0, qs0),
        new_queries(qs0, qs0) =~= Seq::<QueryModel>::empty(),
        run_items(pages, s0, s0).take(0) =~= Seq::<PocketItemModel>::empty(),
        m0 == apply_items(m0, user_id, run_items(pages, s0, s0).take(0)),
{
    assert(qs0.subrange(0, qs0.len() as int) =~= qs0);
}

/// The same fact, under the name the delete path uses.
proof fn lemma_delete_unmoved(
    qs0: Seq<QueryModel>,
    pages: Seq<PageModel>,
    s0: int,
    m0: StoreModel,
    user_id: int,
)
    ensures
        extends_queries(qs0, qs0),
        new_queries(qs0, qs0) =~= Seq::<QueryModel>::empty(),
        run_items(pages, s0, s0).take(0) =~= Seq::<PocketItemModel>::empty(),
        m0 == apply_items(m0, user_id, run_items(pages, s0, s0).take(0)),
{
    lemma_archive_unmoved(qs0, pages, s0, m0, user_id);
}

// ---------------------------------------------------------------------------
// The synchronization engine
// ---------------------------------------------------------------------------
/// Brings a user's local saved items into agreement with the remote
/// collection, page by page, and records the new watermark exactly once, at
/// the end of a fully applied run.
#[derive(Debug)]
pub struct SavedItemMediator<R: RemoteItemClient, S: DataStore> {
    pub pocket: R,
    pub data_store: S,
}

impl<R: RemoteItemClient, S: DataStore> SavedItemMediator<R, S> {
    /// An engine over this remote session and store.
    pub fn new(pocket: R, data_store: S) -> (r: Self)
        ensures
            r.pocket == pocket,
            r.data_store == data_store,
    {
        SavedItemMediator { pocket, data_store }
    }

    /// Fetches one page at `offset`, reconciles every item of it, and either
    /// finishes (short page) or continues at the next offset.
    fn sync_pages(&mut self, user_id: i32, last_sync_time: Option<i64>, offset: u32) -> (r: Result<
        i64,
        Error,
    >)
        ensures
            final(self).pocket.pages() == old(self).pocket.pages(),
            final(self).pocket.actions() == old(self).pocket.actions(),
            final(self).pocket.served() >= old(self).pocket.served(),
            extends_queries(old(self).pocket.queries(), final(self).pocket.queries()),
            run_queries_ok(
                new_queries(old(self).pocket.queries(), final(self).pocket.queries()),
                old(self).pocket.pages(),
                old(self).pocket.served(),
                offset as int,
                last_sync_time,
            ),
            r is Ok ==> final(self).pocket.queries().len() - old(self).pocket.queries().len()
                == final(self).pocket.served() - old(self).pocket.served(),
            r is Err ==> final(self).pocket.served() - old(self).pocket.served() <= final(self).pocket.queries().len() - old(self).pocket.queries().len() <= final(self).pocket.served() - old(self).pocket.served() + 1,
            r matches Ok(w) ==> {
                let pages = old(self).pocket.pages();
                let s0 = old(self).pocket.served();
                let s1 = final(self).pocket.served();
                &&& consumed_run(pages, s0, s1)
                &&& final(self).data_store.store_model() == apply_pages(
                    old(self).data_store.store_model(),
                    user_id as int,
                    pages.subrange(s0, s1),
                )
                &&& w == pages[s1 - 1].since
            },
            r is Err ==> final(self).data_store.store_model().users == old(
                self,
            ).data_store.store_model().users,
            (r is Err && final(self).pocket.served() == old(self).pocket.served())
                ==> final(self).data_store.store_model() == old(self).data_store.store_model(),
            r is Err ==> exists|m: int|
                #![trigger run_items(old(self).pocket.pages(), old(self).pocket.served(), final(self).pocket.served()).take(m)]
                0 <= m <= run_items(
                    old(self).pocket.pages(),
                    old(self).pocket.served(),
                    final(self).pocket.served(),
                ).len() && final(self).data_store.store_model() == apply_items(
                    old(self).data_store.store_model(),
                    user_id as int,
                    run_items(
                        old(self).pocket.pages(),
                        old(self).pocket.served(),
                        final(self).pocket.served(),
                    ).take(m),
                ),
        decreases old(self).pocket.pages().len() - old(self).pocket.served(),
    {
        let ghost pages = self.pocket.pages();
        let ghost s0 = self.pocket.served();
        let ghost m0 = self.data_store.store_model();
        let ghost qs0 = self.pocket.queries();
        let query = PocketRetrieveQuery {
            state: Some(PocketRetrieveItemState::All),
            search: None,
            count: Some(ITEMS_PER_PAGE),
            offset: Some(offset),
            since: last_sync_time,
        };
        proof {
            lemma_single_query_run(qs0, query@, pages, s0, offset as int, last_sync_time);
        }
        let page = match self.pocket.retrieve(&query) {
            Ok(p) => p,
            Err(e) => {
                proof {
                    assert(run_items(pages, s0, s0).take(0) =~= Seq::<PocketItemModel>::empty());
                    assert(self.data_store.store_model() == apply_items(
                        m0,
                        user_id as int,
                        run_items(pages, s0, s0).take(0),
                    ));
                }
                return Err(e);
            },
        };
        let n = page.items.len();
        let mut i: usize = 0;
        while i < page.items.len()
            invariant
                i <= page.items@.len(),
                pages == old(self).pocket.pages(),
                s0 == old(self).pocket.served(),
                qs0 == old(self).pocket.queries(),
                self.pocket.pages() == pages,
                self.pocket.served() == s0 + 1,
                self.pocket.actions() == old(self).pocket.actions(),
                self.pocket.queries() == qs0.push(query@),
                query@.state == Some(PocketRetrieveItemState::All),
                query@.search is None,
                query@.count == Some(ITEMS_PER_PAGE),
                query@.since == last_sync_time,
                query@.offset matches Some(o) && o as int == offset as int,
                0 <= s0 < pages.len(),
                page@ == pages[s0],
                self.data_store.store_model() == apply_items(
                    m0,
                    user_id as int,
                    page@.items.subrange(0, i as int),
                ),
                m0 == old(self).data_store.store_model(),
            decreases page.items@.len() - i,
        {
            let ghost m_pre = self.data_store.store_model();
            let ghost prefix = page@.items.subrange(0, i as int);
            let ghost ext = page@.items.subrange(0, i + 1);
            let step = match &page.items[i] {
                PocketItem::Unread { id, title, excerpt, url, time_added } => {
                    let upsert = UpsertSavedItem {
                        user_id,
                        pocket_id: PocketItemId(id.0.clone()),
                        title: title.clone(),
                        excerpt: excerpt.clone(),
                        url: url.clone(),
                        time_added: *time_added,
                    };
                    self.data_store.upsert_item(&upsert)
                },
                PocketItem::ArchivedOrDeleted { id, .. } => {
                    self.data_store.delete_item(user_id, id)
                },
            };
            match step {
                Ok(()) => {},
                Err(e) => {
                    proof {
                        lemma_apply_items_users(m0, user_id as int, prefix);
                        lemma_single_query_run(
                            qs0,
                            query@,
                            pages,
                            s0,
                            offset as int,
                            last_sync_time,
                        );
                        assert(run_items(pages, s0, s0 + 1) =~= pages[s0].items) by {
                            assert(run_items(pages, s0, s0) =~= Seq::<PocketItemModel>::empty());
                        }
                        assert(run_items(pages, s0, s0 + 1).take(i as int) =~= prefix);
                        assert(self.data_store.store_model() == apply_items(
                            m0,
                            user_id as int,
                            run_items(pages, s0, s0 + 1).take(i as int),
                        ));
                    }
                    return Err(e);
                },
            }
            proof {
                assert(ext.drop_last() =~= prefix);
                assert(ext.last() == page@.items[i as int]);
                assert(self.data_store.store_model() == apply_item(
                    m_pre,
                    user_id as int,
                    page@.items[i as int],
                ));
            }
            i = i + 1;
        }
        proof {
            assert(page@.items.subrange(0, page@.items.len() as int) =~= page@.items);
            lemma_apply_items_users(m0, user_id as int, page@.items);
            lemma_single_query_run(qs0, query@, pages, s0, offset as int, last_sync_time);
        }
        if n < ITEMS_PER_PAGE as usize {
            proof {
                let run1 = pages.subrange(s0, s0 + 1);
                assert(run1.drop_last() =~= Seq::<PageModel>::empty());
                assert(run1.last() == pages[s0]);
                assert(self.data_store.store_model() == apply_items(
                    m0,
                    user_id as int,
                    page@.items,
                ));
                assert(apply_pages(m0, user_id as int, run1.drop_last()) == m0);
                assert(run1.last().items == page@.items);
                assert(self.data_store.store_model() == apply_pages(m0, user_id as int, run1));
            }
            Ok(page.since)
        } else {
            if n > (u32::MAX - offset) as usize {
                proof {
                    let consumed = run_items(pages, s0, s0 + 1);
                    assert(consumed =~= pages[s0].items) by {
                        assert(run_items(pages, s0, s0) =~= Seq::<PocketItemModel>::empty());
                    }
                    assert(consumed.take(consumed.len() as int) =~= page@.items);
                    assert(self.data_store.store_model() == apply_items(
                        m0,
                        user_id as int,
                        consumed.take(consumed.len() as int),
                    ));
                }
                return Err(Error::InvalidArgument(String::from_str("page offset overflow")));
            }
            let next_offset = offset + n as u32;
            let ghost m_mid = self.data_store.store_model();
            let r = self.sync_pages(user_id, last_sync_time, next_offset);
            proof {
                assert(pages[s0].items.len() == n as int) by {
                    assert(page@ == pages[s0]);
                }
                lemma_queries_chain(
                    qs0,
                    query@,
                    self.pocket.queries(),
                    pages,
                    s0,
                    offset as int,
                    n as int,
                    last_sync_time,
                );
                if r is Ok {
                    let s1 = self.pocket.served();
                    let run = pages.subrange(s0, s1);
                    assert(run.len() > 0);
                    assert(run[0] == pages[s0]);
                    assert(run.drop_first() =~= pages.subrange(s0 + 1, s1));
                    lemma_apply_pages_cons(m0, user_id as int, run);
                    assert(apply_items(m0, user_id as int, run[0].items) == m_mid);
                    assert(self.data_store.store_model() == apply_pages(m0, user_id as int, run));
                    assert(consumed_run(pages, s0, s1));
                } else {
                    lemma_apply_items_users(m0, user_id as int, page@.items);
                    lemma_err_items_chain(
                        m0,
                        user_id as int,
                        pages,
                        s0,
                        self.pocket.served(),
                        m_mid,
                        self.data_store.store_model(),
                    );
                }
            }
            r
        }
    }

    /// One sync pass seeded with `last_sync_time`: reconcile every fetched
    /// page, then persist the final page's watermark.
    fn sync_impl(&mut self, user_id: i32, last_sync_time: Option<i64>) -> (r: Result<(), Error>)
        ensures
            final(self).pocket.pages() == old(self).pocket.pages(),
            final(self).pocket.actions() == old(self).pocket.actions(),
            final(self).pocket.served() >= old(self).pocket.served(),
            extends_queries(old(self).pocket.queries(), final(self).pocket.queries()),
            run_queries_ok(
                new_queries(old(self).pocket.queries(), final(self).pocket.queries()),
                old(self).pocket.pages(),
                old(self).pocket.served(),
                0,
                last_sync_time,
            ),
            r is Ok ==> final(self).pocket.queries().len() - old(self).pocket.queries().len()
                == final(self).pocket.served() - old(self).pocket.served(),
            r is Ok ==> sync_effect(
                old(self).pocket.pages(),
                old(self).pocket.served(),
                final(self).pocket.served(),
                old(self).data_store.store_model(),
                final(self).data_store.store_model(),
                user_id as int,
            ),
            r is Err ==> final(self).data_store.store_model().users == old(
                self,
            ).data_store.store_model().users,
            (r is Err && final(self).pocket.served() == old(self).pocket.served())
                ==> final(self).data_store.store_model() == old(self).data_store.store_model(),
            r is Err ==> exists|m: int|
                #![trigger run_items(old(self).pocket.pages(), old(self).pocket.served(), final(self).pocket.served()).take(m)]
                0 <= m <= run_items(
                    old(self).pocket.pages(),
                    old(self).pocket.served(),
                    final(self).pocket.served(),
                ).len() && final(self).data_store.store_model() == apply_items(
                    old(self).data_store.store_model(),
                    user_id as int,
                    run_items(
                        old(self).pocket.pages(),
                        old(self).pocket.served(),
                        final(self).pocket.served(),
                    ).take(m),
                ),
    {
        let ghost m0 = self.data_store.store_model();
        let ghost pages = self.pocket.pages();
        let ghost s0 = self.pocket.served();
        let new_last_sync_time = match self.sync_pages(user_id, last_sync_time, 0) {
            Ok(w) => w,
            Err(e) => {
                return Err(e);
            },
        };
        proof {
            lemma_apply_pages_users(
                m0,
                user_id as int,
                pages.subrange(s0, self.pocket.served()),
            );
            lemma_apply_pages_as_items(m0, user_id as int, pages, s0, self.pocket.served());
            let consumed = run_items(pages, s0, self.pocket.served());
            assert(consumed.take(consumed.len() as int) =~= consumed);
        }
        match self.data_store.update_user_last_pocket_sync_time(
            user_id,
            Some(new_last_sync_time),
        ) {
            Ok(()) => Ok(()),
            Err(e) => Err(e),
        }
    }

    /// Delta sync: every page is requested with scope `all`, the fixed page
    /// size, and `since` seeded from the user's recorded watermark (unset if
    /// the user never synced), offsets advancing past the items already
    /// returned; reconciles each page, then records the new watermark —
    /// exactly once, after every fetched page was applied.
    pub fn sync(&mut self, user_id: i32) -> (r: Result<(), Error>)
        ensures
            final(self).pocket.pages() == old(self).pocket.pages(),
            final(self).pocket.actions() == old(self).pocket.actions(),
            final(self).pocket.served() >= old(self).pocket.served(),
            extends_queries(old(self).pocket.queries(), final(self).pocket.queries()),
            run_queries_ok(
                new_queries(old(self).pocket.queries(), final(self).pocket.queries()),
                old(self).pocket.pages(),
                old(self).pocket.served(),
                0,
                stored_watermark(old(self).data_store.store_model(), user_id as int),
            ),
            r is Ok ==> final(self).pocket.queries().len() - old(self).pocket.queries().len()
                == final(self).pocket.served() - old(self).pocket.served(),
            r is Ok ==> sync_effect(
                old(self).pocket.pages(),
                old(self).pocket.served(),
                final(self).pocket.served(),
                old(self).data_store.store_model(),
                final(self).data_store.store_model(),
                user_id as int,
            ) && find_user_idx(old(self).data_store.store_model().users, user_id as int) >= 0,
            r is Err ==> final(self).data_store.store_model().users == old(
                self,
            ).data_store.store_model().users,
            (r is Err && final(self).pocket.served() == old(self).pocket.served())
                ==> final(self).data_store.store_model() == old(self).data_store.store_model(),
            r is Err ==> exists|m: int|
                #![trigger run_items(old(self).pocket.pages(), old(self).pocket.served(), final(self).pocket.served()).take(m)]
                0 <= m <= run_items(
                    old(self).pocket.pages(),
                    old(self).pocket.served(),
                    final(self).pocket.served(),
                ).len() && final(self).data_store.store_model() == apply_items(
                    old(self).data_store.store_model(),
                    user_id as int,
                    run_items(
                        old(self).pocket.pages(),
                        old(self).pocket.served(),
                        final(self).pocket.served(),
                    ).take(m),
                ),
    {
        let ghost pages = self.pocket.pages();
        let ghost s0 = self.pocket.served();
        let ghost m0 = self.data_store.store_model();
        let user = match self.data_store.get_user(user_id) {
            Ok(u) => u,
            Err(e) => {
                proof {
                    assert(new_queries(self.pocket.queries(), self.pocket.queries())
                        =~= Seq::<QueryModel>::empty());
                    assert(self.pocket.queries().subrange(
                        0,
                        self.pocket.queries().len() as int,
                    ) =~= self.pocket.queries());
                    assert(run_items(pages, s0, s0).take(0)
                        =~= Seq::<PocketItemModel>::empty());
                    assert(self.data_store.store_model() == apply_items(
                        m0,
                        user_id as int,
                        run_items(pages, s0, s0).take(0),
                    ));
                }
                return Err(e);
            },
        };
        let last_sync_time = user.last_pocket_sync_time();
        proof {
            assert(last_sync_time == stored_watermark(m0, user_id as int));
        }
        self.sync_impl(user_id, last_sync_time)
    }

    /// Full sync: as [`Self::sync`], but every page is requested with
    /// `since` unset, forcing the remote to return the entire collection;
    /// the new watermark is still recorded once at the end.
    pub fn sync_full(&mut self, user_id: i32) -> (r: Result<(), Error>)
        ensures
            final(self).pocket.pages() == old(self).pocket.pages(),
            final(self).pocket.actions() == old(self).pocket.actions(),
            final(self).pocket.served() >= old(self).pocket.served(),
            extends_queries(old(self).pocket.queries(), final(self).pocket.queries()),
            run_queries_ok(
                new_queries(old(self).pocket.queries(), final(self).pocket.queries()),
                old(self).pocket.pages(),
                old(self).pocket.served(),
                0,
                None,
            ),
            r is Ok ==> final(self).pocket.queries().len() - old(self).pocket.queries().len()
                == final(self).pocket.served() - old(self).pocket.served(),
            r is Ok ==> sync_effect(
                old(self).pocket.pages(),
                old(self).pocket.served(),
                final(self).pocket.served(),
                old(self).data_store.store_model(),
                final(self).data_store.store_model(),
                user_id as int,
            ),
            r is Err ==> final(self).data_store.store_model().users == old(
                self,
            ).data_store.store_model().users,
            (r is Err && final(self).pocket.served() == old(self).pocket.served())
                ==> final(self).data_store.store_model() == old(self).data_store.store_model(),
            r is Err ==> exists|m: int|
                #![trigger run_items(old(self).pocket.pages(), old(self).pocket.served(), final(self).pocket.served()).take(m)]
                0 <= m <= run_items(
                    old(self).pocket.pages(),
                    old(self).pocket.served(),
                    final(self).pocket.served(),
                ).len() && final(self).data_store.store_model() == apply_items(
                    old(self).data_store.store_model(),
                    user_id as int,
                    run_items(
                        old(self).pocket.pages(),
                        old(self).pocket.served(),
                        final(self).pocket.served(),
                    ).take(m),
                ),
    {
        self.sync_impl(user_id, None)
    }

    /// Marks the item read at the remote, then re-syncs local storage.
    pub fn archive(&mut self, user_id: i32, item_id: i32) -> (r: Result<(), Error>)
        ensures
            final(self).pocket.pages() == old(self).pocket.pages(),
            final(self).pocket.served() >= old(self).pocket.served(),
            extends_queries(old(self).pocket.queries(), final(self).pocket.queries()),
            run_queries_ok(
                new_queries(old(self).pocket.queries(), final(self).pocket.queries()),
                old(self).pocket.pages(),
                old(self).pocket.served(),
                0,
                stored_watermark(old(self).data_store.store_model(), user_id as int),
            ),
            r is Ok ==> {
                let f = find_item_by_id_idx(
                    old(self).data_store.store_model().items,
                    item_id as int,
                );
                &&& f >= 0
                &&& final(self).pocket.actions() == old(self).pocket.actions().push(
                    (
                        RemoteActionKind::Archive,
                        old(self).data_store.store_model().items[f].pocket_id,
                    ),
                )
                &&& sync_effect(
                    old(self).pocket.pages(),
                    old(self).pocket.served(),
                    final(self).pocket.served(),
                    old(self).data_store.store_model(),
                    final(self).data_store.store_model(),
                    user_id as int,
                )
            },
            find_item_by_id_idx(old(self).data_store.store_model().items, item_id as int) == -1
                ==> (r is Err && final(self).pocket.actions() == old(self).pocket.actions()
                && final(self).pocket.queries() == old(self).pocket.queries()
                && final(self).data_store.store_model() == old(self).data_store.store_model()
                && final(self).pocket.served() == old(self).pocket.served()),
            r is Err ==> (final(self).pocket.actions() == old(self).pocket.actions() || (
            find_item_by_id_idx(old(self).data_store.store_model().items, item_id as int) >= 0
                && final(self).pocket.actions() == old(self).pocket.actions().push(
                (
                    RemoteActionKind::Archive,
                    old(self).data_store.store_model().items[find_item_by_id_idx(
                        old(self).data_store.store_model().items,
                        item_id as int,
                    )].pocket_id,
                ),
            ))),
            r is Err ==> final(self).data_store.store_model().users == old(
                self,
            ).data_store.store_model().users,
            (r is Err && final(self).pocket.served() == old(self).pocket.served())
                ==> final(self).data_store.store_model() == old(self).data_store.store_model(),
            r is Err ==> exists|m: int|
                #![trigger run_items(old(self).pocket.pages(), old(self).pocket.served(), final(self).pocket.served()).take(m)]
                0 <= m <= run_items(
                    old(self).pocket.pages(),
                    old(self).pocket.served(),
                    final(self).pocket.served(),
                ).len() && final(self).data_store.store_model() == apply_items(
                    old(self).data_store.store_model(),
                    user_id as int,
                    run_items(
                        old(self).pocket.pages(),
                        old(self).pocket.served(),
                        final(self).pocket.served(),
                    ).take(m),
                ),
    {
        let ghost pages = self.pocket.pages();
        let ghost s0 = self.pocket.served();
        let ghost m0 = self.data_store.store_model();
        let ghost qs0 = self.pocket.queries();
        let item = match self.data_store.get_item(item_id) {
            Ok(Some(it)) => it,
            Ok(None) => {
                proof {
                    lemma_archive_unmoved(qs0, pages, s0, m0, user_id as int);
                }
                return Err(Error::NotFound(String::from_str("item does not exist")));
            },
            Err(e) => {
                proof {
                    lemma_archive_unmoved(qs0, pages, s0, m0, user_id as int);
                }
                return Err(e);
            },
        };
        let pid = item.pocket_id();
        match self.pocket.archive(&pid) {
            Ok(()) => {},
            Err(e) => {
                proof {
                    lemma_archive_unmoved(qs0, pages, s0, m0, user_id as int);
                }
                return Err(e);
            },
        }
        self.sync(user_id)
    }

    /// Deletes the item at the remote, then re-syncs local storage.
    pub fn delete(&mut self, user_id: i32, item_id: i32) -> (r: Result<(), Error>)
        ensures
            final(self).pocket.pages() == old(self).pocket.pages(),
            final(self).pocket.served() >= old(self).pocket.served(),
            extends_queries(old(self).pocket.queries(), final(self).pocket.queries()),
            run_queries_ok(
                new_queries(old(self).pocket.queries(), final(self).pocket.queries()),
                old(self).pocket.pages(),
                old(self).pocket.served(),
                0,
                stored_watermark(old(self).data_store.store_model(), user_id as int),
            ),
            r is Ok ==> {
                let f = find_item_by_id_idx(
                    old(self).data_store.store_model().items,
                    item_id as int,
                );
                &&& f >= 0
                &&& final(self).pocket.actions() == old(self).pocket.actions().push(
                    (
                        RemoteActionKind::Delete,
                        old(self).data_store.store_model().items[f].pocket_id,
                    ),
                )
                &&& sync_effect(
                    old(self).pocket.pages(),
                    old(self).pocket.served(),
                    final(self).pocket.served(),
                    old(self).data_store.store_model(),
                    final(self).data_store.store_model(),
                    user_id as int,
                )
            },
            find_item_by_id_idx(old(self).data_store.store_model().items, item_id as int) == -1
                ==> (r is Err && final(self).pocket.actions() == old(self).pocket.actions()
                && final(self).pocket.queries() == old(self).pocket.queries()
                && final(self).data_store.store_model() == old(self).data_store.store_model()
                && final(self).pocket.served() == old(self).pocket.served()),
            r is Err ==> (final(self).pocket.actions() == old(self).pocket.actions() || (
            find_item_by_id_idx(old(self).data_store.store_model().items, item_id as int) >= 0
                && final(self).pocket.actions() == old(self).pocket.actions().push(
                (
                    RemoteActionKind::Delete,
                    old(self).data_store.store_model().items[find_item_by_id_idx(
                        old(self).data_store.store_model().items,
                        item_id as int,
                    )].pocket_id,
                ),
            ))),
            r is Err ==> final(self).data_store.store_model().users == old(
                self,
            ).data_store.store_model().users,
            (r is Err && final(self).pocket.served() == old(self).pocket.served())
                ==> final(self).data_store.store_model() == old(self).data_store.store_model(),
            r is Err ==> exists|m: int|
                #![trigger run_items(old(self).pocket.pages(), old(self).pocket.served(), final(self).pocket.served()).take(m)]
                0 <= m <= run_items(
                    old(self).pocket.pages(),
                    old(self).pocket.served(),
                    final(self).pocket.served(),
                ).len() && final(self).data_store.store_model() == apply_items(
                    old(self).data_store.store_model(),
                    user_id as int,
                    run_items(
                        old(self).pocket.pages(),
                        old(self).pocket.served(),
                        final(self).pocket.served(),
                    ).take(m),
                ),
    {
        let ghost pages = self.pocket.pages();
        let ghost s0 = self.pocket.served();
        let ghost m0 = self.data_store.store_model();
        let ghost qs0 = self.pocket.queries();
        let item = match self.data_store.get_item(item_id) {
            Ok(Some(it)) => it,
            Ok(None) => {
                proof {
                    lemma_delete_unmoved(qs0, pages, s0, m0, user_id as int);
                }
                return Err(Error::NotFound(String::from_str("item does not exist")));
            },
            Err(e) => {
                proof {
                    lemma_delete_unmoved(qs0, pages, s0, m0, user_id as int);
                }
                return Err(e);
            },
        };
        let pid = item.pocket_id();
        match self.pocket.delete(&pid) {
            Ok(()) => {},
            Err(e) => {
                proof {
                    lemma_delete_unmoved(qs0, pages, s0, m0, user_id as int);
                }
                return Err(e);
            },
        }
        self.sync(user_id)
    }

    /// Favorites the item at the remote; there is no local state to re-sync.
    pub fn favorite(&mut self, item_id: i32) -> (r: Result<(), Error>)
        ensures
            final(self).pocket.pages() == old(self).pocket.pages(),
            final(self).pocket.served() == old(self).pocket.served(),
            final(self).pocket.queries() == old(self).pocket.queries(),
            final(self).data_store.store_model() == old(self).data_store.store_model(),
            find_item_by_id_idx(old(self).data_store.store_model().items, item_id as int) == -1
                ==> (r is Err && final(self).pocket.actions() == old(self).pocket.actions()),
            r is Ok ==> {
                let f = find_item_by_id_idx(
                    old(self).data_store.store_model().items,
                    item_id as int,
                );
                &&& f >= 0
                &&& final(self).pocket.actions() == old(self).pocket.actions().push(
                    (
                        RemoteActionKind::Favorite,
                        old(self).data_store.store_model().items[f].pocket_id,
                    ),
                )
            },
            r is Err ==> final(self).pocket.actions() == old(self).pocket.actions(),
    {
        let item = match self.data_store.get_item(item_id) {
            Ok(Some(it)) => it,
            Ok(None) => {
                return Err(Error::NotFound(String::from_str("item does not exist")));
            },
            Err(e) => {
                return Err(e);
            },
        };
        let pid = item.pocket_id();
        match self.pocket.favorite(&pid) {
            Ok(()) => {},
            Err(e) => {
                return Err(e);
            },
        }
        Ok(())
    }
}

} // verus!
